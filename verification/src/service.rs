//! The remote query service: what a running registry answers, and what
//! the query command makes of the answer.
use crate::domain::{SpawnPlan, SpawnPlanView};
use crate::error::ErrorKind;
use crate::ids::TabId;
use crate::listing::{listing_text, render_tab_list, ListError};
use crate::model::{tab_entries, WindowView};
use crate::mux::Registry;
use crate::protocol::{list_tabs_result, Pdu, PduView, PROTOCOL_VERSION};
use crate::text::word_views;
use vstd::prelude::*;
use vstd::string::StringExecFns;

verus! {

/// The server's answer to a request that it can answer from the registry
/// alone.  A spawn needs outside work first and has no such answer.
pub open spec fn response(windows: Seq<WindowView>, request: PduView) -> Option<PduView> {
    match request {
        PduView::Hello { version } => Some(
            if version == PROTOCOL_VERSION {
                PduView::Hello { version: PROTOCOL_VERSION }
            } else {
                PduView::Failed { error: ErrorKind::HandshakeFailed }
            },
        ),
        PduView::ListTabs => Some(PduView::TabList { tabs: tab_entries(windows) }),
        PduView::Spawn { .. } => None,
        _ => Some(PduView::Failed { error: ErrorKind::ProtocolError }),
    }
}

/// Answers a request from the registry: the handshake, and the list of
/// tabs.  For a spawn the answer is `None`: the caller carries the spawn
/// out and answers with `spawn_response`.  A message that is no request is
/// refused.
pub fn respond(registry: &Registry, request: &Pdu) -> (r: Option<Pdu>)
    ensures
        match (r, response(registry@.windows, request@)) {
            (Some(pdu), Some(expected)) => pdu@ == expected,
            (None, None) => true,
            _ => false,
        },
{
    match request {
        Pdu::Hello { version } => Some(
            if *version == PROTOCOL_VERSION {
                Pdu::Hello { version: PROTOCOL_VERSION }
            } else {
                Pdu::Failed { error: ErrorKind::HandshakeFailed }
            },
        ),
        Pdu::ListTabs => Some(Pdu::TabList { tabs: registry.list_tabs() }),
        Pdu::Spawn { .. } => None,
        _ => Some(Pdu::Failed { error: ErrorKind::ProtocolError }),
    }
}

/// The request that carries a spawn to the server, where the spawn is to
/// be forwarded.  A spawn on this host has no request.
pub fn spawn_request(plan: &SpawnPlan, command: Vec<String>) -> (r: Option<Pdu>)
    ensures
        match plan@ {
            SpawnPlanView::Forward { size, window_id, .. } => r matches Some(pdu) && pdu@ == (
            PduView::Spawn { window_id, size, command: word_views(command@) }),
            SpawnPlanView::OpenPty { .. } => r is None,
        },
{
    match plan {
        SpawnPlan::Forward { size, window_id, .. } => Some(
            Pdu::Spawn { window_id: *window_id, size: *size, command },
        ),
        SpawnPlan::OpenPty { .. } => None,
    }
}

/// The server's answer to a spawn request, from how the spawn ended.
pub fn spawn_response(result: Result<TabId, ErrorKind>) -> (pdu: Pdu)
    ensures
        pdu@ == match result {
            Ok(tab_id) => PduView::Spawned { tab_id },
            Err(error) => PduView::Failed { error },
        },
{
    match result {
        Ok(tab_id) => Pdu::Spawned { tab_id },
        Err(error) => Pdu::Failed { error },
    }
}

/// What a command leaves behind: its exit code and what it printed.
#[derive(Clone, Debug, PartialEq, Eq)]
pub struct CommandOutput {
    pub exit_code: u8,
    pub stdout: String,
    pub stderr: String,
}

/// The line that reports an error.
pub open spec fn error_line(name: Seq<char>) -> Seq<char> {
    "error: "@ + name + seq!['\n']
}

fn failure(name: &str) -> (out: CommandOutput)
    ensures
        out.exit_code == 1,
        out.stdout@.len() == 0,
        out.stderr@ == error_line(name@),
{
    let mut line = "error: ".to_owned();
    line.append(name);
    line.push('\n');
    CommandOutput { exit_code: 1, stdout: String::new(), stderr: line }
}

/// The outcome of the query command, given the listing that was rendered
/// for the tabs it received.
pub fn list_output(rendered: Result<String, ListError>) -> (out: CommandOutput)
    ensures
        match rendered {
            Ok(text) => out.exit_code == 0 && out.stdout == text && out.stderr@.len() == 0,
            Err(_) => out.exit_code == 1 && out.stdout@.len() == 0 && out.stderr@ == error_line(
                "OutputFailed"@,
            ),
        },
{
    match rendered {
        Ok(text) => CommandOutput { exit_code: 0, stdout: text, stderr: String::new() },
        Err(_) => failure("OutputFailed"),
    }
}

/// The query command, from what came of asking the server for its tabs:
/// the server's reply, or why there is none.  On success the command
/// prints the table and exits with 0.  On any error it prints nothing of
/// the table, reports the error and exits with 1.
pub fn list_command(reply: Result<Pdu, ErrorKind>) -> (out: CommandOutput)
    ensures
        match reply {
            Ok(pdu) => match pdu@ {
                PduView::TabList { tabs } => match listing_text(tabs) {
                    Some(text) => out.exit_code == 0 && out.stdout@ == text && out.stderr@.len()
                        == 0,
                    None => out.exit_code == 1 && out.stdout@.len() == 0 && out.stderr@
                        == error_line("OutputFailed"@),
                },
                PduView::Failed { error } => out.exit_code == 1 && out.stdout@.len() == 0
                    && out.stderr@ == error_line(error.name_view()),
                _ => out.exit_code == 1 && out.stdout@.len() == 0 && out.stderr@ == error_line(
                    ErrorKind::ProtocolError.name_view(),
                ),
            },
            Err(error) => out.exit_code == 1 && out.stdout@.len() == 0 && out.stderr@ == error_line(
                error.name_view(),
            ),
        },
        out.exit_code == 0 || out.exit_code == 1,
        out.exit_code == 1 ==> out.stdout@.len() == 0,
{
    let entries = match reply {
        Ok(pdu) => list_tabs_result(pdu),
        Err(e) => Err(e),
    };
    match entries {
        Ok(tabs) => list_output(render_tab_list(&tabs)),
        Err(e) => failure(e.name()),
    }
}

} // verus!
