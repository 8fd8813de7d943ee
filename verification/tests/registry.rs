use session_mux::domain::{AttachStep, Domain, DomainState, SpawnPlan, Transport};
use session_mux::entry::TabEntry;
use session_mux::error::ErrorKind;
use session_mux::mux::{Registry, SpawnOutcome};
use session_mux::size::TerminalSize;

fn size(cols: u16, rows: u16) -> TerminalSize {
    TerminalSize { cols, rows }
}

fn launched(title: &str) -> SpawnOutcome {
    SpawnOutcome::Launched { title: title.to_string() }
}

fn fresh() -> Registry {
    Registry::new(Domain::new_local(0))
}

fn entry(window_id: u64, tab_id: u64, cols: u16, rows: u16, title: &str) -> TabEntry {
    TabEntry { window_id, tab_id, size: size(cols, rows), title: title.to_string() }
}

#[test]
fn new_registry_is_empty() {
    let r = fresh();
    assert!(r.is_empty());
    assert_eq!(r.list_tabs(), Vec::new());
    assert_eq!(r.window_count(), 0);
    assert_eq!(r.domain_count(), 1);
    assert_eq!(r.default_domain().id(), 0);
    assert!(r.default_domain().is_local());
    assert!(r.has_domain(0));
    assert!(!r.has_domain(1));
}

#[test]
fn empty_window_keeps_the_registry_empty() {
    let mut r = fresh();
    let w = r.new_empty_window();
    assert_eq!(w, 0);
    assert!(r.is_empty());
    assert!(r.has_window(w));
    assert_eq!(r.window(w).unwrap().len(), 0);
    assert!(r.window(w).unwrap().is_empty());
    assert_eq!(r.window_count(), 1);
}

#[test]
fn window_identifiers_follow_creation_order() {
    let mut r = fresh();
    assert_eq!(r.new_empty_window(), 0);
    assert_eq!(r.new_empty_window(), 1);
    assert_eq!(r.new_empty_window(), 2);
    assert_eq!(r.next_window_id(), 3);
    r.close_window(1).unwrap();
    assert_eq!(r.new_empty_window(), 3);
}

#[test]
fn spawn_makes_the_registry_non_empty() {
    let mut r = fresh();
    let w = r.new_empty_window();
    assert!(r.is_empty());
    let tab = r.complete_spawn(0, size(80, 24), w, launched("")).unwrap();
    assert!(!r.is_empty());
    assert_eq!(tab, 0);
}

#[test]
fn spawn_then_list_gives_the_one_entry() {
    let mut r = fresh();
    let w = r.new_empty_window();
    let before = r.next_tab_id();
    assert_eq!(r.prepare_spawn(0, size(80, 24), w), Ok(SpawnPlan::OpenPty { size: size(80, 24) }));
    let tab = r.complete_spawn(0, size(80, 24), w, launched("shell")).unwrap();
    assert_eq!(tab, before);
    assert_eq!(r.list_tabs(), vec![entry(w, tab, 80, 24, "shell")]);
}

#[test]
fn tabs_are_listed_window_by_window() {
    let mut r = fresh();
    let w0 = r.new_empty_window();
    let w1 = r.new_empty_window();
    let a = r.complete_spawn(0, size(80, 24), w1, launched("a")).unwrap();
    let b = r.complete_spawn(0, size(132, 43), w0, launched("b")).unwrap();
    let c = r.complete_spawn(0, size(10, 5), w1, launched("c")).unwrap();
    assert_eq!((a, b, c), (0, 1, 2));
    assert_eq!(
        r.list_tabs(),
        vec![entry(w0, b, 132, 43, "b"), entry(w1, a, 80, 24, "a"), entry(w1, c, 10, 5, "c")]
    );
}

#[test]
fn failed_launch_changes_nothing() {
    let mut r = fresh();
    let w = r.new_empty_window();
    assert_eq!(r.complete_spawn(0, size(80, 24), w, SpawnOutcome::Failed), Err(ErrorKind::SpawnFailed));
    assert!(r.is_empty());
    assert_eq!(r.next_tab_id(), 0);
    assert_eq!(r.list_tabs(), Vec::new());
}

#[test]
fn spawn_into_an_unknown_window_is_refused() {
    let mut r = fresh();
    let w = r.new_empty_window();
    assert_eq!(r.prepare_spawn(0, size(80, 24), w + 1), Err(ErrorKind::UnknownWindow));
    assert_eq!(
        r.complete_spawn(0, size(80, 24), w + 1, launched("")),
        Err(ErrorKind::UnknownWindow)
    );
    assert!(r.is_empty());
}

#[test]
fn spawn_on_an_unknown_domain_is_refused() {
    let mut r = fresh();
    let w = r.new_empty_window();
    assert_eq!(r.prepare_spawn(9, size(80, 24), w), Err(ErrorKind::UnknownDomain));
    assert_eq!(r.complete_spawn(9, size(80, 24), w, launched("")), Err(ErrorKind::UnknownDomain));
    assert_eq!(r.prepare_spawn(9, size(80, 24), w + 1), Err(ErrorKind::UnknownDomain));
    assert!(r.is_empty());
}

#[test]
fn spawn_on_a_client_domain_is_forwarded() {
    let mut r = fresh();
    let t = Transport::LocalSocket { path: "/tmp/sock".to_string() };
    r.add_domain(Domain::new_client(5, t.clone())).unwrap();
    let w = r.new_empty_window();
    assert_eq!(
        r.prepare_spawn(5, size(80, 24), w),
        Ok(SpawnPlan::Forward { transport: t, size: size(80, 24), window_id: w })
    );
    let tab = r.complete_spawn(5, size(80, 24), w, launched("remote")).unwrap();
    assert_eq!(r.window(w).unwrap().tab(0).unwrap().domain_id(), 5);
    assert_eq!(r.window(w).unwrap().tab(0).unwrap().id(), tab);
    assert_eq!(r.window(w).unwrap().tab(0).unwrap().size(), size(80, 24));
    assert_eq!(r.window(w).unwrap().tab(0).unwrap().title(), "remote");
    assert!(r.window(w).unwrap().tab(1).is_none());
}

#[test]
fn duplicate_domain_is_rejected() {
    let mut r = fresh();
    assert_eq!(r.add_domain(Domain::new_local(0)), Err(ErrorKind::DuplicateDomain));
    assert_eq!(r.domain_count(), 1);
    assert_eq!(r.add_domain(Domain::new_local(1)), Ok(()));
    assert_eq!(r.add_domain(Domain::new_local(1)), Err(ErrorKind::DuplicateDomain));
    assert_eq!(r.domain_count(), 2);
    assert!(ErrorKind::DuplicateDomain.is_fatal());
    assert!(!ErrorKind::ConnectionFailed.is_fatal());
}

#[test]
fn removing_the_last_tab_keeps_the_window() {
    let mut r = fresh();
    let w = r.new_empty_window();
    let tab = r.complete_spawn(0, size(80, 24), w, launched("")).unwrap();
    assert!(r.has_tab(tab));
    let removed = r.remove_tab(tab).unwrap();
    assert_eq!(removed.id(), tab);
    assert!(!r.has_tab(tab));
    assert!(r.has_window(w));
    assert!(r.is_empty());
    assert_eq!(r.window_count(), 1);
    assert!(r.remove_tab(tab).is_none());
}

#[test]
fn tab_identifiers_are_not_reused() {
    let mut r = fresh();
    let w = r.new_empty_window();
    let a = r.complete_spawn(0, size(80, 24), w, launched("a")).unwrap();
    r.remove_tab(a);
    let b = r.complete_spawn(0, size(80, 24), w, launched("b")).unwrap();
    assert_eq!((a, b), (0, 1));
}

#[test]
fn removing_a_tab_keeps_the_others_in_order() {
    let mut r = fresh();
    let w = r.new_empty_window();
    let a = r.complete_spawn(0, size(1, 1), w, launched("a")).unwrap();
    let b = r.complete_spawn(0, size(2, 2), w, launched("b")).unwrap();
    let c = r.complete_spawn(0, size(3, 3), w, launched("c")).unwrap();
    r.remove_tab(b);
    assert_eq!(r.list_tabs(), vec![entry(w, a, 1, 1, "a"), entry(w, c, 3, 3, "c")]);
}

#[test]
fn closing_a_window_removes_its_tabs() {
    let mut r = fresh();
    let w0 = r.new_empty_window();
    let w1 = r.new_empty_window();
    r.complete_spawn(0, size(80, 24), w0, launched("a")).unwrap();
    let b = r.complete_spawn(0, size(80, 24), w1, launched("b")).unwrap();
    assert_eq!(r.close_window(w0), Ok(()));
    assert!(!r.has_window(w0));
    assert_eq!(r.list_tabs(), vec![entry(w1, b, 80, 24, "b")]);
    assert_eq!(r.close_window(w0), Err(ErrorKind::UnknownWindow));
    assert_eq!(r.close_window(w1), Ok(()));
    assert!(r.is_empty());
    assert_eq!(r.window_count(), 0);
}

#[test]
fn attach_through_the_registry() {
    let mut r = fresh();
    assert_eq!(r.attach(0), Ok(AttachStep::Completed));
    assert_eq!(r.domain(0).unwrap().state(), DomainState::Attached);
    assert_eq!(r.attach(0), Ok(AttachStep::Unchanged(DomainState::Attached)));
    assert_eq!(r.attach(1), Err(ErrorKind::UnknownDomain));
    assert_eq!(r.detach(0), Ok(true));
    assert_eq!(r.detach(0), Ok(false));
    assert_eq!(r.detach(1), Err(ErrorKind::UnknownDomain));
    assert_eq!(r.domain(0).unwrap().state(), DomainState::Detached);
    assert!(r.domain(1).is_none());
}

#[test]
fn snapshots_of_tabs() {
    let mut r = fresh();
    let w = r.new_empty_window();
    let t = r.complete_spawn(0, size(80, 24), w, launched("top")).unwrap();
    let window = r.window(w).unwrap();
    assert_eq!(window.id(), w);
    assert_eq!(window.title(), "");
    let tab = window.tab(0).unwrap();
    assert_eq!(tab.entry(w), entry(w, t, 80, 24, "top"));
    assert_eq!(tab.entry(w).duplicate(), entry(w, t, 80, 24, "top"));
    assert!(r.window(w + 1).is_none());
}

#[test]
fn failed_launch_wins_over_unknown_identifiers() {
    let mut r = fresh();
    assert_eq!(r.complete_spawn(9, size(80, 24), 9, SpawnOutcome::Failed), Err(ErrorKind::SpawnFailed));
    assert_eq!(r.complete_spawn(9, size(80, 24), 9, launched("")), Err(ErrorKind::UnknownDomain));
    assert_eq!(r.complete_spawn(0, size(80, 24), 9, launched("")), Err(ErrorKind::UnknownWindow));
    assert_eq!(r.next_tab_id(), 0);
}
