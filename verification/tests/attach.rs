use session_mux::domain::{AttachStep, Domain, DomainState, Transport};
use session_mux::entry::TabEntry;
use session_mux::error::ErrorKind;
use session_mux::mux::{Registry, SpawnOutcome};
use session_mux::size::TerminalSize;

fn entry(window_id: u64, tab_id: u64, cols: u16, rows: u16, title: &str) -> TabEntry {
    TabEntry { window_id, tab_id, size: TerminalSize { cols, rows }, title: title.to_string() }
}

fn with_client(id: u64) -> Registry {
    let mut r = Registry::new(Domain::new_local(0));
    let t = Transport::LocalSocket { path: "/tmp/sock".to_string() };
    r.add_domain(Domain::new_client(id, t)).unwrap();
    r
}

#[test]
fn second_attach_starts_no_second_connection() {
    let mut r = with_client(1);
    assert_eq!(r.attach(1), Ok(AttachStep::Connect));
    assert_eq!(r.attach(1), Ok(AttachStep::Unchanged(DomainState::Attaching)));
    assert_eq!(r.domain(1).unwrap().state(), DomainState::Attaching);
}

#[test]
fn failed_attach_is_reported_and_leaves_the_domain_detached() {
    let mut r = with_client(1);
    r.attach(1).unwrap();
    assert_eq!(r.finish_attach(1, Err(ErrorKind::ConnectionFailed)), Err(ErrorKind::ConnectionFailed));
    assert_eq!(r.domain(1).unwrap().state(), DomainState::Detached);
    assert!(r.is_empty());
    assert_eq!(r.window_count(), 0);
    assert_eq!(r.attach(1), Ok(AttachStep::Connect));
    assert_eq!(r.finish_attach(1, Err(ErrorKind::HandshakeFailed)), Err(ErrorKind::HandshakeFailed));
    assert_eq!(r.domain(1).unwrap().state(), DomainState::Detached);
}

#[test]
fn successful_attach_mirrors_the_remote_tabs() {
    let mut r = with_client(1);
    let w = r.new_empty_window();
    let local = r.complete_spawn(0, TerminalSize { cols: 80, rows: 24 }, w, SpawnOutcome::Launched {
        title: "local".to_string(),
    }).unwrap();
    assert_eq!((w, local), (0, 0));
    r.attach(1).unwrap();
    let remote = vec![
        entry(7, 40, 80, 24, "a"),
        entry(9, 41, 132, 43, "b"),
        entry(7, 42, 100, 30, "c"),
    ];
    assert_eq!(r.finish_attach(1, Ok(remote)), Ok(DomainState::Attached));
    assert_eq!(r.domain(1).unwrap().state(), DomainState::Attached);
    assert_eq!(r.window_count(), 3);
    assert_eq!(
        r.list_tabs(),
        vec![
            entry(0, 0, 80, 24, "local"),
            entry(1, 1, 80, 24, "a"),
            entry(1, 3, 100, 30, "c"),
            entry(2, 2, 132, 43, "b"),
        ]
    );
    assert_eq!(r.window(1).unwrap().tab(0).unwrap().domain_id(), 1);
    assert_eq!(r.window(2).unwrap().tab(0).unwrap().domain_id(), 1);
    assert_eq!(r.next_window_id(), 3);
    assert_eq!(r.next_tab_id(), 4);
}

#[test]
fn attach_to_a_server_without_tabs_leaves_the_registry_empty() {
    let mut r = with_client(1);
    r.attach(1).unwrap();
    assert_eq!(r.finish_attach(1, Ok(Vec::new())), Ok(DomainState::Attached));
    assert!(r.is_empty());
    assert_eq!(r.window_count(), 0);
}

#[test]
fn outcome_without_an_attempt_is_ignored() {
    let mut r = with_client(1);
    assert_eq!(r.finish_attach(1, Ok(vec![entry(1, 1, 80, 24, "a")])), Ok(DomainState::Detached));
    assert!(r.is_empty());
    assert_eq!(r.finish_attach(1, Err(ErrorKind::ConnectionFailed)), Ok(DomainState::Detached));
    assert_eq!(r.finish_attach(2, Ok(Vec::new())), Err(ErrorKind::UnknownDomain));
    r.attach(1).unwrap();
    r.finish_attach(1, Ok(Vec::new())).unwrap();
    assert_eq!(r.finish_attach(1, Ok(vec![entry(1, 1, 80, 24, "a")])), Ok(DomainState::Attached));
    assert!(r.is_empty());
}

#[test]
fn completions_may_arrive_in_any_order() {
    let mut r = Registry::new(Domain::new_local(0));
    for id in 1..=3 {
        let t = Transport::LocalSocket { path: format!("/tmp/sock{}", id) };
        r.add_domain(Domain::new_client(id, t)).unwrap();
        assert_eq!(r.attach(id), Ok(AttachStep::Connect));
    }
    assert_eq!(r.finish_attach(3, Ok(vec![entry(1, 1, 80, 24, "three")])), Ok(DomainState::Attached));
    assert_eq!(r.finish_attach(1, Err(ErrorKind::ConnectionFailed)), Err(ErrorKind::ConnectionFailed));
    assert_eq!(r.finish_attach(2, Ok(vec![entry(1, 1, 80, 24, "two")])), Ok(DomainState::Attached));
    assert_eq!(r.domain(1).unwrap().state(), DomainState::Detached);
    assert_eq!(r.domain(2).unwrap().state(), DomainState::Attached);
    assert_eq!(r.domain(3).unwrap().state(), DomainState::Attached);
    assert_eq!(r.list_tabs(), vec![entry(0, 0, 80, 24, "three"), entry(1, 1, 80, 24, "two")]);
    assert_eq!(r.window(0).unwrap().tab(0).unwrap().domain_id(), 3);
    assert_eq!(r.window(1).unwrap().tab(0).unwrap().domain_id(), 2);
}
