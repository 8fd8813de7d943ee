use session_mux::domain::{Domain, DomainState, SpawnPlan, Transport};
use session_mux::entry::TabEntry;
use session_mux::error::ErrorKind;
use session_mux::ids::DomainIdAllocator;
use session_mux::mux::{Registry, SpawnOutcome};
use session_mux::size::TerminalSize;
use session_mux::startup::{
    auto_connect_targets, plan_default_window, register_client, register_clients,
    SocketDomainConfig, TlsDomainConfig,
};

fn socket_config(path: &str, auto: bool) -> SocketDomainConfig {
    SocketDomainConfig { path: path.to_string(), connect_automatically: auto }
}

fn tls_config(host: &str, auto: bool) -> TlsDomainConfig {
    TlsDomainConfig {
        host: host.to_string(),
        port: 8080,
        pem_cert: "cert.pem".to_string(),
        pem_private_key: "key.pem".to_string(),
        connect_automatically: auto,
    }
}

fn socket(path: &str) -> Transport {
    Transport::LocalSocket { path: path.to_string() }
}

fn tls(host: &str) -> Transport {
    Transport::Tls {
        host: host.to_string(),
        port: 8080,
        pem_cert: "cert.pem".to_string(),
        pem_private_key: "key.pem".to_string(),
    }
}

/// A registry whose default domain took the first identifier.
fn started() -> (Registry, DomainIdAllocator) {
    let mut ids = DomainIdAllocator::new();
    let registry = Registry::new(Domain::new_local(ids.allocate()));
    (registry, ids)
}

#[test]
fn socket_domains_come_before_tls_domains() {
    let sockets = vec![socket_config("/a", true), socket_config("/b", false), socket_config("/c", true)];
    let tls_clients = vec![tls_config("x", false), tls_config("y", true)];
    assert_eq!(
        auto_connect_targets(&sockets, &tls_clients, false, false),
        vec![socket("/a"), socket("/c"), tls("y")]
    );
}

#[test]
fn nothing_is_connected_where_it_is_switched_off() {
    let sockets = vec![socket_config("/a", true)];
    let tls_clients = vec![tls_config("y", true)];
    assert_eq!(auto_connect_targets(&sockets, &tls_clients, true, false), Vec::new());
    assert_eq!(auto_connect_targets(&sockets, &tls_clients, false, true), Vec::new());
    assert_eq!(auto_connect_targets(&sockets, &tls_clients, true, true), Vec::new());
    assert_eq!(auto_connect_targets(&Vec::new(), &Vec::new(), false, false), Vec::new());
}

#[test]
fn transports_of_the_configured_domains() {
    assert_eq!(socket_config("/a", false).transport(), socket("/a"));
    assert_eq!(tls_config("y", false).transport(), tls("y"));
}

#[test]
fn a_registered_client_is_attaching() {
    let (mut registry, mut ids) = started();
    let id = register_client(&mut registry, &mut ids, socket("/a")).unwrap();
    assert_eq!(id, 1);
    let d = registry.domain(id).unwrap();
    assert_eq!(d.state(), DomainState::Attaching);
    assert_eq!(d.transport(), Some(&socket("/a")));
    assert_eq!(ids.count(), 2);
}

#[test]
fn clients_get_consecutive_identifiers() {
    let (mut registry, mut ids) = started();
    let targets = vec![socket("/a"), socket("/b"), tls("y")];
    assert_eq!(register_clients(&mut registry, &mut ids, &targets), Ok(vec![1, 2, 3]));
    assert_eq!(registry.domain_count(), 4);
    assert_eq!(registry.domain(3).unwrap().transport(), Some(&tls("y")));
    assert_eq!(registry.domain(2).unwrap().state(), DomainState::Attaching);
    assert_eq!(ids.count(), 4);
    assert!(registry.is_empty());
}

#[test]
fn duplicate_identifier_ends_the_registration() {
    let mut ids = DomainIdAllocator::new();
    // The default domain holds an identifier that the allocator will hand out.
    let mut registry = Registry::new(Domain::new_local(1));
    let targets = vec![socket("/a"), socket("/b"), socket("/c")];
    assert_eq!(
        register_clients(&mut registry, &mut ids, &targets),
        Err(ErrorKind::DuplicateDomain)
    );
    assert_eq!(registry.domain_count(), 2);
    assert_eq!(registry.domain(0).unwrap().transport(), Some(&socket("/a")));
    assert!(registry.domain(1).unwrap().is_local());
    assert_eq!(ids.count(), 2);

    let mut ids = DomainIdAllocator::new();
    let mut registry = Registry::new(Domain::new_local(0));
    assert_eq!(register_client(&mut registry, &mut ids, socket("/a")), Err(ErrorKind::DuplicateDomain));
    assert_eq!(registry.domain_count(), 1);
    assert_eq!(ids.count(), 1);
}

#[test]
fn fresh_start_opens_one_window_with_one_tab() {
    let (mut registry, mut ids) = started();
    let targets = auto_connect_targets(&Vec::new(), &Vec::new(), false, false);
    assert_eq!(register_clients(&mut registry, &mut ids, &targets), Ok(Vec::new()));
    assert!(registry.is_empty());

    let size = TerminalSize::default_size();
    let (window, plan) = plan_default_window(&mut registry, size).unwrap();
    assert_eq!(plan, SpawnPlan::OpenPty { size });
    assert!(registry.is_empty());
    let domain = registry.default_domain().id();
    let tab = registry
        .complete_spawn(domain, size, window, SpawnOutcome::Launched { title: String::new() })
        .unwrap();
    assert!(!registry.is_empty());
    assert_eq!(registry.window_count(), 1);
    assert_eq!(registry.window(window).unwrap().len(), 1);
    assert_eq!(
        registry.list_tabs(),
        vec![TabEntry {
            window_id: window,
            tab_id: tab,
            size: TerminalSize { cols: 80, rows: 24 },
            title: String::new(),
        }]
    );
    assert_eq!(plan_default_window(&mut registry, size), None);
    assert_eq!(registry.window_count(), 1);
}

#[test]
fn one_server_reached_and_one_not() {
    let (mut registry, mut ids) = started();
    let sockets = vec![socket_config("/up", true), socket_config("/down", true)];
    let targets = auto_connect_targets(&sockets, &Vec::new(), false, false);
    let added = register_clients(&mut registry, &mut ids, &targets).unwrap();
    assert_eq!(added, vec![1, 2]);

    let listed = vec![TabEntry {
        window_id: 1,
        tab_id: 1,
        size: TerminalSize { cols: 80, rows: 24 },
        title: "remote".to_string(),
    }];
    assert_eq!(registry.finish_attach(added[0], Ok(listed)), Ok(DomainState::Attached));
    assert_eq!(
        registry.finish_attach(added[1], Err(ErrorKind::ConnectionFailed)),
        Err(ErrorKind::ConnectionFailed)
    );
    assert_eq!(registry.domain(1).unwrap().state(), DomainState::Attached);
    assert_eq!(registry.domain(2).unwrap().state(), DomainState::Detached);

    // The first server brought a tab, so no default window is opened.
    assert!(!registry.is_empty());
    assert_eq!(plan_default_window(&mut registry, TerminalSize::default_size()), None);
    assert_eq!(registry.window_count(), 1);
}

#[test]
fn default_window_is_opened_where_no_server_brought_a_tab() {
    let (mut registry, mut ids) = started();
    let targets = vec![socket("/down"), socket("/empty")];
    let added = register_clients(&mut registry, &mut ids, &targets).unwrap();
    assert_eq!(
        registry.finish_attach(added[0], Err(ErrorKind::ConnectionFailed)),
        Err(ErrorKind::ConnectionFailed)
    );
    assert_eq!(registry.finish_attach(added[1], Ok(Vec::new())), Ok(DomainState::Attached));
    assert!(registry.is_empty());
    let (window, plan) = plan_default_window(&mut registry, TerminalSize::default_size()).unwrap();
    assert_eq!(window, 0);
    assert_eq!(plan, SpawnPlan::OpenPty { size: TerminalSize { cols: 80, rows: 24 } });
    assert!(registry.has_window(window));
}
