//! What happens at startup: which configured domains are connected to,
//! how they enter the registry, and when a first window is opened.
use crate::domain::{
    Domain, DomainKindView, DomainState, DomainView, SpawnPlan, SpawnPlanView, Transport,
    TransportView,
};
use crate::error::ErrorKind;
use crate::ids::{DomainId, DomainIdAllocator, WindowId};
use crate::laws::lemma_domain_index;
use crate::model::RegistryView;
use crate::mux::Registry;
use crate::size::TerminalSize;
use vstd::prelude::*;

verus! {

/// A configured server that is reached over a socket on this machine.
#[derive(Clone, Debug, PartialEq, Eq)]
pub struct SocketDomainConfig {
    pub path: String,
    pub connect_automatically: bool,
}

/// A configured server that is reached over TLS.
#[derive(Clone, Debug, PartialEq, Eq)]
pub struct TlsDomainConfig {
    pub host: String,
    pub port: u16,
    pub pem_cert: String,
    pub pem_private_key: String,
    pub connect_automatically: bool,
}

impl SocketDomainConfig {
    pub open spec fn transport_view(&self) -> TransportView {
        TransportView::LocalSocket { path: self.path@ }
    }

    /// The transport that reaches this server.
    pub fn transport(&self) -> (t: Transport)
        ensures
            t@ == self.transport_view(),
    {
        Transport::LocalSocket { path: self.path.clone() }
    }
}

impl TlsDomainConfig {
    pub open spec fn transport_view(&self) -> TransportView {
        TransportView::Tls {
            host: self.host@,
            port: self.port,
            pem_cert: self.pem_cert@,
            pem_private_key: self.pem_private_key@,
        }
    }

    /// The transport that reaches this server.
    pub fn transport(&self) -> (t: Transport)
        ensures
            t@ == self.transport_view(),
    {
        Transport::Tls {
            host: self.host.clone(),
            port: self.port,
            pem_cert: self.pem_cert.clone(),
            pem_private_key: self.pem_private_key.clone(),
        }
    }
}

pub open spec fn transport_views(transports: Seq<Transport>) -> Seq<TransportView> {
    transports.map_values(|t: Transport| t@)
}

/// The transports of the socket domains that are marked to be connected
/// automatically, in the order of their declaration.
pub open spec fn auto_sockets(configs: Seq<SocketDomainConfig>) -> Seq<TransportView>
    decreases configs.len(),
{
    if configs.len() == 0 {
        Seq::empty()
    } else {
        let init = auto_sockets(configs.drop_last());
        if configs.last().connect_automatically {
            init.push(configs.last().transport_view())
        } else {
            init
        }
    }
}

/// The transports of the TLS domains that are marked to be connected
/// automatically, in the order of their declaration.
pub open spec fn auto_tls(configs: Seq<TlsDomainConfig>) -> Seq<TransportView>
    decreases configs.len(),
{
    if configs.len() == 0 {
        Seq::empty()
    } else {
        let init = auto_tls(configs.drop_last());
        if configs.last().connect_automatically {
            init.push(configs.last().transport_view())
        } else {
            init
        }
    }
}

/// The servers to connect to at startup: none where the front end is
/// itself a multiplexer server or the user asked for no automatic
/// connection; else the marked socket domains, then the marked TLS domains.
pub open spec fn auto_connect_plan(
    sockets: Seq<SocketDomainConfig>,
    tls: Seq<TlsDomainConfig>,
    mux_server: bool,
    no_auto_connect: bool,
) -> Seq<TransportView> {
    if mux_server || no_auto_connect {
        Seq::empty()
    } else {
        auto_sockets(sockets) + auto_tls(tls)
    }
}

/// The servers to connect to at startup, in the order in which they are
/// to be attached.
pub fn auto_connect_targets(
    sockets: &Vec<SocketDomainConfig>,
    tls: &Vec<TlsDomainConfig>,
    mux_server: bool,
    no_auto_connect: bool,
) -> (targets: Vec<Transport>)
    ensures
        transport_views(targets@) == auto_connect_plan(sockets@, tls@, mux_server, no_auto_connect),
{
    let mut targets: Vec<Transport> = Vec::new();
    if mux_server || no_auto_connect {
        assert(transport_views(targets@) =~= Seq::empty());
        return targets;
    }
    let mut i: usize = 0;
    assert(sockets@.take(0) =~= Seq::empty());
    while i < sockets.len()
        invariant
            i <= sockets.len(),
            transport_views(targets@) =~= auto_sockets(sockets@.take(i as int)),
        decreases sockets.len() - i,
    {
        proof {
            assert(sockets@.take(i + 1).drop_last() =~= sockets@.take(i as int));
        }
        if sockets[i].connect_automatically {
            let t = sockets[i].transport();
            proof {
                assert(transport_views(targets@.push(t)) =~= transport_views(targets@).push(t@));
            }
            targets.push(t);
        }
        i += 1;
    }
    assert(sockets@.take(i as int) =~= sockets@);
    let mut j: usize = 0;
    assert(tls@.take(0) =~= Seq::empty());
    while j < tls.len()
        invariant
            j <= tls.len(),
            transport_views(targets@) =~= auto_sockets(sockets@) + auto_tls(tls@.take(j as int)),
        decreases tls.len() - j,
    {
        proof {
            assert(tls@.take(j + 1).drop_last() =~= tls@.take(j as int));
        }
        if tls[j].connect_automatically {
            let t = tls[j].transport();
            proof {
                assert(transport_views(targets@.push(t)) =~= transport_views(targets@).push(t@));
            }
            targets.push(t);
        }
        j += 1;
    }
    assert(tls@.take(j as int) =~= tls@);
    targets
}

/// A client domain that has started to attach.
pub open spec fn attaching_client(id: DomainId, transport: TransportView) -> DomainView {
    DomainView { id, kind: DomainKindView::Client(transport), state: DomainState::Attaching }
}

/// Brings one client domain into the registry: takes the next domain
/// identifier, adds the domain and starts attaching it.  On success the
/// caller connects over `transport` and reports to `finish_attach`.  The
/// identifier is used up also where the registry has it already.
pub fn register_client(registry: &mut Registry, ids: &mut DomainIdAllocator, transport: Transport) -> (r:
    Result<DomainId, ErrorKind>)
    requires
        old(registry).wf(),
        !old(ids).exhausted(),
    ensures
        final(registry).wf(),
        final(ids).issued() == old(ids).issued() + 1,
        match r {
            Ok(id) => {
                &&& id == old(ids).issued()
                &&& !old(registry)@.has_domain(id)
                &&& final(registry)@ == old(registry)@.add_domain(attaching_client(id, transport@))
            },
            Err(e) => {
                &&& e == ErrorKind::DuplicateDomain
                &&& old(registry)@.has_domain(old(ids).issued() as DomainId)
                &&& final(registry)@ == old(registry)@
            },
        },
{
    let id = ids.allocate();
    let ghost before = registry@;
    match registry.add_domain(Domain::new_client(id, transport)) {
        Err(e) => Err(e),
        Ok(()) => {
            let ghost added = registry@;
            let ghost k = before.domains.len() as int;
            proof {
                lemma_domain_index(added, id, k);
            }
            let _ = registry.attach(id);
            proof {
                assert(registry@.domains =~= before.add_domain(attaching_client(id, transport@)).domains);
            }
            Ok(id)
        },
    }
}

/// The registry after the client domains for `transports` were added, with
/// the identifiers `first`, `first + 1`, and so on, each of them attaching.
pub open spec fn with_clients(r: RegistryView, first: nat, transports: Seq<TransportView>) -> RegistryView {
    RegistryView {
        domains: r.domains + Seq::new(
            transports.len(),
            |i: int| attaching_client((first + i) as DomainId, transports[i]),
        ),
        ..r
    }
}

/// None of the identifiers `first`, `first + 1`, ..., `first + count - 1`
/// is the identifier of a domain of the registry.
pub open spec fn identifiers_free(r: RegistryView, first: nat, count: nat) -> bool {
    forall|id: DomainId| first <= id < first + count ==> !#[trigger] r.has_domain(id)
}

/// Brings the client domains for `transports` into the registry, in
/// order, each with the next domain identifier.  A duplicate identifier is
/// a fatal configuration error and ends the run at that domain: the
/// domains before it stay registered, and its identifier is used up.
pub fn register_clients(
    registry: &mut Registry,
    ids: &mut DomainIdAllocator,
    transports: &Vec<Transport>,
) -> (r: Result<Vec<DomainId>, ErrorKind>)
    requires
        old(registry).wf(),
        old(ids).issued() + transports.len() <= u64::MAX,
    ensures
        final(registry).wf(),
        ({
            let first = old(ids).issued();
            match r {
                Ok(added) => {
                    &&& identifiers_free(old(registry)@, first, transports.len() as nat)
                    &&& final(registry)@ == with_clients(
                        old(registry)@,
                        first,
                        transport_views(transports@),
                    )
                    &&& final(ids).issued() == first + transports.len()
                    &&& added@ == Seq::new(transports.len() as nat, |i: int| (first + i) as DomainId)
                },
                Err(e) => {
                    let clash = (final(ids).issued() - first - 1) as nat;
                    &&& e == ErrorKind::DuplicateDomain
                    &&& first < final(ids).issued() <= first + transports.len()
                    &&& identifiers_free(old(registry)@, first, clash)
                    &&& old(registry)@.has_domain((first + clash) as DomainId)
                    &&& final(registry)@ == with_clients(
                        old(registry)@,
                        first,
                        transport_views(transports@).take(clash as int),
                    )
                },
            }
        }),
{
    let ghost before = registry@;
    let ghost first = ids.issued();
    let ghost all = transport_views(transports@);
    let mut added: Vec<DomainId> = Vec::new();
    let mut i: usize = 0;
    proof {
        assert(with_clients(before, first, all.take(0)).domains =~= before.domains);
    }
    while i < transports.len()
        invariant
            i <= transports.len(),
            all == transport_views(transports@),
            before == old(registry)@,
            first == old(ids).issued(),
            first + transports.len() <= u64::MAX,
            registry.wf(),
            ids.issued() == first + i,
            identifiers_free(before, first, i as nat),
            registry@ == with_clients(before, first, all.take(i as int)),
            added@ == Seq::new(i as nat, |k: int| (first + k) as DomainId),
        decreases transports.len() - i,
    {
        let ghost here = registry@;
        proof {
            lemma_with_clients_domains(before, first, all.take(i as int), (first + i) as DomainId);
        }
        match register_client(registry, ids, transports[i].duplicate()) {
            Ok(id) => {
                proof {
                    assert(added@.push(id) =~= Seq::new((i + 1) as nat, |k: int| (first + k) as DomainId));
                    assert(here.add_domain(attaching_client(id, all[i as int])).domains =~= with_clients(
                        before,
                        first,
                        all.take(i + 1),
                    ).domains);
                }
                added.push(id);
            },
            Err(e) => {
                return Err(e);
            },
        }
        i += 1;
    }
    proof {
        assert(all.take(i as int) =~= all);
    }
    Ok(added)
}

/// After client domains were added, the registry has a domain exactly
/// where it had one before or the identifier is one of the new ones.
proof fn lemma_with_clients_domains(r: RegistryView, first: nat, transports: Seq<TransportView>, id: DomainId)
    requires
        first + transports.len() <= u64::MAX,
    ensures
        with_clients(r, first, transports).has_domain(id) <==> r.has_domain(id) || first <= id < first
            + transports.len(),
{
    let all = with_clients(r, first, transports);
    let n = r.domains.len() as int;
    if r.has_domain(id) {
        let k = r.domain_index(id);
        assert(all.domains[k].id == id);
    }
    if first <= id < first + transports.len() {
        assert(all.domains[n + (id - first)].id == id);
    }
    if all.has_domain(id) {
        let k = all.domain_index(id);
        if k < n {
            assert(r.domains[k].id == id);
        }
    }
}

/// Opens the first window where the registry lists no tab: creates an
/// empty window and says what to do to put a tab of the default domain, of
/// the given size, into it.  Where the registry lists a tab, nothing is
/// done.
pub fn plan_default_window(registry: &mut Registry, size: TerminalSize) -> (r: Option<(WindowId, SpawnPlan)>)
    requires
        old(registry).wf(),
        old(registry)@.next_window < u64::MAX,
    ensures
        final(registry).wf(),
        match r {
            Some((window_id, plan)) => {
                &&& old(registry)@.is_empty()
                &&& window_id == old(registry)@.next_window
                &&& final(registry)@ == old(registry)@.new_empty_window()
                &&& final(registry)@.has_window(window_id)
                &&& plan@ == (SpawnPlanView::OpenPty { size })
            },
            None => !old(registry)@.is_empty() && final(registry)@ == old(registry)@,
        },
{
    if !registry.is_empty() {
        return None;
    }
    let window_id = registry.new_empty_window();
    let domain_id = registry.default_domain().id();
    match registry.prepare_spawn(domain_id, size, window_id) {
        Ok(plan) => Some((window_id, plan)),
        Err(_) => {
            proof {
                assert(false);
            }
            None
        },
    }
}

} // verus!
