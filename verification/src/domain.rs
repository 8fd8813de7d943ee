//! Domains: providers of terminal sessions, and their attach life cycle.
use crate::ids::{DomainId, WindowId};
use crate::size::TerminalSize;
use vstd::prelude::*;

verus! {

/// Where a domain stands in its attach life cycle.
#[derive(Clone, Copy, Debug, PartialEq, Eq, Structural)]
pub enum DomainState {
    Detached,
    Attaching,
    Attached,
}

/// How a client domain reaches its server.
#[derive(Clone, Debug, PartialEq, Eq)]
pub enum Transport {
    /// A socket on this machine, addressed by its path.
    LocalSocket { path: String },
    /// A TLS-secured socket, with the client's certificate material.
    Tls { host: String, port: u16, pem_cert: String, pem_private_key: String },
}

/// A `Transport` as a mathematical value.
pub enum TransportView {
    LocalSocket { path: Seq<char> },
    Tls { host: Seq<char>, port: u16, pem_cert: Seq<char>, pem_private_key: Seq<char> },
}

impl View for Transport {
    type V = TransportView;

    open spec fn view(&self) -> TransportView {
        match *self {
            Transport::LocalSocket { path } => TransportView::LocalSocket { path: path@ },
            Transport::Tls { host, port, pem_cert, pem_private_key } => TransportView::Tls {
                host: host@,
                port,
                pem_cert: pem_cert@,
                pem_private_key: pem_private_key@,
            },
        }
    }
}

impl Transport {
    /// A copy with the same contents.
    pub fn duplicate(&self) -> (r: Transport)
        ensures
            r@ == self@,
    {
        match self {
            Transport::LocalSocket { path } => Transport::LocalSocket { path: path.clone() },
            Transport::Tls { host, port, pem_cert, pem_private_key } => Transport::Tls {
                host: host.clone(),
                port: *port,
                pem_cert: pem_cert.clone(),
                pem_private_key: pem_private_key.clone(),
            },
        }
    }
}

/// The two variants of a domain.
#[derive(Clone, Debug, PartialEq, Eq)]
pub enum DomainKind {
    /// Owns pseudo-terminals on this host.
    Local,
    /// Proxies a remote multiplexer.
    Client(Transport),
}

/// A `DomainKind` as a mathematical value.
pub enum DomainKindView {
    Local,
    Client(TransportView),
}

impl View for DomainKind {
    type V = DomainKindView;

    open spec fn view(&self) -> DomainKindView {
        match *self {
            DomainKind::Local => DomainKindView::Local,
            DomainKind::Client(t) => DomainKindView::Client(t@),
        }
    }
}

/// What the caller of `attach` has to do next.
#[derive(Clone, Copy, Debug, PartialEq, Eq, Structural)]
pub enum AttachStep {
    /// The domain is attached; nothing is left to do.
    Completed,
    /// The domain is now attaching: connect to the server, perform the
    /// handshake, enumerate its tabs and report the outcome.
    Connect,
    /// The domain was attaching or attached already; nothing was started.
    /// The state is the one that the call found.
    Unchanged(DomainState),
}

/// The outside work that a spawn needs.
#[derive(Clone, Debug, PartialEq, Eq)]
pub enum SpawnPlan {
    /// Open a pseudo-terminal of this size on this host and run the command
    /// in it.
    OpenPty { size: TerminalSize },
    /// Ask the server behind `transport` to spawn into its window.
    Forward { transport: Transport, size: TerminalSize, window_id: WindowId },
}

/// A `SpawnPlan` as a mathematical value.
pub enum SpawnPlanView {
    OpenPty { size: TerminalSize },
    Forward { transport: TransportView, size: TerminalSize, window_id: WindowId },
}

impl View for SpawnPlan {
    type V = SpawnPlanView;

    open spec fn view(&self) -> SpawnPlanView {
        match *self {
            SpawnPlan::OpenPty { size } => SpawnPlanView::OpenPty { size },
            SpawnPlan::Forward { transport, size, window_id } => SpawnPlanView::Forward {
                transport: transport@,
                size,
                window_id,
            },
        }
    }
}

/// A provider of terminal sessions.
#[derive(Debug)]
pub struct Domain {
    id: DomainId,
    kind: DomainKind,
    state: DomainState,
}

/// A `Domain` as a mathematical value.
pub struct DomainView {
    pub id: DomainId,
    pub kind: DomainKindView,
    pub state: DomainState,
}

impl View for Domain {
    type V = DomainView;

    closed spec fn view(&self) -> DomainView {
        DomainView { id: self.id, kind: self.kind@, state: self.state }
    }
}

impl DomainView {
    pub open spec fn is_local(self) -> bool {
        self.kind is Local
    }

    pub open spec fn with_state(self, state: DomainState) -> DomainView {
        DomainView { state, ..self }
    }

    /// The outside work that a spawn on this domain needs: a local domain
    /// opens a pseudo-terminal, a client domain forwards the request.
    pub open spec fn spawn_plan(self, size: TerminalSize, window_id: WindowId) -> SpawnPlanView {
        match self.kind {
            DomainKindView::Local => SpawnPlanView::OpenPty { size },
            DomainKindView::Client(transport) => SpawnPlanView::Forward { transport, size, window_id },
        }
    }

    /// The attach transition: the state after `attach()` and what the
    /// caller is told.  A local domain has nothing to reach and is attached
    /// at once; a client domain starts attaching; a domain that is
    /// attaching or attached is left alone.
    pub open spec fn attach(self) -> (DomainView, AttachStep) {
        match self.state {
            DomainState::Detached => if self.is_local() {
                (self.with_state(DomainState::Attached), AttachStep::Completed)
            } else {
                (self.with_state(DomainState::Attaching), AttachStep::Connect)
            },
            state => (self, AttachStep::Unchanged(state)),
        }
    }

    /// The end of an attach attempt: an attaching domain becomes attached
    /// on success and detached on failure.  In any other state no attempt
    /// is under way and the report is ignored.
    pub open spec fn finish_attach(self, success: bool) -> DomainView {
        if self.state == DomainState::Attaching {
            self.with_state(
                if success {
                    DomainState::Attached
                } else {
                    DomainState::Detached
                },
            )
        } else {
            self
        }
    }

    /// Detaching an attached domain; in any other state nothing changes.
    pub open spec fn detach(self) -> DomainView {
        if self.state == DomainState::Attached {
            self.with_state(DomainState::Detached)
        } else {
            self
        }
    }
}

impl Domain {
    /// A detached local domain.
    pub fn new_local(id: DomainId) -> (d: Domain)
        ensures
            d@ == (DomainView { id, kind: DomainKindView::Local, state: DomainState::Detached }),
    {
        Domain { id, kind: DomainKind::Local, state: DomainState::Detached }
    }

    /// A detached client domain that reaches its server over `transport`.
    pub fn new_client(id: DomainId, transport: Transport) -> (d: Domain)
        ensures
            d@ == (DomainView {
                id,
                kind: DomainKindView::Client(transport@),
                state: DomainState::Detached,
            }),
    {
        Domain { id, kind: DomainKind::Client(transport), state: DomainState::Detached }
    }

    pub fn id(&self) -> (id: DomainId)
        ensures
            id == self@.id,
    {
        self.id
    }

    pub fn is_local(&self) -> (r: bool)
        ensures
            r == self@.is_local(),
    {
        match &self.kind {
            DomainKind::Local => true,
            DomainKind::Client(_) => false,
        }
    }

    pub fn state(&self) -> (s: DomainState)
        ensures
            s == self@.state,
    {
        self.state
    }

    /// The transport of a client domain; a local domain has none.
    pub fn transport(&self) -> (t: Option<&Transport>)
        ensures
            match t {
                Some(t) => self@.kind == DomainKindView::Client(t@),
                None => self@.kind is Local,
            },
    {
        match &self.kind {
            DomainKind::Local => None,
            DomainKind::Client(t) => Some(t),
        }
    }

    /// The outside work that a spawn on this domain needs.
    pub fn spawn_plan(&self, size: TerminalSize, window_id: WindowId) -> (plan: SpawnPlan)
        ensures
            plan@ == self@.spawn_plan(size, window_id),
    {
        match &self.kind {
            DomainKind::Local => SpawnPlan::OpenPty { size },
            DomainKind::Client(t) => SpawnPlan::Forward { transport: t.duplicate(), size, window_id },
        }
    }

    /// Starts attaching.  Only a detached client domain asks the caller to
    /// connect; a second call made before the outcome is reported finds the
    /// domain attaching and starts nothing.
    pub fn attach(&mut self) -> (step: AttachStep)
        ensures
            (final(self)@, step) == old(self)@.attach(),
    {
        match self.state {
            DomainState::Detached => {
                if self.is_local() {
                    self.state = DomainState::Attached;
                    AttachStep::Completed
                } else {
                    self.state = DomainState::Attaching;
                    AttachStep::Connect
                }
            },
            state => AttachStep::Unchanged(state),
        }
    }

    /// Reports how the attach attempt that `attach` asked for has ended.
    /// Returns whether an attempt was under way.
    pub fn finish_attach(&mut self, success: bool) -> (applied: bool)
        ensures
            final(self)@ == old(self)@.finish_attach(success),
            applied == (old(self)@.state == DomainState::Attaching),
    {
        match self.state {
            DomainState::Attaching => {
                self.state = if success {
                    DomainState::Attached
                } else {
                    DomainState::Detached
                };
                true
            },
            _ => false,
        }
    }

    /// Detaches an attached domain.  Returns whether it was attached.
    pub fn detach(&mut self) -> (applied: bool)
        ensures
            final(self)@ == old(self)@.detach(),
            applied == (old(self)@.state == DomainState::Attached),
    {
        match self.state {
            DomainState::Attached => {
                self.state = DomainState::Detached;
                true
            },
            _ => false,
        }
    }
}

/// Attach is not reentrant: whatever the domain, a second `attach()` made
/// directly after a first one never asks for a connection, and where the
/// first one did, the second finds the domain attaching and leaves it so.
pub proof fn lemma_attach_twice_connects_once(d: DomainView)
    ensures
        d.attach().0.attach().1 != AttachStep::Connect,
        d.attach().0.attach().0 == d.attach().0,
        d.attach().1 == AttachStep::Connect ==> d.attach().0.attach().1 == AttachStep::Unchanged(
            DomainState::Attaching,
        ),
{
}

/// The transitions of the attach life cycle, and no others: `attach`
/// leaves `Detached` only, `finish_attach` leaves `Attaching` only, and
/// `detach` leaves `Attached` only.
pub proof fn lemma_attach_life_cycle(d: DomainView, success: bool)
    ensures
        d.state == DomainState::Detached ==> d.attach().0.state == (if d.is_local() {
            DomainState::Attached
        } else {
            DomainState::Attaching
        }),
        d.state != DomainState::Detached ==> d.attach().0 == d,
        d.state == DomainState::Attaching ==> d.finish_attach(success).state == (if success {
            DomainState::Attached
        } else {
            DomainState::Detached
        }),
        d.state != DomainState::Attaching ==> d.finish_attach(success) == d,
        d.state == DomainState::Attached ==> d.detach().state == DomainState::Detached,
        d.state != DomainState::Attached ==> d.detach() == d,
{
}

} // verus!
