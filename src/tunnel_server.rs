use vstd::prelude::*;

use crate::log_line::{
    accept_failed_line, accept_failed_text, connected_line, connected_text, Level, LogLine,
};

verus! {

/// Message logged when an accept succeeded but no unused client id is left.
pub const IDS_EXHAUSTED: &'static str = "client ids exhausted";

/// The address the listening socket is bound to: the IPv4 loopback address
/// and the given port.
pub fn bind_address(port: u16) -> (r: ([u8; 4], u16))
    ensures
        r.0@ == seq![127u8, 0u8, 0u8, 1u8],
        r.1 == port,
{
    let octets: [u8; 4] = [127, 0, 0, 1];
    proof {
        assert(octets@ =~= seq![127u8, 0u8, 0u8, 1u8]);
    }
    (octets, port)
}

/// The acceptor of a tunnel relay server.
///
/// It owns the bound listening socket `L` and a registry of the client
/// sessions `C` built on the connections accepted from it, in the order they
/// were accepted, each with the id it was given.
pub struct TunnelServer<L, C> {
    clients: Vec<C>,
    client_ids: Vec<u32>,
    tcp_listener: L,
    next_client_id: u32,
}

impl<L, C> TunnelServer<L, C> {
    /// The registered sessions, in acceptance order.
    pub closed spec fn spec_clients(&self) -> Seq<C> {
        self.clients@
    }

    /// The id of each registered session, position for position.
    pub closed spec fn spec_client_ids(&self) -> Seq<u32> {
        self.client_ids@
    }

    /// The id that the next successful accept is given.
    pub closed spec fn spec_next_client_id(&self) -> nat {
        self.next_client_id as nat
    }

    /// The listening socket.
    pub closed spec fn spec_listener(&self) -> L {
        self.tcp_listener
    }

    /// One id per session; ids strictly increase in acceptance order and are
    /// all below the next id to be handed out, so none is used twice.
    pub open spec fn wf(&self) -> bool {
        &&& self.spec_clients().len() == self.spec_client_ids().len()
        &&& forall|i: int, j: int|
            0 <= i < j < self.spec_client_ids().len() ==> #[trigger] self.spec_client_ids()[i]
                < #[trigger] self.spec_client_ids()[j]
        &&& forall|i: int|
            0 <= i < self.spec_client_ids().len() ==> (#[trigger] self.spec_client_ids()[i] as nat)
                < self.spec_next_client_id()
    }

    /// `self` is as `new` leaves it: no sessions, and id 0 next.
    pub open spec fn is_fresh(&self) -> bool {
        &&& self.wf()
        &&& self.spec_clients().len() == 0
        &&& self.spec_client_ids().len() == 0
        &&& self.spec_next_client_id() == 0
    }

    /// `after` holds the same registry and counter as `self`.
    pub open spec fn unchanged(&self, after: &Self) -> bool {
        &&& after.spec_clients() == self.spec_clients()
        &&& after.spec_client_ids() == self.spec_client_ids()
        &&& after.spec_next_client_id() == self.spec_next_client_id()
    }

    /// `after` is `self` once an accepted connection got the next id and its
    /// session `c` was registered under it.
    pub open spec fn registered(&self, after: &Self, c: C) -> bool {
        &&& after.spec_clients() == self.spec_clients().push(c)
        &&& after.spec_client_ids() == self.spec_client_ids().push(
            self.spec_next_client_id() as u32,
        )
        &&& after.spec_next_client_id() == self.spec_next_client_id() + 1
    }

    /// `after` is `self` once an accepted connection used up the next id but
    /// no session could be built on it.
    pub open spec fn skipped(&self, after: &Self) -> bool {
        &&& after.spec_clients() == self.spec_clients()
        &&& after.spec_client_ids() == self.spec_client_ids()
        &&& after.spec_next_client_id() == self.spec_next_client_id() + 1
    }

    /// Builds the acceptor from the outcome of binding its listening socket.
    /// A bind failure is handed back unchanged and no acceptor exists to be
    /// registered with the reactor.
    pub fn new<E>(bound: Result<L, E>) -> (r: Result<Self, E>)
        ensures
            match bound {
                Ok(l) => r is Ok && r->Ok_0.is_fresh() && r->Ok_0.spec_listener() == l,
                Err(e) => r == Err::<Self, E>(e),
            },
    {
        match bound {
            Ok(tcp_listener) => Ok(
                TunnelServer { clients: Vec::new(), client_ids: Vec::new(), tcp_listener, next_client_id: 0 },
            ),
            Err(e) => Err(e),
        }
    }

    /// The listening socket.
    pub fn listener(&self) -> (r: &L)
        ensures
            *r == self.spec_listener(),
    {
        &self.tcp_listener
    }

    /// The registered sessions, in acceptance order.
    pub fn clients(&self) -> (r: &Vec<C>)
        ensures
            r@ == self.spec_clients(),
    {
        &self.clients
    }

    /// The id of each registered session, position for position.
    pub fn client_ids(&self) -> (r: &Vec<u32>)
        ensures
            r@ == self.spec_client_ids(),
    {
        &self.client_ids
    }

    /// The id that the next successful accept is given.
    pub fn next_client_id(&self) -> (r: u32)
        ensures
            r as nat == self.spec_next_client_id(),
    {
        self.next_client_id
    }

    /// Handles one readiness event of the listening socket, given the outcome
    /// of the single accept attempt made for it (the accepted connection, or
    /// the error's message).
    ///
    /// On success the connection gets the next id and `open_session` builds
    /// its session from the id and the connection; the session is registered
    /// and an informational line names the client. A failed accept, an
    /// exhausted id counter or a failed session construction yields one error
    /// line and leaves the registry as it was; the listener stays in place
    /// either way.
    pub fn on_ready<S, F>(&mut self, accepted: Result<S, String>, open_session: F) -> (line: LogLine)
        where
            F: FnOnce(u32, S) -> Result<C, String>,
        requires
            old(self).wf(),
            forall|id: u32, s: S| #[trigger] open_session.requires((id, s)),
        ensures
            final(self).wf(),
            final(self).spec_listener() == old(self).spec_listener(),
            match accepted {
                Err(msg) => {
                    &&& old(self).unchanged(&*final(self))
                    &&& line.level == Level::Error
                    &&& line.text@ == accept_failed_text(msg@)
                },
                Ok(stream) => if old(self).spec_next_client_id() == u32::MAX {
                    &&& old(self).unchanged(&*final(self))
                    &&& line.level == Level::Error
                    &&& line.text@ == accept_failed_text(IDS_EXHAUSTED@)
                } else {
                    exists|session: Result<C, String>|
                        #[trigger] open_session.ensures(
                            (old(self).spec_next_client_id() as u32, stream),
                            session,
                        ) && match session {
                            Ok(c) => {
                                &&& old(self).registered(&*final(self), c)
                                &&& line.level == Level::Info
                                &&& line.text@ == connected_text(old(self).spec_next_client_id())
                            },
                            Err(msg) => {
                                &&& old(self).skipped(&*final(self))
                                &&& line.level == Level::Error
                                &&& line.text@ == accept_failed_text(msg@)
                            },
                        }
                },
            },
    {
        match accepted {
            Err(msg) => accept_failed_line(msg.as_str()),
            Ok(stream) => {
                if self.next_client_id == u32::MAX {
                    accept_failed_line(IDS_EXHAUSTED)
                } else {
                    let client_id = self.next_client_id;
                    self.next_client_id = self.next_client_id + 1;
                    let session = open_session(client_id, stream);
                    match session {
                        Ok(client) => {
                            self.clients.push(client);
                            self.client_ids.push(client_id);
                            connected_line(client_id)
                        },
                        Err(msg) => accept_failed_line(msg.as_str()),
                    }
                }
            },
        }
    }
}

/// One readiness event whose accept succeeded: `Some(c)` when session `c` was
/// built on the connection and registered, `None` when building it failed.
pub open spec fn accept_step<L, C>(
    before: TunnelServer<L, C>,
    after: TunnelServer<L, C>,
    session: Option<C>,
) -> bool {
    match session {
        Some(c) => before.registered(&after, c),
        None => before.skipped(&after),
    }
}

proof fn lemma_accept_step_keeps_wf<L, C>(
    before: TunnelServer<L, C>,
    after: TunnelServer<L, C>,
    session: Option<C>,
)
    requires
        before.wf(),
        accept_step(before, after, session),
    ensures
        after.wf(),
{
    let ids = after.spec_client_ids();
    if let Some(c) = session {
        assert forall|i: int, j: int| 0 <= i < j < ids.len() implies #[trigger] ids[i] < #[trigger] ids[j] by {
            if j == ids.len() - 1 {
                assert(ids[j] as nat == before.spec_next_client_id());
                assert((before.spec_client_ids()[i] as nat) < before.spec_next_client_id());
            } else {
                assert(before.spec_client_ids()[i] < before.spec_client_ids()[j]);
            }
        }
        assert forall|i: int| 0 <= i < ids.len() implies (#[trigger] ids[i] as nat)
            < after.spec_next_client_id() by {
            if i < ids.len() - 1 {
                assert((before.spec_client_ids()[i] as nat) < before.spec_next_client_id());
            }
        }
    }
}

/// Along any run of successful accepts from a fresh acceptor, the k-th
/// accept (counting from zero) is given id k, whether or not its session
/// could be built, and the registry stays well formed: no id is given twice.
pub proof fn lemma_ids_in_acceptance_order<L, C>(
    states: Seq<TunnelServer<L, C>>,
    sessions: Seq<Option<C>>,
)
    requires
        states.len() == sessions.len() + 1,
        states[0].is_fresh(),
        forall|k: int|
            0 <= k < sessions.len() ==> #[trigger] accept_step(states[k], states[k + 1], sessions[k]),
    ensures
        forall|k: int| 0 <= k < states.len() ==> #[trigger] states[k].spec_next_client_id() == k,
        forall|k: int| 0 <= k < states.len() ==> #[trigger] states[k].wf(),
    decreases sessions.len(),
{
    assert(states[0].wf());
    if sessions.len() > 0 {
        let n = sessions.len() - 1;
        let prefix = states.drop_last();
        assert forall|k: int| 0 <= k < n implies #[trigger] accept_step(
            prefix[k],
            prefix[k + 1],
            sessions.drop_last()[k],
        ) by {
            assert(accept_step(states[k], states[k + 1], sessions[k]));
        }
        lemma_ids_in_acceptance_order(prefix, sessions.drop_last());
        assert(prefix[n] == states[n]);
        assert(accept_step(states[n], states[n + 1], sessions[n]));
        lemma_accept_step_keeps_wf(states[n], states[n + 1], sessions[n]);
        assert forall|k: int| 0 <= k < states.len() implies #[trigger] states[k].wf() by {
            if k <= n {
                assert(prefix[k] == states[k]);
                assert(prefix[k].wf());
            }
        }
        assert forall|k: int| 0 <= k < states.len() implies #[trigger] states[k].spec_next_client_id()
            == k by {
            if k <= n {
                assert(prefix[k] == states[k]);
                assert(prefix[k].spec_next_client_id() == k);
            }
        }
    }
}

/// After K consecutive accepts from a fresh acceptor whose sessions were all
/// built, the registry holds exactly those K sessions in acceptance order,
/// under the ids 0, 1, ..., K-1, and id K is next.
pub proof fn lemma_consecutive_accepts<L, C>(states: Seq<TunnelServer<L, C>>, sessions: Seq<C>)
    requires
        states.len() == sessions.len() + 1,
        states[0].is_fresh(),
        forall|k: int|
            0 <= k < sessions.len() ==> #[trigger] states[k].registered(&states[k + 1], sessions[k]),
    ensures
        states.last().spec_clients() == sessions,
        states.last().spec_client_ids() == Seq::new(sessions.len(), |i: int| i as u32),
        states.last().spec_next_client_id() == sessions.len(),
    decreases sessions.len(),
{
    if sessions.len() > 0 {
        let n = sessions.len() - 1;
        let prefix = states.drop_last();
        assert forall|k: int| 0 <= k < n implies #[trigger] prefix[k].registered(
            &prefix[k + 1],
            sessions.drop_last()[k],
        ) by {
            assert(states[k].registered(&states[k + 1], sessions[k]));
        }
        lemma_consecutive_accepts(prefix, sessions.drop_last());
        assert(prefix.last() == states[n]);
        assert(states[n].registered(&states[n + 1], sessions[n]));
        assert(states.last().spec_clients() =~= sessions);
        assert(states.last().spec_client_ids() =~= Seq::new(sessions.len(), |i: int| i as u32));
    }
}

} // verus!
