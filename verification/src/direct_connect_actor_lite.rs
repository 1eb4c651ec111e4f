//! Peers with one connection to write to: messages wait until there is one.
use vstd::prelude::*;
use crate::direct_message::DirectMessage;
use crate::id::EndpointId;
use crate::id_map::IdMap;

verus! {

/// The name of the protocol.
pub const ALPN: &'static str = "/iroh/lan-direct/1";

/// The number of a connection.
pub type ConnId = usize;

/// What is known of a peer.
#[derive(Debug)]
pub enum PeerState {
    /// There is no connection yet; these messages wait.
    Pending { queue: Vec<DirectMessage> },
    /// Messages go to the active connection; the others are only read.
    Active { active_conn_id: ConnId, other_conns: Vec<ConnId> },
}

/// The mathematical value of [`PeerState`].
#[verifier::ext_equal]
pub enum PeerView {
    Pending { queue: Seq<Result<Seq<u8>, Seq<u8>>> },
    Active { active: ConnId, others: Seq<ConnId> },
}

impl View for PeerState {
    type V = PeerView;

    open spec fn view(&self) -> PeerView {
        match self {
            PeerState::Pending { queue } => PeerView::Pending {
                queue: queue@.map_values(|m: DirectMessage| m@),
            },
            PeerState::Active { active_conn_id, other_conns } => PeerView::Active {
                active: *active_conn_id,
                others: other_conns@,
            },
        }
    }
}

impl PeerView {
    /// The peer has a new connection: messages go there from now on, and the old
    /// connection stays.
    pub open spec fn connected(self, conn: ConnId) -> Self {
        match self {
            PeerView::Pending { queue } => PeerView::Active { active: conn, others: Seq::empty() },
            PeerView::Active { active, others } => PeerView::Active { active: conn, others: others.push(active) },
        }
    }

    /// The messages that waited for a connection.
    pub open spec fn waiting(self) -> Seq<Result<Seq<u8>, Seq<u8>>> {
        match self {
            PeerView::Pending { queue } => queue,
            PeerView::Active { active, others } => Seq::empty(),
        }
    }
}

impl PeerState {
    /// Takes a new connection for writing. Returns the messages that waited for one.
    pub fn accept_conn(&mut self, conn_id: ConnId) -> (r: Vec<DirectMessage>)
        ensures
            final(self)@ == old(self)@.connected(conn_id),
            r@.map_values(|m: DirectMessage| m@) == old(self)@.waiting(),
    {
        let mut before = PeerState::Pending { queue: Vec::new() };
        std::mem::swap(self, &mut before);
        match before {
            PeerState::Pending { queue } => {
                *self = PeerState::Active { active_conn_id: conn_id, other_conns: Vec::new() };
                assert(self@ =~= old(self)@.connected(conn_id));
                queue
            },
            PeerState::Active { active_conn_id, mut other_conns } => {
                // We already have an active connection. We keep the old connection intact,
                // but only use the new connection for sending from now on.
                other_conns.push(active_conn_id);
                *self = PeerState::Active { active_conn_id: conn_id, other_conns };
                let none: Vec<DirectMessage> = Vec::new();
                assert(none@.map_values(|m: DirectMessage| m@) =~= Seq::empty());
                assert(self@ =~= old(self)@.connected(conn_id));
                none
            },
        }
    }
}

/// What is done with a message.
#[derive(Debug)]
pub enum Route {
    /// It is written to this connection.
    Send(ConnId, DirectMessage),
    /// A connection has to be opened; what waits is sent afterwards.
    Connect,
}

/// The peers.
#[derive(Debug)]
pub struct Actor {
    peers: IdMap<PeerState>,
}

impl View for Actor {
    type V = Map<EndpointId, PeerView>;

    closed spec fn view(&self) -> Map<EndpointId, PeerView> {
        self.peers@.map_values(|p: PeerState| p@)
    }
}

impl Actor {
    /// The container is in order.
    pub closed spec fn wf(&self) -> bool {
        self.peers.wf()
    }

    /// No peer.
    pub fn new() -> (r: Self)
        ensures
            r.wf(),
            r@ == Map::<EndpointId, PeerView>::empty(),
    {
        let r = Actor { peers: IdMap::new() };
        assert(r@ =~= Map::<EndpointId, PeerView>::empty());
        r
    }

    fn take(&mut self, id: &EndpointId) -> (r: Option<PeerState>)
        requires
            old(self).wf(),
        ensures
            final(self).wf(),
            r is Some <==> old(self)@.contains_key(*id),
            r matches Some(p) ==> p@ == old(self)@[*id],
            r matches Some(PeerState::Pending { queue }) ==> final(self)@ == old(self)@.insert(
                *id,
                PeerView::Pending { queue: Seq::empty() },
            ),
            r is None || r->Some_0 is Active ==> final(self)@ == old(self)@,
    {
        let found: Option<(ConnId, Vec<ConnId>)> = match self.peers.get(id) {
            None => {
                return None;
            },
            Some(PeerState::Active { active_conn_id, other_conns }) => Some(
                (*active_conn_id, copy_ids(other_conns)),
            ),
            Some(PeerState::Pending { queue }) => None,
        };
        match found {
            Some((active_conn_id, other_conns)) => Some(PeerState::Active { active_conn_id, other_conns }),
            None => {
                let mut queue: Vec<DirectMessage> = Vec::new();
                if let Some(PeerState::Pending { queue: waiting }) = self.peers.get(id) {
                    queue = copy_messages(waiting);
                }
                let empty: Vec<DirectMessage> = Vec::new();
                assert(empty@.map_values(|m: DirectMessage| m@) =~= Seq::empty());
                self.peers.insert(*id, PeerState::Pending { queue: empty });
                assert(self@ =~= old(self)@.insert(*id, PeerView::Pending { queue: Seq::empty() }));
                Some(PeerState::Pending { queue })
            },
        }
    }

    /// A connection to a peer is there. What waited for it is returned.
    pub fn handle_connection(&mut self, from: EndpointId, conn_id: ConnId) -> (r: Vec<DirectMessage>)
        requires
            old(self).wf(),
        ensures
            final(self).wf(),
            final(self)@ == old(self)@.insert(
                from,
                if old(self)@.contains_key(from) {
                    old(self)@[from].connected(conn_id)
                } else {
                    PeerView::Active { active: conn_id, others: Seq::empty() }
                },
            ),
            r@.map_values(|m: DirectMessage| m@) == (if old(self)@.contains_key(from) {
                old(self)@[from].waiting()
            } else {
                Seq::empty()
            }),
    {
        let mut state = match self.take(&from) {
            Some(state) => state,
            None => {
                let none: Vec<DirectMessage> = Vec::new();
                assert(none@.map_values(|m: DirectMessage| m@) =~= Seq::empty());
                PeerState::Pending { queue: none }
            },
        };
        let ghost between = self@;
        let ghost before = state@;
        let waiting = state.accept_conn(conn_id);
        let ghost after = state@;
        self.peers.insert(from, state);
        assert(self@ =~= between.insert(from, after));
        assert(self@ =~= old(self)@.insert(from, before.connected(conn_id)));
        waiting
    }

    /// Routes a message: to the active connection, or by way of a new one. Until there is
    /// one the message waits behind those that came before it.
    pub fn route_packet(&mut self, to: EndpointId, pkg: DirectMessage) -> (r: Route)
        requires
            old(self).wf(),
        ensures
            final(self).wf(),
            match r {
                Route::Send(conn, m) => {
                    &&& old(self)@.contains_key(to)
                    &&& old(self)@[to] matches PeerView::Active { active, others } && active == conn
                    &&& m@ == pkg@
                    &&& final(self)@ == old(self)@
                },
                Route::Connect => {
                    &&& !(old(self)@.contains_key(to) && old(self)@[to] is Active)
                    &&& final(self)@ == old(self)@.insert(
                        to,
                        PeerView::Pending {
                            queue: (if old(self)@.contains_key(to) {
                                old(self)@[to].waiting()
                            } else {
                                Seq::empty()
                            }).push(pkg@),
                        },
                    )
                },
            },
    {
        if let Some(PeerState::Active { active_conn_id, other_conns }) = self.peers.get(&to) {
            return Route::Send(*active_conn_id, pkg);
        }
        let mut queue: Vec<DirectMessage> = match self.take(&to) {
            Some(PeerState::Pending { queue }) => queue,
            _ => Vec::new(),
        };
        let ghost between = self@;
        let ghost waiting = queue@.map_values(|m: DirectMessage| m@);
        assert(waiting =~= (if old(self)@.contains_key(to) {
            old(self)@[to].waiting()
        } else {
            Seq::empty()
        }));
        queue.push(pkg);
        assert(queue@.map_values(|m: DirectMessage| m@) =~= waiting.push(pkg@));
        self.peers.insert(to, PeerState::Pending { queue });
        assert(self@ =~= between.insert(to, PeerView::Pending { queue: waiting.push(pkg@) }));
        assert(self@ =~= old(self)@.insert(to, PeerView::Pending { queue: waiting.push(pkg@) }));
        Route::Connect
    }

    /// A peer could be reached: what waits for it is returned, to be routed again.
    pub fn reconnected(&mut self, to: EndpointId) -> (r: Vec<DirectMessage>)
        requires
            old(self).wf(),
        ensures
            final(self).wf(),
            r@.map_values(|m: DirectMessage| m@) == (if old(self)@.contains_key(to) {
                old(self)@[to].waiting()
            } else {
                Seq::empty()
            }),
            final(self)@ == (if old(self)@.contains_key(to) && old(self)@[to] is Pending {
                old(self)@.insert(to, PeerView::Pending { queue: Seq::empty() })
            } else {
                old(self)@
            }),
    {
        match self.take(&to) {
            Some(PeerState::Pending { queue }) => queue,
            _ => {
                let none: Vec<DirectMessage> = Vec::new();
                assert(none@.map_values(|m: DirectMessage| m@) =~= Seq::empty());
                none
            },
        }
    }
}

fn copy_ids(list: &Vec<ConnId>) -> (r: Vec<ConnId>)
    ensures
        r@ == list@,
{
    let mut r: Vec<ConnId> = Vec::new();
    let mut i: usize = 0;
    while i < list.len()
        invariant
            i <= list@.len(),
            r@ == list@.take(i as int),
        decreases list@.len() - i,
    {
        r.push(list[i]);
        i = i + 1;
        assert(r@ =~= list@.take(i as int));
    }
    assert(r@ =~= list@);
    r
}

fn copy_messages(list: &Vec<DirectMessage>) -> (r: Vec<DirectMessage>)
    ensures
        r@.map_values(|m: DirectMessage| m@) == list@.map_values(|m: DirectMessage| m@),
{
    let mut r: Vec<DirectMessage> = Vec::new();
    let mut i: usize = 0;
    while i < list.len()
        invariant
            i <= list@.len(),
            r@.len() == i,
            forall|j: int| 0 <= j < i ==> (#[trigger] r@[j])@ == list@[j]@,
        decreases list@.len() - i,
    {
        r.push(list[i].clone());
        i = i + 1;
    }
    assert(r@.map_values(|m: DirectMessage| m@) =~= list@.map_values(|m: DirectMessage| m@));
    r
}

/// The length that the four bytes before a frame state.
pub fn frame_len(header: &[u8; 4]) -> (r: u32)
    ensures
        r == header@[0] * 16_777_216 + header@[1] * 65_536 + header@[2] * 256 + header@[3],
{
    (header[0] as u32) * 16_777_216 + (header[1] as u32) * 65_536 + (header[2] as u32) * 256 + (header[3] as u32)
}

/// A message that waits for a connection is handed out when there is one, and the
/// peer's messages go to the newest connection from then on.
pub proof fn newest_connection_is_used(p: PeerView, conn: ConnId)
    ensures
        p.connected(conn) matches PeerView::Active { active, others } && active == conn,
        p.connected(conn).waiting() == Seq::<Result<Seq<u8>, Seq<u8>>>::empty(),
        p matches PeerView::Active { active, others } ==> p.connected(conn)->others == others.push(active),
{
}

/// What waited for a first connection is handed out whole, in its order; where there was a
/// connection, nothing waited. The first connection has no other beside it.
pub proof fn what_waited_is_handed_out(queue: Seq<Result<Seq<u8>, Seq<u8>>>, active: ConnId, others: Seq<ConnId>, conn: ConnId)
    ensures
        (PeerView::Pending { queue }).waiting() == queue,
        (PeerView::Active { active, others }).waiting().len() == 0,
        (PeerView::Pending { queue }).connected(conn) == (PeerView::Active { active: conn, others: Seq::empty() }),
        (PeerView::Active { active, others }).connected(conn) == (PeerView::Active {
            active: conn,
            others: others.push(active),
        }),
{
}

} // verus!
