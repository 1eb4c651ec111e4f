//! The connections to all peers: which are kept, which are opened, and which one a
//! packet takes.
use vstd::prelude::*;
use crate::connection::{ConnLiveness, InnerConnState};
use crate::id::EndpointId;
use crate::id_map::IdMap;
use crate::tun::copy_bytes;

verus! {

/// After so many attempts in a row a peer is given up.
pub const MAX_RECONNECT_ATTEMPTS: usize = 100;

/// So many connections are kept to each peer.
pub const CONN_COUNT_TARGET: usize = 2;

/// The name of the protocol.
pub const ALPN: &'static str = "/iroh/lan-direct/2";

/// Why a peer could not be reached or its connection not be used.
#[derive(Clone, Copy, Debug, PartialEq, Eq, Structural)]
pub enum DirectError {
    /// The peer was unknown; a connection will be opened.
    NoActiveConnection,
    /// No connection to the peer took the packet.
    NoOpenConnections,
    /// The peer is unknown.
    UnknownPeer,
    /// The connection that was accepted is not alive.
    NotAlive,
    /// The connection could not be accepted.
    AcceptFailed,
}

/// The connections to one peer.
#[derive(Debug)]
pub struct ConnGen {
    conn_pool: Vec<u64>,
    conn_counter: usize,
    attempts: usize,
}

/// The mathematical value of [`ConnGen`].
#[verifier::ext_equal]
pub struct ConnGenView {
    /// The numbers of the connections.
    pub pool: Seq<u64>,
    /// How many connections there are or are being opened.
    pub counter: usize,
    /// How often opening one has been tried since the last success.
    pub attempts: usize,
}

impl View for ConnGen {
    type V = ConnGenView;

    closed spec fn view(&self) -> ConnGenView {
        ConnGenView { pool: self.conn_pool@, counter: self.conn_counter, attempts: self.attempts }
    }
}

/// A count that goes on at the highest number when it falls below zero.
pub open spec fn uncounted(n: usize) -> usize {
    if n > 0 {
        (n - 1) as usize
    } else {
        usize::MAX
    }
}

/// The numbers of the connections that are not alive.
pub open spec fn dead_of(pool: Seq<u64>, alive: Seq<bool>) -> Seq<u64>
    decreases pool.len(),
{
    if pool.len() == 0 {
        Seq::empty()
    } else if alive[pool.len() - 1] {
        dead_of(pool.drop_last(), alive)
    } else {
        dead_of(pool.drop_last(), alive).push(pool.last())
    }
}

/// A count without `n`.
pub open spec fn uncounted_by(count: usize, n: nat) -> usize
    decreases n,
{
    if n == 0 {
        count
    } else {
        uncounted(uncounted_by(count, (n - 1) as nat))
    }
}

impl ConnGenView {
    /// No connection yet.
    pub open spec fn fresh() -> Self {
        ConnGenView { pool: Seq::empty(), counter: 0, attempts: 0 }
    }

    /// The dead connections are gone.
    pub open spec fn pruned(self, alive: Seq<bool>) -> Self {
        let dead = dead_of(self.pool, alive);
        ConnGenView {
            pool: self.pool.filter(|id: u64| !dead.contains(id)),
            counter: uncounted_by(self.counter, dead.len()),
            ..self
        }
    }

    /// Another connection should be opened: there are too few, it has not been tried too
    /// often, and the last attempt is long enough ago.
    pub open spec fn wants_connection(self, waited: bool) -> bool {
        self.counter < CONN_COUNT_TARGET && self.attempts <= MAX_RECONNECT_ATTEMPTS && waited
    }

    /// A connection is being opened.
    pub open spec fn opening(self) -> Self {
        ConnGenView {
            counter: crate::connection::counted(self.counter),
            attempts: crate::connection::capped(self.attempts),
            ..self
        }
    }

    /// A connection is being accepted.
    pub open spec fn accepting(self) -> Self {
        ConnGenView { counter: crate::connection::counted(self.counter), ..self }
    }

    /// A connection is there.
    pub open spec fn added(self, id: u64) -> Self {
        ConnGenView { pool: self.pool.push(id), attempts: 0, ..self }
    }

    /// A connection did not come about.
    pub open spec fn missed(self) -> Self {
        ConnGenView { counter: uncounted(self.counter), ..self }
    }
}

impl Default for ConnGen {
    fn default() -> (r: Self)
        ensures
            r@ == ConnGenView::fresh(),
    {
        let r = ConnGen { conn_pool: Vec::new(), conn_counter: 0, attempts: 0 };
        assert(r@.pool =~= Seq::empty());
        r
    }
}

fn has_id(list: &Vec<u64>, id: u64) -> (r: bool)
    ensures
        r == list@.contains(id),
{
    let mut i: usize = 0;
    while i < list.len()
        invariant
            i <= list@.len(),
            forall|j: int| 0 <= j < i ==> list@[j] != id,
        decreases list@.len() - i,
    {
        if list[i] == id {
            assert(list@[i as int] == id);
            return true;
        }
        i = i + 1;
    }
    false
}

impl ConnGen {
    /// Drops the connections that are not alive, and returns their numbers.
    fn prune(&mut self, alive: &Vec<bool>) -> (r: Vec<u64>)
        requires
            alive@.len() == old(self)@.pool.len(),
        ensures
            r@ == dead_of(old(self)@.pool, alive@),
            final(self)@ == old(self)@.pruned(alive@),
    {
        let ghost pool = self@.pool;
        let ghost count = self@.counter;
        let mut dead: Vec<u64> = Vec::new();
        let mut i: usize = 0;
        assert(pool.take(0) =~= Seq::empty());
        while i < self.conn_pool.len()
            invariant
                i <= pool.len(),
                pool == self.conn_pool@,
                alive@.len() == pool.len(),
                dead@ == dead_of(pool.take(i as int), alive@),
                self@ == (ConnGenView { counter: uncounted_by(count, dead@.len()), ..old(self)@ }),
                pool == old(self)@.pool,
            decreases pool.len() - i,
        {
            assert(pool.take(i + 1).drop_last() =~= pool.take(i as int));
            if !alive[i] {
                dead.push(self.conn_pool[i]);
                self.conn_counter = self.conn_counter.wrapping_sub(1);
            }
            i = i + 1;
        }
        assert(pool.take(i as int) =~= pool);
        let ghost keep = |id: u64| !dead@.contains(id);
        let mut kept: Vec<u64> = Vec::new();
        let mut j: usize = 0;
        assert(pool.take(0).filter(keep) =~= Seq::empty()) by {
            reveal(Seq::filter);
        }
        while j < self.conn_pool.len()
            invariant
                j <= pool.len(),
                pool == self.conn_pool@,
                keep == (|id: u64| !dead@.contains(id)),
                kept@ == pool.take(j as int).filter(keep),
            decreases pool.len() - j,
        {
            proof {
                assert(pool.take(j + 1).drop_last() =~= pool.take(j as int));
                reveal(Seq::filter);
            }
            if !has_id(&dead, self.conn_pool[j]) {
                kept.push(self.conn_pool[j]);
            }
            j = j + 1;
        }
        assert(pool.take(j as int) =~= pool);
        self.conn_pool = kept;
        dead
    }

    fn wants_connection(&self, waited: bool) -> (r: bool)
        ensures
            r == self@.wants_connection(waited),
    {
        self.conn_counter < CONN_COUNT_TARGET && self.attempts <= MAX_RECONNECT_ATTEMPTS && waited
    }

    fn copy(&self) -> (r: Self)
        ensures
            r@ == self@,
    {
        let mut pool: Vec<u64> = Vec::new();
        let mut i: usize = 0;
        while i < self.conn_pool.len()
            invariant
                i <= self.conn_pool@.len(),
                pool@ == self.conn_pool@.take(i as int),
            decreases self.conn_pool@.len() - i,
        {
            pool.push(self.conn_pool[i]);
            i = i + 1;
            assert(pool@ =~= self.conn_pool@.take(i as int));
        }
        assert(pool@ =~= self.conn_pool@);
        ConnGen { conn_pool: pool, conn_counter: self.conn_counter, attempts: self.attempts }
    }
}

/// A connection that could take a packet: its rank, how long it has been idle, and its
/// number.
pub type Candidate = (u8, u128, u64);

/// The rank of a connection: usable ones come first.
pub open spec fn rank_of(liveness: ConnLiveness) -> u8 {
    match liveness {
        ConnLiveness::Usable => 0,
        ConnLiveness::Suspect => 1,
        ConnLiveness::Dead => 2,
    }
}

/// `a` is tried before `b`.
pub open spec fn before(a: Candidate, b: Candidate) -> bool {
    a.0 < b.0 || a.0 == b.0 && a.1 < b.1
}

/// `x` in its place: behind all that it is not tried before, counted from the right.
pub open spec fn put(sorted: Seq<Candidate>, x: Candidate) -> Seq<Candidate>
    decreases sorted.len(),
{
    if sorted.len() == 0 || !before(x, sorted.last()) {
        sorted.push(x)
    } else {
        put(sorted.drop_last(), x).push(sorted.last())
    }
}

/// The connections in the order in which they are tried. Those that are dead, or that
/// could not be looked at, are left out.
pub open spec fn attempts_of(pool: Seq<(u64, Option<(ConnLiveness, u128)>)>) -> Seq<Candidate>
    decreases pool.len(),
{
    if pool.len() == 0 {
        Seq::empty()
    } else {
        let rest = attempts_of(pool.drop_last());
        match pool.last().1 {
            Some((liveness, idle)) => if liveness != ConnLiveness::Dead {
                put(rest, (rank_of(liveness), idle, pool.last().0))
            } else {
                rest
            },
            None => rest,
        }
    }
}

fn put_in(list: &mut Vec<Candidate>, x: Candidate)
    ensures
        final(list)@ == put(old(list)@, x),
    decreases old(list)@.len(),
{
    let n: usize = list.len();
    if n == 0 || !(x.0 < list[n - 1].0 || (x.0 == list[n - 1].0 && x.1 < list[n - 1].1)) {
        list.push(x);
    } else {
        let last = list[n - 1];
        let popped = list.pop();
        assert(list@ =~= old(list)@.drop_last());
        put_in(list, x);
        list.push(last);
    }
}

/// The connections of a peer in the order in which a packet tries them.
pub fn attempt_order(pool: &[(u64, Option<(ConnLiveness, u128)>)]) -> (r: Vec<Candidate>)
    ensures
        r@ == attempts_of(pool@),
{
    let mut list: Vec<Candidate> = Vec::new();
    let mut i: usize = 0;
    assert(pool@.take(0) =~= Seq::empty());
    while i < pool.len()
        invariant
            i <= pool@.len(),
            list@ == attempts_of(pool@.take(i as int)),
        decreases pool@.len() - i,
    {
        assert(pool@.take(i + 1).drop_last() =~= pool@.take(i as int));
        let (id, seen) = pool[i];
        if let Some((liveness, idle)) = seen {
            match liveness {
                ConnLiveness::Usable => {
                    put_in(&mut list, (0, idle, id));
                },
                ConnLiveness::Suspect => {
                    put_in(&mut list, (1, idle, id));
                },
                ConnLiveness::Dead => {},
            }
        }
        i = i + 1;
    }
    assert(pool@.take(i as int) =~= pool@);
    list
}

/// No candidate is tried before one that stands left of it.
pub open spec fn in_order(list: Seq<Candidate>) -> bool {
    forall|i: int, j: int| 0 <= i < j < list.len() ==> !before(#[trigger] list[j], #[trigger] list[i])
}

proof fn lemma_put(sorted: Seq<Candidate>, x: Candidate)
    requires
        in_order(sorted),
    ensures
        in_order(put(sorted, x)),
        put(sorted, x).len() == sorted.len() + 1,
        put(sorted, x).to_multiset() == sorted.to_multiset().insert(x),
        forall|i: int|
            0 <= i < put(sorted, x).len() ==> #[trigger] put(sorted, x)[i] == x || sorted.contains(put(sorted, x)[i]),
    decreases sorted.len(),
{
    broadcast use vstd::seq_lib::group_to_multiset_ensures;

    let t = put(sorted, x);
    if sorted.len() == 0 || !before(x, sorted.last()) {
        assert forall|i: int| 0 <= i < t.len() implies #[trigger] t[i] == x || sorted.contains(t[i]) by {
            if i < sorted.len() {
                assert(sorted[i] == t[i]);
            }
        }
        assert forall|i: int, j: int| 0 <= i < j < t.len() implies !before(#[trigger] t[j], #[trigger] t[i]) by {
            if j == sorted.len() {
                if i < sorted.len() - 1 {
                    assert(!before(sorted[sorted.len() - 1], sorted[i]));
                }
            } else {
                assert(!before(sorted[j], sorted[i]));
            }
        }
    } else {
        let rest = sorted.drop_last();
        let l = sorted.last();
        lemma_put(rest, x);
        let r = put(rest, x);
        assert(sorted =~= rest.push(l));
        assert(sorted.to_multiset().insert(x) =~= rest.to_multiset().insert(x).insert(l));
        assert forall|i: int| 0 <= i < t.len() implies #[trigger] t[i] == x || sorted.contains(t[i]) by {
            if i < r.len() {
                assert(t[i] == r[i]);
                if r[i] != x {
                    let k = choose|k: int| 0 <= k < rest.len() && rest[k] == r[i];
                    assert(sorted[k] == t[i]);
                }
            } else {
                assert(sorted[sorted.len() - 1] == t[i]);
            }
        }
        assert forall|i: int, j: int| 0 <= i < j < t.len() implies !before(#[trigger] t[j], #[trigger] t[i]) by {
            if j == r.len() {
                assert(t[j] == l);
                assert(t[i] == r[i]);
                if r[i] != x {
                    let k = choose|k: int| 0 <= k < rest.len() && rest[k] == r[i];
                    assert(!before(sorted[sorted.len() - 1], sorted[k]));
                }
            } else {
                assert(!before(r[j], r[i]));
            }
        }
    }
}

/// The connections are tried in order: usable ones before suspect ones, and of those
/// the ones that were heard of last come first.
pub proof fn attempts_are_in_order(pool: Seq<(u64, Option<(ConnLiveness, u128)>)>)
    ensures
        in_order(attempts_of(pool)),
    decreases pool.len(),
{
    if pool.len() > 0 {
        attempts_are_in_order(pool.drop_last());
        if pool.last().1 is Some && pool.last().1.unwrap().0 != ConnLiveness::Dead {
            let seen = pool.last().1.unwrap();
            lemma_put(attempts_of(pool.drop_last()), (rank_of(seen.0), seen.1, pool.last().0));
        }
    }
}

/// A packet is never tried on a connection that is dead or could not be looked at.
pub proof fn dead_connections_are_not_tried(pool: Seq<(u64, Option<(ConnLiveness, u128)>)>, i: int)
    requires
        0 <= i < attempts_of(pool).len(),
    ensures
        exists|j: int|
            0 <= j < pool.len() && (#[trigger] pool[j]).0 == attempts_of(pool)[i].2 && pool[j].1 is Some
                && pool[j].1.unwrap().0 != ConnLiveness::Dead && rank_of(pool[j].1.unwrap().0) == attempts_of(
                pool,
            )[i].0 && pool[j].1.unwrap().1 == attempts_of(pool)[i].1,
    decreases pool.len(),
{
    let rest = pool.drop_last();
    attempts_are_in_order(rest);
    let l = pool.last();
    if l.1 is Some && l.1.unwrap().0 != ConnLiveness::Dead {
        let x = (rank_of(l.1.unwrap().0), l.1.unwrap().1, l.0);
        lemma_put(attempts_of(rest), x);
        if attempts_of(pool)[i] == x {
            assert(pool[pool.len() - 1] == l);
        } else {
            let k = choose|k: int| 0 <= k < attempts_of(rest).len() && attempts_of(rest)[k] == attempts_of(pool)[i];
            dead_connections_are_not_tried(rest, k);
            let j = choose|j: int|
                0 <= j < rest.len() && (#[trigger] rest[j]).0 == attempts_of(rest)[k].2 && rest[j].1 is Some
                    && rest[j].1.unwrap().0 != ConnLiveness::Dead && rank_of(rest[j].1.unwrap().0) == attempts_of(
                    rest,
                )[k].0 && rest[j].1.unwrap().1 == attempts_of(rest)[k].1;
            assert(pool[j] == rest[j]);
        }
    } else {
        dead_connections_are_not_tried(rest, i);
        let j = choose|j: int|
            0 <= j < rest.len() && (#[trigger] rest[j]).0 == attempts_of(rest)[i].2 && rest[j].1 is Some
                && rest[j].1.unwrap().0 != ConnLiveness::Dead && rank_of(rest[j].1.unwrap().0) == attempts_of(
                rest,
            )[i].0 && rest[j].1.unwrap().1 == attempts_of(rest)[i].1;
        assert(pool[j] == rest[j]);
    }
}

/// Every connection that is alive is tried.
pub proof fn live_connections_are_tried(pool: Seq<(u64, Option<(ConnLiveness, u128)>)>, j: int)
    requires
        0 <= j < pool.len(),
        pool[j].1 is Some,
        pool[j].1.unwrap().0 != ConnLiveness::Dead,
    ensures
        attempts_of(pool).contains((rank_of(pool[j].1.unwrap().0), pool[j].1.unwrap().1, pool[j].0)),
    decreases pool.len(),
{
    broadcast use vstd::seq_lib::group_to_multiset_ensures;

    let rest = pool.drop_last();
    attempts_are_in_order(rest);
    let y = (rank_of(pool[j].1.unwrap().0), pool[j].1.unwrap().1, pool[j].0);
    if j < rest.len() {
        live_connections_are_tried(rest, j);
    }
    let l = pool.last();
    if l.1 is Some && l.1.unwrap().0 != ConnLiveness::Dead {
        let x = (rank_of(l.1.unwrap().0), l.1.unwrap().1, l.0);
        lemma_put(attempts_of(rest), x);
        attempts_of(rest).to_multiset_ensures();
        attempts_of(pool).to_multiset_ensures();
        assert(attempts_of(pool).to_multiset().count(y) > 0);
    }
}

/// What became of a connection that a peer opened.
#[derive(Clone, Copy, Debug, PartialEq, Eq, Structural)]
pub enum AcceptOutcome {
    /// It is there, under this number.
    Alive(u64),
    /// It was established, but is not alive.
    NotAlive,
    /// It was not established.
    Failed,
}

/// The mathematical value of [`DirectActor`].
#[verifier::ext_equal]
pub struct DirectView {
    pub peers: Map<EndpointId, ConnGenView>,
    pub latest_frame: Seq<u8>,
}

impl DirectView {
    /// The peer is known.
    pub open spec fn with_peer(self, id: EndpointId) -> Self {
        if self.peers.contains_key(id) {
            self
        } else {
            DirectView { peers: self.peers.insert(id, ConnGenView::fresh()), ..self }
        }
    }

    /// The connections to a peer are others now.
    pub open spec fn with(self, id: EndpointId, conns: ConnGenView) -> Self {
        DirectView { peers: self.peers.insert(id, conns), ..self }
    }
}

/// The connections to all peers.
#[derive(Debug)]
pub struct DirectActor {
    peers: IdMap<ConnGen>,
    latest_frame: Vec<u8>,
}

impl View for DirectActor {
    type V = DirectView;

    closed spec fn view(&self) -> DirectView {
        DirectView { peers: self.peers@.map_values(|g: ConnGen| g@), latest_frame: self.latest_frame@ }
    }
}

impl DirectActor {
    /// The containers are in order.
    pub closed spec fn wf(&self) -> bool {
        self.peers.wf()
    }

    /// No peer and no frame.
    pub fn new() -> (r: Self)
        ensures
            r.wf(),
            r@ == (DirectView { peers: Map::empty(), latest_frame: Seq::empty() }),
    {
        let r = DirectActor { peers: IdMap::new(), latest_frame: Vec::new() };
        assert(r@.peers =~= Map::empty());
        assert(r@.latest_frame =~= Seq::empty());
        r
    }

    fn store(&mut self, id: EndpointId, conns: ConnGen)
        requires
            old(self).wf(),
        ensures
            final(self).wf(),
            final(self)@ == old(self)@.with(id, conns@),
    {
        self.peers.insert(id, conns);
        assert(self@.peers =~= old(self)@.with(id, conns@).peers);
    }

    fn conns(&self, id: &EndpointId) -> (r: Option<ConnGen>)
        requires
            self.wf(),
        ensures
            r is Some <==> self@.peers.contains_key(*id),
            r matches Some(g) ==> g@ == self@.peers[*id],
    {
        match self.peers.get(id) {
            Some(g) => Some(g.copy()),
            None => None,
        }
    }

    /// The peers that are known, by ascending identity.
    pub fn get_connected_peers(&self) -> (r: Vec<EndpointId>)
        requires
            self.wf(),
        ensures
            r@ == crate::id::listed(self@.peers.dom()),
            r@.to_set() == self@.peers.dom(),
    {
        let mut r: Vec<EndpointId> = Vec::new();
        let mut i: usize = 0;
        while i < self.peers.len()
            invariant
                i <= self.peers.keys().len(),
                r@ == self.peers.keys().take(i as int),
            decreases self.peers.keys().len() - i,
        {
            r.push(self.peers.key_at(i));
            i = i + 1;
            assert(r@ =~= self.peers.keys().take(i as int));
        }
        proof {
            self.peers.lemma_keys();
            assert(self.peers@.dom() =~= self@.peers.dom());
            assert(r@ =~= self.peers.keys());
        }
        r
    }

    /// The numbers of the connections to a peer, and none for an unknown peer.
    pub fn pool(&self, id: &EndpointId) -> (r: Vec<u64>)
        requires
            self.wf(),
        ensures
            r@ == (if self@.peers.contains_key(*id) {
                self@.peers[*id].pool
            } else {
                Seq::empty()
            }),
    {
        match self.conns(id) {
            Some(g) => g.conn_pool,
            None => Vec::new(),
        }
    }

    /// How often opening a connection to a peer has been tried since the last success.
    pub fn attempts(&self, id: &EndpointId) -> (r: usize)
        requires
            self.wf(),
        ensures
            r == (if self@.peers.contains_key(*id) {
                self@.peers[*id].attempts
            } else {
                0
            }),
    {
        match self.peers.get(id) {
            Some(g) => g.attempts,
            None => 0,
        }
    }

    /// Takes in which connections of a known peer are alive, and whether the last attempt
    /// to open one is long enough ago. Returns the dead ones, which are dropped, and
    /// whether another one has to be opened now.
    pub fn drive(&mut self, id: EndpointId, alive: &Vec<bool>, waited: bool) -> (r: (Vec<u64>, bool))
        requires
            old(self).wf(),
            old(self)@.peers.contains_key(id),
            alive@.len() == old(self)@.peers[id].pool.len(),
        ensures
            final(self).wf(),
            ({
                let before = old(self)@.peers[id];
                let pruned = before.pruned(alive@);
                &&& r.0@ == dead_of(before.pool, alive@)
                &&& r.1 == pruned.wants_connection(waited)
                &&& final(self)@ == old(self)@.with(
                    id,
                    if r.1 {
                        pruned.opening()
                    } else {
                        pruned
                    },
                )
            }),
    {
        let mut conns = self.conns(&id).unwrap();
        let dead = conns.prune(alive);
        let open = conns.wants_connection(waited);
        if open {
            conns.conn_counter = conns.conn_counter.wrapping_add(1);
            conns.attempts = conns.attempts.saturating_add(1);
        }
        self.store(id, conns);
        (dead, open)
    }

    /// Takes in what became of a connection that was opened: its number if it is there
    /// and alive.
    pub fn opened(&mut self, id: EndpointId, conn: Option<u64>)
        requires
            old(self).wf(),
        ensures
            final(self).wf(),
            final(self)@ == (if old(self)@.peers.contains_key(id) {
                old(self)@.with(
                    id,
                    match conn {
                        Some(n) => old(self)@.peers[id].added(n),
                        None => old(self)@.peers[id].missed(),
                    },
                )
            } else {
                old(self)@
            }),
    {
        if let Some(mut conns) = self.conns(&id) {
            match conn {
                Some(n) => {
                    conns.conn_pool.push(n);
                    conns.attempts = 0;
                },
                None => {
                    conns.conn_counter = conns.conn_counter.wrapping_sub(1);
                },
            }
            self.store(id, conns);
        }
    }

    /// A peer opens a connection.
    pub fn begin_accept(&mut self, id: EndpointId)
        requires
            old(self).wf(),
        ensures
            final(self).wf(),
            final(self)@ == old(self)@.with(id, old(self)@.with_peer(id).peers[id].accepting()),
    {
        let mut conns = match self.conns(&id) {
            Some(g) => g,
            None => ConnGen::default(),
        };
        conns.conn_counter = conns.conn_counter.wrapping_add(1);
        self.store(id, conns);
    }

    /// Takes in what became of a connection that a peer opened.
    pub fn accepted(&mut self, id: EndpointId, outcome: AcceptOutcome) -> (r: Result<(), DirectError>)
        requires
            old(self).wf(),
        ensures
            final(self).wf(),
            r == (match outcome {
                AcceptOutcome::Alive(_) => Ok::<(), DirectError>(()),
                AcceptOutcome::NotAlive => Err(DirectError::NotAlive),
                AcceptOutcome::Failed => Err(DirectError::AcceptFailed),
            }),
            final(self)@ == (if old(self)@.peers.contains_key(id) {
                old(self)@.with(
                    id,
                    match outcome {
                        AcceptOutcome::Alive(n) => old(self)@.peers[id].added(n),
                        _ => old(self)@.peers[id].missed(),
                    },
                )
            } else {
                old(self)@
            }),
    {
        match outcome {
            AcceptOutcome::Alive(n) => {
                self.opened(id, Some(n));
                Ok(())
            },
            AcceptOutcome::NotAlive => {
                self.opened(id, None);
                Err(DirectError::NotAlive)
            },
            AcceptOutcome::Failed => {
                self.opened(id, None);
                Err(DirectError::AcceptFailed)
            },
        }
    }

    /// Starts to route a packet. An unknown peer is taken in, and the packet is refused.
    pub fn begin_route(&mut self, to: EndpointId) -> (r: Result<(), DirectError>)
        requires
            old(self).wf(),
        ensures
            final(self).wf(),
            final(self)@ == old(self)@.with_peer(to),
            r is Ok <==> old(self)@.peers.contains_key(to),
            r matches Err(e) ==> e == DirectError::NoActiveConnection,
    {
        if self.peers.get(&to).is_some() {
            return Ok(());
        }
        self.store(to, ConnGen::default());
        Err(DirectError::NoActiveConnection)
    }

    /// Takes a peer in, unless it is known.
    pub fn ensure_peer(&mut self, to: EndpointId)
        requires
            old(self).wf(),
        ensures
            final(self).wf(),
            final(self)@ == old(self)@.with_peer(to),
    {
        let _ = self.begin_route(to);
    }

    /// The state of the connections to a peer, of which each is alive or not.
    pub fn get_conn_state(&self, id: &EndpointId, alive: &[bool]) -> (r: Result<InnerConnState, DirectError>)
        requires
            self.wf(),
        ensures
            r == (if !self@.peers.contains_key(*id) {
                Err::<InnerConnState, DirectError>(DirectError::UnknownPeer)
            } else if alive@.contains(true) {
                Ok(InnerConnState::Open)
            } else {
                Ok(InnerConnState::Closed)
            }),
    {
        if self.peers.get(id).is_none() {
            return Err(DirectError::UnknownPeer);
        }
        let mut i: usize = 0;
        while i < alive.len()
            invariant
                i <= alive@.len(),
                self@.peers.contains_key(*id),
                forall|j: int| 0 <= j < i ==> !alive@[j],
            decreases alive@.len() - i,
        {
            if alive[i] {
                assert(alive@[i as int] == true);
                return Ok(InnerConnState::Open);
            }
            i = i + 1;
        }
        Ok(InnerConnState::Closed)
    }

    /// Takes the frame that signs of life carry. The answer tells whether it is new.
    pub fn set_frame(&mut self, bytes: &[u8]) -> (r: bool)
        requires
            old(self).wf(),
        ensures
            final(self).wf(),
            r <==> bytes@ != old(self)@.latest_frame,
            final(self)@ == (DirectView { latest_frame: bytes@, ..old(self)@ }),
    {
        if same_bytes(bytes, self.latest_frame.as_slice()) {
            return false;
        }
        self.latest_frame = copy_bytes(bytes);
        true
    }

    /// The frame that signs of life carry.
    pub fn latest_frame(&self) -> (r: &[u8])
        ensures
            r@ == self@.latest_frame,
    {
        self.latest_frame.as_slice()
    }

    /// Forgets all peers. The connections to them have to be dropped.
    pub fn close(&mut self)
        requires
            old(self).wf(),
        ensures
            final(self).wf(),
            final(self)@ == (DirectView { peers: Map::empty(), ..old(self)@ }),
    {
        self.peers = IdMap::new();
        assert(self@.peers =~= Map::empty());
    }
}

/// What routing a packet is answered when the connections of the peer have been tried.
pub fn routed(written: bool) -> (r: Result<(), DirectError>)
    ensures
        r == (if written {
            Ok::<(), DirectError>(())
        } else {
            Err(DirectError::NoOpenConnections)
        }),
{
    if written {
        Ok(())
    } else {
        Err(DirectError::NoOpenConnections)
    }
}

/// Whether two strings of bytes are the same.
pub(crate) fn same_bytes(a: &[u8], b: &[u8]) -> (r: bool)
    ensures
        r == (a@ == b@),
{
    if a.len() != b.len() {
        return false;
    }
    let mut i: usize = 0;
    while i < a.len()
        invariant
            i <= a@.len(),
            a@.len() == b@.len(),
            forall|j: int| 0 <= j < i ==> a@[j] == b@[j],
        decreases a@.len() - i,
    {
        if a[i] != b[i] {
            assert(a@[i as int] != b@[i as int]);
            return false;
        }
        i = i + 1;
    }
    assert(a@ =~= b@);
    true
}

proof fn lemma_pruned_len(pool: Seq<u64>, alive: Seq<bool>, dead: Seq<u64>, n: int)
    requires
        0 <= n <= pool.len(),
        pool.len() == alive.len(),
        forall|i: int| 0 <= i < pool.len() ==> (dead.contains(#[trigger] pool[i]) <==> !alive[i]),
    ensures
        pool.take(n).filter(|id: u64| !dead.contains(id)).len() + dead_of(pool.take(n), alive).len() == n,
    decreases n,
{
    reveal(Seq::filter);
    if n > 0 {
        lemma_pruned_len(pool, alive, dead, n - 1);
        assert(pool.take(n).drop_last() =~= pool.take(n - 1));
        assert(pool.take(n).last() == pool[n - 1]);
    }
}

proof fn lemma_dead_members(pool: Seq<u64>, alive: Seq<bool>, n: int)
    requires
        0 <= n <= pool.len(),
        pool.len() == alive.len(),
        pool.no_duplicates(),
    ensures
        forall|i: int|
            0 <= i < pool.len() ==> (dead_of(pool.take(n), alive).contains(#[trigger] pool[i]) <==> i < n && !alive[i]),
    decreases n,
{
    if n > 0 {
        lemma_dead_members(pool, alive, n - 1);
        let t = pool.take(n);
        assert(t.drop_last() =~= pool.take(n - 1));
        let rest = dead_of(pool.take(n - 1), alive);
        let x = pool[n - 1];
        assert forall|i: int| 0 <= i < pool.len() implies (dead_of(t, alive).contains(#[trigger] pool[i]) <==> i < n
            && !alive[i]) by {
            if !alive[n - 1] {
                let d = rest.push(x);
                assert(d[rest.len() as int] == x);
                if rest.contains(pool[i]) {
                    let k = choose|k: int| 0 <= k < rest.len() && rest[k] == pool[i];
                    assert(d[k] == pool[i]);
                }
                if d.contains(pool[i]) {
                    let k = choose|k: int| 0 <= k < d.len() && d[k] == pool[i];
                    if k < rest.len() {
                        assert(rest[k] == pool[i]);
                    }
                }
            }
        }
    }
}

proof fn lemma_uncounted_by(count: usize, n: nat)
    requires
        n <= count,
    ensures
        uncounted_by(count, n) == count - n,
    decreases n,
{
    if n > 0 {
        lemma_uncounted_by(count, (n - 1) as nat);
    }
}

/// Dropping dead connections keeps the count in line: as many connections are being
/// opened afterwards as before.
pub proof fn pruning_keeps_the_count(g: ConnGenView, alive: Seq<bool>)
    requires
        g.pool.no_duplicates(),
        alive.len() == g.pool.len(),
        g.pool.len() <= g.counter,
    ensures
        g.pruned(alive).pool.len() <= g.pruned(alive).counter,
        g.pruned(alive).counter - g.pruned(alive).pool.len() == g.counter - g.pool.len(),
{
    let n = g.pool.len() as int;
    let dead = dead_of(g.pool, alive);
    assert(g.pool.take(n) =~= g.pool);
    lemma_dead_members(g.pool, alive, n);
    lemma_pruned_len(g.pool, alive, dead, n);
    lemma_uncounted_by(g.counter, dead.len());
}

/// Exactly the connections that are not alive are dropped, and told; those that are alive stay,
/// and with them how often opening one has been tried. If all are alive, nothing changes.
pub proof fn only_dead_connections_are_dropped(g: ConnGenView, alive: Seq<bool>)
    requires
        g.pool.no_duplicates(),
        alive.len() == g.pool.len(),
    ensures
        forall|i: int|
            0 <= i < g.pool.len() ==> (g.pruned(alive).pool.contains(#[trigger] g.pool[i]) <==> alive[i]),
        forall|i: int|
            0 <= i < g.pool.len() ==> (dead_of(g.pool, alive).contains(#[trigger] g.pool[i]) <==> !alive[i]),
        forall|id: u64| #[trigger] g.pruned(alive).pool.contains(id) ==> g.pool.contains(id),
        g.pruned(alive).attempts == g.attempts,
        (forall|i: int| 0 <= i < alive.len() ==> #[trigger] alive[i]) ==> g.pruned(alive) == g,
{
    let n = g.pool.len() as int;
    let dead = dead_of(g.pool, alive);
    let keep = |id: u64| !dead.contains(id);
    assert(g.pool.take(n) =~= g.pool);
    lemma_dead_members(g.pool, alive, n);
    lemma_kept_members(g.pool, keep);
    assert forall|i: int| 0 <= i < g.pool.len() implies (g.pruned(alive).pool.contains(#[trigger] g.pool[i])
        <==> alive[i]) by {
        assert(g.pool.contains(g.pool[i]));
    }
    if forall|i: int| 0 <= i < alive.len() ==> #[trigger] alive[i] {
        lemma_none_dead(g.pool, alive, n);
        lemma_all_kept(g.pool, keep, n);
        assert(g.pool.filter(keep) =~= g.pool);
    }
}

proof fn lemma_kept_members(pool: Seq<u64>, keep: spec_fn(u64) -> bool)
    ensures
        forall|id: u64| #[trigger] pool.filter(keep).contains(id) <==> pool.contains(id) && keep(id),
    decreases pool.len(),
{
    reveal(Seq::filter);
    if pool.len() > 0 {
        let rest = pool.drop_last();
        let l = pool.last();
        lemma_kept_members(rest, keep);
        assert(pool =~= rest.push(l));
        assert forall|id: u64| #[trigger] pool.filter(keep).contains(id) <==> pool.contains(id) && keep(id) by {
            vstd::seq_lib::lemma_seq_contains_after_push(rest, l, id);
            vstd::seq_lib::lemma_seq_contains_after_push(rest.filter(keep), l, id);
        }
    }
}

proof fn lemma_none_dead(pool: Seq<u64>, alive: Seq<bool>, n: int)
    requires
        0 <= n <= pool.len(),
        pool.len() == alive.len(),
        forall|i: int| 0 <= i < alive.len() ==> #[trigger] alive[i],
    ensures
        dead_of(pool.take(n), alive).len() == 0,
    decreases n,
{
    if n > 0 {
        lemma_none_dead(pool, alive, n - 1);
        assert(pool.take(n).drop_last() =~= pool.take(n - 1));
        assert(alive[n - 1]);
    }
}

proof fn lemma_all_kept(pool: Seq<u64>, keep: spec_fn(u64) -> bool, n: int)
    requires
        0 <= n <= pool.len(),
        forall|i: int| 0 <= i < pool.len() ==> keep(#[trigger] pool[i]),
    ensures
        pool.take(n).filter(keep) == pool.take(n),
    decreases n,
{
    reveal(Seq::filter);
    if n > 0 {
        lemma_all_kept(pool, keep, n - 1);
        assert(pool.take(n).drop_last() =~= pool.take(n - 1));
        assert(pool.take(n) =~= pool.take(n - 1).push(pool[n - 1]));
        assert(keep(pool[n - 1]));
    } else {
        assert(pool.take(n).filter(keep) =~= pool.take(n));
    }
}

/// Another connection is opened exactly while there are fewer than two, after not more than
/// 100 attempts in a row, and only when the last one is long enough ago.
pub proof fn two_connections_are_kept(g: ConnGenView, waited: bool)
    ensures
        g.wants_connection(waited) <==> g.counter < 2 && g.attempts <= 100 && waited,
{
}

/// What each step counts: a connection that is opened counts, and so does the attempt; one
/// that is accepted counts without an attempt; one that is there ends the row of attempts;
/// one that did not come about does not count any more.
pub proof fn every_connection_counts_once(g: ConnGenView, id: u64)
    requires
        g.counter < usize::MAX,
        g.attempts < usize::MAX,
    ensures
        g.opening() == (ConnGenView {
            pool: g.pool,
            counter: (g.counter + 1) as usize,
            attempts: (g.attempts + 1) as usize,
        }),
        g.accepting() == (ConnGenView { pool: g.pool, counter: (g.counter + 1) as usize, attempts: g.attempts }),
        g.added(id) == (ConnGenView { pool: g.pool.push(id), counter: g.counter, attempts: 0 }),
        g.counter > 0 ==> g.missed() == (ConnGenView {
            pool: g.pool,
            counter: (g.counter - 1) as usize,
            attempts: g.attempts,
        }),
        g.accepting().missed() == g,
        g.opening().missed().counter == g.counter,
        ConnGenView::fresh().pool.len() == 0,
        ConnGenView::fresh().counter == 0,
        ConnGenView::fresh().attempts == 0,
{
}

/// Taking a peer in leaves what is known of it, if anything is, and all others alone.
pub proof fn known_peers_stay_as_they_are(d: DirectView, id: EndpointId, other: EndpointId)
    ensures
        d.peers.contains_key(id) ==> d.with_peer(id) == d,
        !d.peers.contains_key(id) ==> d.with_peer(id).peers == d.peers.insert(
            id,
            ConnGenView { pool: Seq::empty(), counter: 0, attempts: 0 },
        ),
        d.with_peer(id).latest_frame == d.latest_frame,
        other != id ==> (d.with_peer(id).peers.contains_key(other) <==> d.peers.contains_key(other)) && d.with_peer(
            id,
        ).peers[other] == d.peers[other],
{
}

/// Usable connections are tried before suspect ones, and of the same kind those that have been
/// idle for a shorter time first.
pub proof fn usable_connections_come_first(pool: Seq<(u64, Option<(ConnLiveness, u128)>)>, i: int, j: int)
    requires
        0 <= i < j < attempts_of(pool).len(),
    ensures
        ({
            let (a, b) = (attempts_of(pool)[i], attempts_of(pool)[j]);
            a.0 < b.0 || a.0 == b.0 && a.1 <= b.1
        }),
{
    attempts_are_in_order(pool);
    assert(!before(attempts_of(pool)[j], attempts_of(pool)[i]));
}

/// What is tried is there: a connection with the number and the idle time, which is usable if
/// it has the first rank and suspect if it has the second. There is no third rank.
pub proof fn attempts_are_what_they_say(pool: Seq<(u64, Option<(ConnLiveness, u128)>)>, i: int)
    requires
        0 <= i < attempts_of(pool).len(),
    ensures
        attempts_of(pool)[i].0 == 0 || attempts_of(pool)[i].0 == 1,
        exists|j: int|
            0 <= j < pool.len() && #[trigger] pool[j] == (
                attempts_of(pool)[i].2,
                Some(
                    (
                        if attempts_of(pool)[i].0 == 0 {
                            ConnLiveness::Usable
                        } else {
                            ConnLiveness::Suspect
                        },
                        attempts_of(pool)[i].1,
                    ),
                ),
            ),
{
    dead_connections_are_not_tried(pool, i);
    let a = attempts_of(pool)[i];
    let j = choose|j: int|
        0 <= j < pool.len() && (#[trigger] pool[j]).0 == a.2 && pool[j].1 is Some && pool[j].1.unwrap().0
            != ConnLiveness::Dead && rank_of(pool[j].1.unwrap().0) == a.0 && pool[j].1.unwrap().1 == a.1;
    assert(pool[j] == (
        a.2,
        Some(
            (
                if a.0 == 0 {
                    ConnLiveness::Usable
                } else {
                    ConnLiveness::Suspect
                },
                a.1,
            ),
        ),
    ));
}

/// Every connection that is usable or suspect is tried, with the rank of its kind.
pub proof fn every_live_connection_is_tried(pool: Seq<(u64, Option<(ConnLiveness, u128)>)>, j: int, idle: u128)
    requires
        0 <= j < pool.len(),
    ensures
        pool[j].1 == Some((ConnLiveness::Usable, idle)) ==> attempts_of(pool).contains((0, idle, pool[j].0)),
        pool[j].1 == Some((ConnLiveness::Suspect, idle)) ==> attempts_of(pool).contains((1, idle, pool[j].0)),
{
    if pool[j].1 is Some && pool[j].1.unwrap().0 != ConnLiveness::Dead {
        live_connections_are_tried(pool, j);
    }
}

} // verus!
