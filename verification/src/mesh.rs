//! The mathematical model of the mesh: its state and what each event does to it.
use vstd::prelude::*;
use crate::claims::Claimant;
use crate::id::EndpointId;
use crate::keys::SecretKey;
use crate::wire::CodecError;
use crate::node::{Claim, IpClaim, MeshError, NodeState, NodeView, PortsView, SignedView, Version, WallMs};

verus! {

/// What the virtual network device is told to do.
#[derive(Clone, Copy, Debug, PartialEq, Eq, Structural)]
pub enum TunDirective {
    Configure { ip: u16 },
    Reconfigure { from: u16, to: u16 },
    /// We lost our claim and have no valid ip yet
    Teardown { from: u16 },
}

/// Whether the virtual network device is up.
#[derive(Clone, Copy, Debug, PartialEq, Eq, Structural)]
pub enum TunState {
    Down,
    Up { ip: u16 },
}

/// The upper half of 172.30.0.0.
pub const DEFAULT_PREFIX: u16 = 44_062;

/// The settings of the mesh. All times are in milliseconds.
#[derive(Clone, Copy, Debug, PartialEq, Eq, Structural)]
pub struct Config {
    pub tick_interval: u64,
    /// Base ip prefix for the mesh network (default: 172.30 => 172u16 << 8 | 30u16 )
    pub net_prefix: u16,
    /// Time until we consider a node disconnected
    pub disconnect_timeout: u64,
    /// Time without change until we expect to have a settled view of our peers
    pub settle_ticks: u64,
    /// During ip conflict we consider two nodes timestamps identical when they are within this range
    pub simultaneous_range: u64,
    /// Min peer num before we have a minimum viable network (wait to bring up tun until we have enough peers)
    pub min_viable_network: usize,
}

impl Config {
    /// The usual settings.
    pub open spec fn usual() -> Self {
        Config {
            tick_interval: 500,
            net_prefix: DEFAULT_PREFIX,
            disconnect_timeout: 60_000,
            settle_ticks: 20,
            simultaneous_range: 30_000,
            min_viable_network: 2,
        }
    }
}

impl Default for Config {
    fn default() -> (r: Self)
        ensures
            r == Config::usual(),
    {
        Config {
            tick_interval: 500,
            net_prefix: DEFAULT_PREFIX,
            disconnect_timeout: 60_000,
            settle_ticks: 20,
            simultaneous_range: 30_000,
            min_viable_network: 2,
        }
    }
}

/// What is known of the connection to a peer.
#[derive(Clone, Copy, Debug, PartialEq, Eq, Structural)]
pub struct PeerMeta {
    pub connected: bool,
    pub last_fresh_ms: WallMs,
}

/// What the mesh reports to its surroundings.
#[derive(Clone, Debug, PartialEq, Eq)]
pub enum MeshEvent {
    Tun(TunDirective),
    PeerChanged { peer: EndpointId, state: NodeState },
    PeerDisconnected { peer: EndpointId },
    ClaimResolved { ip: u16, winner: EndpointId, loser: EndpointId },
}

/// The mathematical value of [`MeshEvent`].
#[verifier::ext_equal]
pub enum EventView {
    Tun(TunDirective),
    PeerChanged { peer: EndpointId, state: NodeView },
    PeerDisconnected { peer: EndpointId },
    ClaimResolved { ip: u16, winner: EndpointId, loser: EndpointId },
}

impl View for MeshEvent {
    type V = EventView;

    open spec fn view(&self) -> EventView {
        match self {
            MeshEvent::Tun(d) => EventView::Tun(*d),
            MeshEvent::PeerChanged { peer, state } => EventView::PeerChanged { peer: *peer, state: state@ },
            MeshEvent::PeerDisconnected { peer } => EventView::PeerDisconnected { peer: *peer },
            MeshEvent::ClaimResolved { ip, winner, loser } => EventView::ClaimResolved {
                ip: *ip,
                winner: *winner,
                loser: *loser,
            },
        }
    }
}

/// How long ago `at` is at `now`, and nothing if it lies ahead.
pub open spec fn age(now: WallMs, at: WallMs) -> int {
    if now > at {
        now - at
    } else {
        0
    }
}

/// The `k`-th candidate address of a node: any two bytes of a digest, kept away from
/// the first two and the last of the subnet.
pub open spec fn candidate_of(id: EndpointId, k: u64) -> u16 {
    let digest = crate::hashes::blake3_digest(id.bytes@ + vstd::bytes::spec_u64_to_le_bytes(k))@;
    (2 + (digest[0] + 256 * digest[1]) % 65_533) as u16
}

/// The first candidate of a node from `start` on that nobody occupies.
pub open spec fn first_free(id: EndpointId, occupied: Set<u16>, start: u64, k: u64) -> bool {
    &&& start <= k
    &&& !occupied.contains(candidate_of(id, k))
    &&& forall|j: u64| start <= j < k ==> occupied.contains(#[trigger] candidate_of(id, j))
}

/// The first candidate of a node from `start` on that nobody occupies, if there is
/// one.
pub open spec fn next_free(id: EndpointId, occupied: Set<u16>, start: u64) -> Option<u64> {
    if exists|k: u64| first_free(id, occupied, start, k) {
        Some(choose|k: u64| first_free(id, occupied, start, k))
    } else {
        None
    }
}

/// The signed announcement that plain values stand for.
pub open spec fn signed_of(c: crate::wire::SignedContents) -> SignedView {
    SignedView {
        inner: NodeView {
            endpoint_id: EndpointId { bytes: c.0.0 },
            version: Version { wall_ms: c.0.1.0, counter: c.0.1.1 },
            ip_claim: match c.0.2 {
                Ok(_) => IpClaim::Unclaimed,
                Err(t) => IpClaim::Claimed(Claim { ip: t.0, k: t.1, claimed_at_ms: t.2 }),
            },
            exposed_ports: match c.0.3 {
                Ok(_) => PortsView::Any,
                Err(s) => PortsView::List(s),
            },
        },
        signature: crate::keys::Signature { r: c.1.0, s: c.1.1 },
    }
}

/// The announcements in a frame's bytes, or why there are none: the bytes are no frame,
/// the frame is of an unknown kind, or an author is no public key.
pub open spec fn frame_states(bytes: Seq<u8>) -> Result<Seq<SignedView>, CodecError> {
    match crate::wire::frame_decoding(bytes) {
        Err(e) => Err(e),
        Ok(list) => if crate::wire::authors_valid(list) {
            Ok(list.map_values(|c: crate::wire::SignedContents| signed_of(c)))
        } else {
            Err(CodecError::Custom)
        },
    }
}

/// The state of the mesh as one node sees it.
#[verifier::ext_equal]
pub struct MeshView {
    pub eid: EndpointId,
    pub key: SecretKey,
    pub config: Config,
    pub states: Map<EndpointId, SignedView>,
    pub peers: Map<EndpointId, PeerMeta>,
    pub tun: TunState,
    pub quiet_ticks: u64,
    pub outbound: Seq<(EndpointId, Seq<u8>)>,
    pub events: Seq<EventView>,
}

impl MeshView {
    /// What holds of the mesh at all times: the node's identity belongs to its key,
    /// the node knows its own announcement, every announcement is filed under its
    /// author, who has a valid identity, and what is known of another node was signed
    /// by that node, except that its claim may have been dropped since.
    pub open spec fn inv(self) -> bool {
        &&& self.eid == self.key.id()
        &&& self.states.contains_key(self.eid)
        &&& self.states.dom().finite()
        &&& self.peers.dom().finite()
        &&& forall|id: EndpointId| #[trigger]
            self.states.contains_key(id) ==> self.states[id].inner.endpoint_id == id
                && crate::keys::valid_public_key(id.bytes) && (id != self.eid ==> self.states[id].genuine())
    }

    /// The node's own announcement.
    pub open spec fn own(self) -> NodeView {
        self.states[self.eid].inner
    }

    /// The node's own announcement verifies, unless its signature is degenerate.
    pub open spec fn own_signed(self) -> bool {
        self.states[self.eid].signature.r@ != crate::keys::neutral_point() ==> self.states[self.eid].verifies()
    }

    /// The node can still announce itself `n` times at time `now`: the counter of its
    /// version has room, or starts anew.
    pub open spec fn room(self, n: int, now: WallMs) -> bool {
        self.own().version.counter + n <= u64::MAX || now > self.own().version.wall_ms
    }

    /// Before anything has happened.
    pub open spec fn blank(key: SecretKey, config: Config) -> Self {
        MeshView {
            eid: key.id(),
            key,
            config,
            states: Map::empty(),
            peers: Map::empty(),
            tun: TunState::Down,
            quiet_ticks: 0,
            outbound: Seq::empty(),
            events: Seq::empty(),
        }
    }

    /// A node that has just started: no claim, any port.
    pub open spec fn started(key: SecretKey, config: Config, now: WallMs) -> Self {
        MeshView::blank(key, config).written(now, IpClaim::Unclaimed, PortsView::Any)
    }

    /// The node announces `claim` and `ports` under the next version.
    pub open spec fn written(self, now: WallMs, claim: IpClaim, ports: PortsView) -> Self {
        let version = if self.states.contains_key(self.eid) {
            self.own().version
        } else {
            Version { wall_ms: now, counter: 0 }
        };
        let node = NodeView {
            endpoint_id: self.eid,
            version: version.bumped(now),
            ip_claim: claim,
            exposed_ports: ports,
        };
        MeshView { states: self.states.insert(self.eid, node.signed_by(self.key)), ..self }
    }

    /// The peers that have been disconnected for too long.
    pub open spec fn departed(self, now: WallMs) -> Set<EndpointId> {
        Set::new(
            |id: EndpointId|
                self.peers.contains_key(id) && id != self.eid && !self.peers[id].connected && age(
                    now,
                    self.peers[id].last_fresh_ms,
                ) >= self.config.disconnect_timeout,
        )
    }

    /// Departed peers are forgotten and reported.
    pub open spec fn expired(self, now: WallMs) -> Self {
        let gone = self.departed(now);
        let list = crate::id::listed(gone);
        MeshView {
            peers: self.peers.remove_keys(gone),
            states: self.states.remove_keys(gone),
            events: self.events + list.map_values(|id: EndpointId| EventView::PeerDisconnected { peer: id }),
            quiet_ticks: if list.len() == 0 {
                self.quiet_ticks
            } else {
                0
            },
            ..self
        }
    }

    /// The other peers that are connected or were heard of lately.
    pub open spec fn live_peers(self, now: WallMs) -> Set<EndpointId> {
        Set::new(
            |id: EndpointId|
                self.peers.contains_key(id) && id != self.eid && (self.peers[id].connected || age(
                    now,
                    self.peers[id].last_fresh_ms,
                ) < self.config.disconnect_timeout),
        )
    }

    /// The addresses that the other nodes claim.
    pub open spec fn occupied(self) -> Set<u16> {
        Set::new(
            |ip: u16|
                exists|id: EndpointId|
                    #![trigger self.states.contains_key(id)]
                    self.states.contains_key(id) && id != self.eid && self.states[id].inner.ip_claim.spec_ip()
                        == Some(ip),
        )
    }

    /// All announcements that this node knows, by ascending author.
    pub open spec fn announcements(self) -> Seq<SignedView> {
        crate::id::listed(self.states.dom()).map_values(|id: EndpointId| self.states[id])
    }

    /// The frame that tells everything this node knows.
    pub open spec fn frame(self) -> Seq<u8> {
        crate::wire::frame_encoding(
            (
                0,
                self.announcements().map_values(|s: SignedView| s.contents()),
            ),
        )
    }

    /// The frame is on its way to `id`.
    pub open spec fn sent_to(self, id: EndpointId) -> Self {
        MeshView { outbound: self.outbound.push((id, self.frame())), ..self }
    }

    /// The peers that are connected.
    pub open spec fn connected(self) -> Set<EndpointId> {
        Set::new(|id: EndpointId| self.peers.contains_key(id) && self.peers[id].connected)
    }

    /// The frame is on its way to every connected peer.
    pub open spec fn sent_to_all(self) -> Self {
        let frame = self.frame();
        MeshView {
            outbound: self.outbound + crate::id::listed(self.connected()).map_values(
                |id: EndpointId| (id, frame),
            ),
            ..self
        }
    }

    /// The device follows the node's own claim.
    pub open spec fn tun_synced(self) -> Self {
        match (self.tun, self.own().ip_claim.spec_ip()) {
            (TunState::Down, Some(ip)) => MeshView {
                tun: TunState::Up { ip },
                events: self.events.push(EventView::Tun(TunDirective::Configure { ip })),
                ..self
            },
            (TunState::Up { ip: from }, Some(to)) => if from != to {
                MeshView {
                    tun: TunState::Up { ip: to },
                    events: self.events.push(EventView::Tun(TunDirective::Reconfigure { from, to })),
                    ..self
                }
            } else {
                self
            },
            (TunState::Up { ip: from }, None) => MeshView {
                tun: TunState::Down,
                events: self.events.push(EventView::Tun(TunDirective::Teardown { from })),
                ..self
            },
            (TunState::Down, None) => self,
        }
    }

    /// The node claims its candidate with index `k`.
    pub open spec fn claiming(self, k: u64, now: WallMs) -> Self {
        let claim = Claim { ip: candidate_of(self.eid, k), k, claimed_at_ms: now };
        self.written(now, IpClaim::Claimed(claim), self.own().exposed_ports).tun_synced().sent_to_all()
    }

    /// The node claims its first free candidate from `start` on, if there is one.
    pub open spec fn taken(self, start: u64, now: WallMs) -> Self {
        match next_free(self.eid, self.occupied(), start) {
            Some(k) => self.claiming(k, now),
            None => self,
        }
    }

    /// Enough peers are there, and nothing has changed for long enough.
    pub open spec fn ready(self, now: WallMs) -> bool {
        self.live_peers(now).len() >= self.config.min_viable_network && self.quiet_ticks
            >= self.config.settle_ticks
    }

    /// A node with a claim keeps it; one without takes an address once the network is
    /// ready.
    pub open spec fn maybe_claimed(self, now: WallMs) -> Self {
        if self.own().ip_claim is Claimed {
            self.tun_synced()
        } else if self.ready(now) {
            self.taken(0, now)
        } else {
            self
        }
    }

    /// One tick of the clock.
    pub open spec fn ticked(self, now: WallMs) -> Self {
        let s = self.expired(now);
        let s = s.written(now, s.own().ip_claim, s.own().exposed_ports);
        let s = MeshView {
            quiet_ticks: if s.quiet_ticks < u64::MAX {
                (s.quiet_ticks + 1) as u64
            } else {
                u64::MAX
            },
            ..s
        };
        s.maybe_claimed(now).sent_to_all()
    }

    /// An announcement brings nothing new: it is the node's own, or not newer than
    /// what is known.
    pub open spec fn stale(self, signed: SignedView) -> bool {
        let author = signed.inner.endpoint_id;
        author == self.eid || self.states.contains_key(author) && !self.states[author].inner.version.older(
            signed.inner.version,
        )
    }

    /// The author of an announcement was unknown, or claims something else now.
    pub open spec fn claim_changes(self, signed: SignedView) -> bool {
        let author = signed.inner.endpoint_id;
        !self.states.contains_key(author) || self.states[author].inner.ip_claim != signed.inner.ip_claim
    }

    /// The author of an announcement was unknown, or announces something else now.
    pub open spec fn view_changes(self, signed: SignedView) -> bool {
        let author = signed.inner.endpoint_id;
        self.claim_changes(signed) || self.states[author].inner.exposed_ports != signed.inner.exposed_ports
    }

    /// What merging an announcement answers: an error, or whether the view changed.
    pub open spec fn merge_answer(self, signed: SignedView) -> Result<bool, MeshError> {
        if !signed.verifies() {
            Err(MeshError::BadSignature)
        } else if self.stale(signed) {
            Ok(false)
        } else {
            Ok(self.view_changes(signed))
        }
    }

    /// The newest announcement of each author stays.
    pub open spec fn merged(self, signed: SignedView, now: WallMs) -> Self {
        let author = signed.inner.endpoint_id;
        if !signed.verifies() || self.stale(signed) {
            self
        } else {
            MeshView {
                states: self.states.insert(author, signed),
                peers: self.peers.insert(
                    author,
                    PeerMeta {
                        connected: self.peers.contains_key(author) && self.peers[author].connected,
                        last_fresh_ms: now,
                    },
                ),
                quiet_ticks: if self.claim_changes(signed) {
                    0
                } else {
                    self.quiet_ticks
                },
                events: if self.view_changes(signed) {
                    self.events.push(EventView::PeerChanged { peer: author, state: signed.inner })
                } else {
                    self.events
                },
                ..self
            }
        }
    }

    /// What merging announcements one after the other answers: the first error, or
    /// whether the view changed.
    pub open spec fn merge_all_answer(self, list: Seq<SignedView>, now: WallMs) -> Result<bool, MeshError>
        decreases list.len(),
    {
        if list.len() == 0 {
            Ok(false)
        } else {
            match self.merge_all_answer(list.drop_last(), now) {
                Err(e) => Err(e),
                Ok(changed) => match self.merged_all(list.drop_last(), now).merge_answer(list.last()) {
                    Err(e) => Err(e),
                    Ok(c) => Ok(changed || c),
                },
            }
        }
    }

    /// The announcements are merged one after the other, up to the first error.
    pub open spec fn merged_all(self, list: Seq<SignedView>, now: WallMs) -> Self
        decreases list.len(),
    {
        if list.len() == 0 {
            self
        } else if self.merge_all_answer(list.drop_last(), now) is Err {
            self.merged_all(list.drop_last(), now)
        } else {
            self.merged_all(list.drop_last(), now).merged(list.last(), now)
        }
    }

    /// The nodes that claim an address, with their claims, by ascending identity.
    pub open spec fn claimants(self) -> Seq<Claimant> {
        crate::id::listed(
            Set::new(
                |id: EndpointId|
                    self.states.contains_key(id) && self.states[id].inner.ip_claim is Claimed,
            ),
        ).map_values(|id: EndpointId| (id, self.states[id].inner.ip_claim->Claimed_0))
    }

    /// The claims of `losers` to `ip` are reported lost. The view of another node's
    /// claim is dropped at once: that node will announce a new one.
    pub open spec fn dropped(self, ip: u16, winner: EndpointId, losers: Seq<Claimant>) -> Self
        decreases losers.len(),
    {
        if losers.len() == 0 {
            self
        } else {
            let s = self.dropped(ip, winner, losers.drop_last());
            let loser = losers.last().0;
            MeshView {
                events: s.events.push(EventView::ClaimResolved { ip, winner, loser }),
                states: if loser == s.eid || !s.states.contains_key(loser) {
                    s.states
                } else {
                    let old = s.states[loser];
                    s.states.insert(
                        loser,
                        SignedView {
                            inner: NodeView { ip_claim: IpClaim::Unclaimed, ..old.inner },
                            ..old
                        },
                    )
                },
                ..s
            }
        }
    }

    /// The claims to one address are settled: the last of the ranking keeps it.
    pub open spec fn settled_for(self, claims: Seq<Claimant>, ip: u16) -> Self {
        let ranking = crate::claims::ranked(
            self.config.simultaneous_range,
            crate::claims::claims_for(claims, ip),
        );
        self.dropped(ip, ranking.last().0, ranking.drop_last())
    }

    /// The addresses of the first `n` claims are settled.
    pub open spec fn settled(self, claims: Seq<Claimant>, n: nat) -> Self
        decreases n,
    {
        if n == 0 {
            self
        } else {
            let s = self.settled(claims, (n - 1) as nat);
            let ip = claims[n - 1].1.ip;
            if crate::claims::claimed_before(claims, n - 1, ip) {
                s
            } else {
                s.settled_for(claims, ip)
            }
        }
    }

    /// The node claims an address and another node wins it.
    pub open spec fn lost_own(self) -> bool {
        &&& self.own().ip_claim is Claimed
        &&& crate::claims::winner(
            self.config.simultaneous_range,
            crate::claims::claims_for(self.claimants(), self.own().ip_claim->Claimed_0.ip),
        ).0 != self.eid
    }

    /// Every address that several nodes claim is settled. If the node itself lost its
    /// address, it takes the next free one.
    pub open spec fn resolved(self, now: WallMs) -> Self {
        let claims = self.claimants();
        let s = self.settled(claims, claims.len());
        if self.lost_own() {
            let k = self.own().ip_claim->Claimed_0.k;
            s.taken(
                if k < u64::MAX {
                    (k + 1) as u64
                } else {
                    u64::MAX
                },
                now,
            )
        } else {
            s
        }
    }

    /// What a frame is answered.
    pub open spec fn frame_answer(self, bytes: Seq<u8>, now: WallMs) -> Result<(), MeshError> {
        match frame_states(bytes) {
            Err(e) => Err(MeshError::Codec(e)),
            Ok(list) => match self.merge_all_answer(list, now) {
                Err(e) => Err(e),
                Ok(_) => Ok(()),
            },
        }
    }

    /// The peer was heard of at `now`, if it is known.
    pub open spec fn refreshed(self, from: EndpointId, now: WallMs) -> Self {
        if self.peers.contains_key(from) {
            MeshView {
                peers: self.peers.insert(
                    from,
                    PeerMeta { last_fresh_ms: now, ..self.peers[from] },
                ),
                ..self
            }
        } else {
            self
        }
    }

    /// A frame is taken in: its announcements are merged, and if the view changed,
    /// claims are settled and an address is taken where it is time.
    pub open spec fn framed(self, from: EndpointId, bytes: Seq<u8>, now: WallMs) -> Self {
        match frame_states(bytes) {
            Err(_) => self,
            Ok(list) => {
                let s = self.merged_all(list, now);
                match self.merge_all_answer(list, now) {
                    Err(_) => s,
                    Ok(changed) => if changed {
                        s.refreshed(from, now).resolved(now).maybe_claimed(now)
                    } else {
                        s.refreshed(from, now)
                    },
                }
            },
        }
    }

    /// A peer has connected: it is greeted with a frame.
    pub open spec fn joined(self, id: EndpointId, now: WallMs) -> Self {
        let s = MeshView {
            peers: self.peers.insert(id, PeerMeta { connected: true, last_fresh_ms: now }),
            quiet_ticks: if self.peers.contains_key(id) && self.peers[id].connected {
                self.quiet_ticks
            } else {
                0
            },
            ..self
        };
        s.sent_to(id)
    }

    /// A peer has disconnected.
    pub open spec fn left(self, id: EndpointId) -> Self {
        if self.peers.contains_key(id) {
            MeshView {
                peers: self.peers.insert(id, PeerMeta { connected: false, ..self.peers[id] }),
                ..self
            }
        } else {
            self
        }
    }

    /// Nothing is merged behind the first error.
    pub proof fn lemma_merge_stops(self, list: Seq<SignedView>, n: int, now: WallMs)
        requires
            0 <= n <= list.len(),
            self.merge_all_answer(list.take(n), now) is Err,
        ensures
            self.merge_all_answer(list, now) == self.merge_all_answer(list.take(n), now),
            self.merged_all(list, now) == self.merged_all(list.take(n), now),
        decreases list.len() - n,
    {
        if n < list.len() {
            assert(list.take(n + 1).drop_last() =~= list.take(n));
            self.lemma_merge_stops(list, n + 1, now);
        } else {
            assert(list.take(n) =~= list);
        }
    }
}

/// The usual settings: two ticks in a second, the subnet 172.30, a minute until a node counts as
/// disconnected, ten seconds until the view counts as settled, half a minute in which
/// claims count as simultaneous, and two peers at least.
pub proof fn usual_settings()
    ensures
        ({
            let c = Config::usual();
            &&& c.tick_interval == 500
            &&& c.net_prefix == 172 * 256 + 30
            &&& c.disconnect_timeout == 60_000
            &&& c.settle_ticks * c.tick_interval == 10_000
            &&& c.simultaneous_range == 30_000
            &&& c.min_viable_network == 2
        }),
{
}

} // verus!
