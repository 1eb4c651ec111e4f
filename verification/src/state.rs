//! The mesh as a running node keeps it.
use vstd::prelude::*;
use std::collections::HashSet;
use crate::claims::{pick_claims, rank_claims, seen_before, Claimant};
use crate::hashes::blake3_of;
use crate::id::EndpointId;
use crate::id_map::IdMap;
use crate::keys::SecretKey;
use crate::mesh::{Config, MeshEvent, MeshView, PeerMeta, TunDirective, TunState};
use crate::node::{Claim, IpClaim, MeshError, NodeState, Ports, SignedNodeState, Version, WallMs};
use crate::wire::{decode_states, encode_frame, take_kind, CodecError, FrameParts, SignedParts};

verus! {

broadcast use vstd::std_specs::hash::group_hash_axioms;

/// The bytes of a frame.
pub type Frame = Vec<u8>;

/// What a node keeps over a restart.
#[derive(Clone, Debug)]
pub struct PersistedState {
    pub claim: Claim,
    pub exposed_ports: Ports,
}

/// The mesh as one node sees it: the newest announcement of every author, the
/// peers, the node's own claim, and what is waiting to be sent and reported.
pub struct State {
    eid: EndpointId,
    signing_key: SecretKey,
    config: Config,
    states: IdMap<SignedNodeState>,
    peers: IdMap<PeerMeta>,
    tun: TunState,
    /// Ticks since the last view change (new peer / claim change)
    quiet_ticks: u64,
    outbound: Vec<(EndpointId, Frame)>,
    events: Vec<MeshEvent>,
}

impl View for State {
    type V = MeshView;

    closed spec fn view(&self) -> MeshView {
        MeshView {
            eid: self.eid,
            key: self.signing_key,
            config: self.config,
            states: self.states@.map_values(|s: SignedNodeState| s@),
            peers: self.peers@,
            tun: self.tun,
            quiet_ticks: self.quiet_ticks,
            outbound: self.outbound@.map_values(|o: (EndpointId, Frame)| (o.0, o.1@)),
            events: self.events@.map_values(|e: MeshEvent| e@),
        }
    }
}

/// The time of the wall clock in milliseconds. Calls `Utc::now` of chrono. Nothing is
/// promised of the result.
#[verifier::external_body]
pub(crate) fn current_time() -> (r: u64) {
    chrono::Utc::now().timestamp_millis() as u64
}

/// Copies the bytes of a frame.
fn copy_frame(frame: &Frame) -> (r: Frame)
    ensures
        r@ == frame@,
{
    let mut r: Frame = Vec::new();
    r.extend_from_slice(frame.as_slice());
    assert(r@ =~= frame@);
    r
}

impl State {
    closed spec fn ordered(&self) -> bool {
        self.states.wf() && self.peers.wf()
    }

    /// The state is in order: the invariant of the mesh holds, and so does that of the
    /// containers.
    pub closed spec fn wf(&self) -> bool {
        self.ordered() && self@.inv() && self@.own_signed()
    }

    /// What holds of a state in order: the invariant of the mesh, and that the others
    /// accept what this node announces, unless its signature is degenerate.
    pub proof fn state_in_order(&self)
        requires
            self.wf(),
        ensures
            self@.inv(),
            self@.own_signed(),
    {
    }

    fn write_own(&mut self, now_ms: WallMs, claim: IpClaim, ports: Ports)
        requires
            old(self).ordered(),
            old(self)@.states.contains_key(old(self)@.eid) ==> old(self)@.room(1, now_ms),
        ensures
            final(self).ordered(),
            final(self)@ == old(self)@.written(now_ms, claim, ports@),
            old(self)@.eid == old(self)@.key.id() ==> final(self)@.own_signed(),
    {
        let version = match self.states.get(&self.eid) {
            Some(s) => s.get().version,
            None => Version { wall_ms: now_ms, counter: 0 },
        };
        let state = NodeState {
            endpoint_id: self.eid,
            version: version.bump(now_ms),
            ip_claim: claim,
            exposed_ports: ports,
        };
        let signed = state.sign(&self.signing_key);
        self.states.insert(self.eid, signed);
        assert(self@.states =~= old(self)@.written(now_ms, claim, ports@).states);
    }

    /// A node that starts now: it claims nothing until it has seen the network. Without
    /// `now_ms` the wall clock tells the time.
    pub fn new(secret_key: &SecretKey, config: Config, now_ms: Option<WallMs>) -> (r: Self)
        ensures
            r.wf(),
            now_ms matches Some(t) ==> r@ == MeshView::started(*secret_key, config, t),
            exists|t: WallMs| r@ == #[trigger] MeshView::started(*secret_key, config, t),
    {
        let mut mesh = State {
            eid: secret_key.public(),
            signing_key: *secret_key,
            config,
            states: IdMap::new(),
            peers: IdMap::new(),
            tun: TunState::Down,
            quiet_ticks: 0,
            outbound: Vec::new(),
            events: Vec::new(),
        };
        assert(mesh@ =~= MeshView::blank(*secret_key, config));
        let now: WallMs = match now_ms {
            Some(t) => t,
            None => current_time(),
        };
        mesh.write_own(now, IpClaim::Unclaimed, Ports::Any);
        assert(mesh@ == MeshView::started(*secret_key, config, now));
        mesh
    }

    /// The identity of this node.
    pub fn endpoint_id(&self) -> (r: &EndpointId)
        ensures
            *r == self@.eid,
    {
        &self.eid
    }

    /// What this node announces of itself.
    pub fn own(&self) -> (r: &NodeState)
        requires
            self.wf(),
        ensures
            r@ == self@.own(),
    {
        self.states.get(&self.eid).unwrap().get()
    }

    /// The settings.
    pub fn config(&self) -> (r: &Config)
        ensures
            *r == self@.config,
    {
        &self.config
    }

    fn sync_tun(&mut self)
        requires
            old(self).wf(),
        ensures
            final(self).wf(),
            final(self)@ == old(self)@.tun_synced(),
    {
        proof {
            crate::mesh_inv::tun_synced_keeps(self@);
        }
        let desired = self.own().ip_claim.ip();
        match (self.tun, desired) {
            (TunState::Down, Some(ip)) => {
                self.tun = TunState::Up { ip };
                self.events.push(MeshEvent::Tun(TunDirective::Configure { ip }));
            },
            (TunState::Up { ip: from }, Some(to)) => {
                if from != to {
                    self.tun = TunState::Up { ip: to };
                    self.events.push(MeshEvent::Tun(TunDirective::Reconfigure { from, to }));
                }
            },
            (TunState::Up { ip: from }, None) => {
                self.tun = TunState::Down;
                self.events.push(MeshEvent::Tun(TunDirective::Teardown { from }));
            },
            (TunState::Down, None) => {},
        }
        assert(self@.events =~= old(self)@.tun_synced().events);
    }

    /// The frame that tells everything this node knows. Whoever reads it finds the
    /// announcements as this node has them.
    pub fn sync_frame(&self) -> (r: Frame)
        requires
            self.wf(),
        ensures
            r@ == self@.frame(),
            crate::mesh::frame_states(r@) == Ok::<Seq<crate::node::SignedView>, CodecError>(
                self@.announcements(),
            ),
    {
        proof {
            self.states.lemma_keys();
            assert(self.states@.dom() =~= self@.states.dom());
        }
        let ghost all = self@.announcements();
        let mut list: Vec<SignedParts> = Vec::new();
        let mut i: usize = 0;
        while i < self.states.len()
            invariant
                self.wf(),
                self.states.keys() == crate::id::listed(self@.states.dom()),
                i <= self.states.keys().len(),
                all == self@.announcements(),
                list@.len() == i,
                forall|j: int| 0 <= j < i ==> crate::wire::signed_contents(#[trigger] list@[j]) == all[j].contents(),
            decreases self.states.keys().len() - i,
        {
            proof {
                self.states.lemma_keys();
            }
            list.push(self.states.value_at(i).to_parts());
            i = i + 1;
        }
        let frame: FrameParts = (0, list);
        proof {
            let contents = crate::wire::frame_contents(frame);
            assert(contents.1 =~= all.map_values(|s: crate::node::SignedView| s.contents()));
            assert forall|j: int| 0 <= j < contents.1.len() implies crate::keys::valid_public_key(
                (#[trigger] contents.1[j]).0.0,
            ) && crate::mesh::signed_of(contents.1[j]) == all[j] by {
                self.states.lemma_keys();
                assert(self@.states.contains_key(self.states.keys()[j]));
                crate::node::lemma_contents_injective(crate::mesh::signed_of(contents.1[j]), all[j]);
            }
            assert(contents.1.map_values(|c: crate::wire::SignedContents| crate::mesh::signed_of(c)) =~= all);
        }
        encode_frame(&frame)
    }

    fn send_sync_to(&mut self, eid: EndpointId)
        requires
            old(self).wf(),
        ensures
            final(self).wf(),
            final(self)@ == old(self)@.sent_to(eid),
            crate::mesh::frame_states(old(self)@.frame()) == Ok::<Seq<crate::node::SignedView>, CodecError>(
                old(self)@.announcements(),
            ),
    {
        let frame = self.sync_frame();
        self.outbound.push((eid, frame));
        assert(self@.outbound =~= old(self)@.sent_to(eid).outbound);
    }

    fn send_sync_to_all(&mut self)
        requires
            old(self).wf(),
        ensures
            final(self).wf(),
            final(self)@ == old(self)@.sent_to_all(),
            crate::mesh_effects::one_round(
                final(self)@.outbound,
                old(self)@.outbound.len() as int,
                final(self)@.outbound.len() as int,
                old(self)@.peers,
                old(self)@.frame(),
            ),
            crate::mesh::frame_states(old(self)@.frame()) == Ok::<Seq<crate::node::SignedView>, CodecError>(
                old(self)@.announcements(),
            ),
    {
        proof {
            crate::mesh_effects::every_connected_peer_is_told(self@);
        }
        let frame = self.sync_frame();
        let ghost before = self@;
        let ghost keys = self.peers.keys();
        let ghost up = |id: EndpointId| self.peers@[id].connected;
        proof {
            self.peers.lemma_keys();
            crate::id::lemma_listed_filter(keys, up);
            assert(Set::new(|id: EndpointId| keys.contains(id) && up(id)) =~= before.connected()) by {
                assert forall|id: EndpointId| keys.contains(id) <==> before.peers.contains_key(id) by {
                    assert(keys.to_set().contains(id) <==> keys.contains(id));
                }
            }
            assert(keys.take(0).filter(up) =~= Seq::empty()) by {
                reveal(Seq::filter);
            }
            assert(before.outbound + Seq::<EndpointId>::empty().map_values(|id: EndpointId| (id, frame@)) =~= before.outbound);
        }
        let mut i: usize = 0;
        while i < self.peers.len()
            invariant
                self.wf(),
                frame@ == before.frame(),
                before.inv(),
                keys == self.peers.keys(),
                self@ == (MeshView { outbound: self@.outbound, ..before }),
                up == (|id: EndpointId| before.peers[id].connected),
                self@.outbound == before.outbound + keys.take(i as int).filter(up).map_values(
                    |id: EndpointId| (id, frame@),
                ),
                i <= keys.len(),
            decreases keys.len() - i,
        {
            proof {
                self.peers.lemma_keys();
                assert(keys.take(i + 1).drop_last() =~= keys.take(i as int));
                reveal(Seq::filter);
            }
            let ghost so_far = self@.outbound;
            if self.peers.value_at(i).connected {
                let id = self.peers.key_at(i);
                self.outbound.push((id, copy_frame(&frame)));
                assert(self@.outbound =~= so_far.push((id, frame@)));
                assert(self@.outbound =~= before.outbound + keys.take(i + 1).filter(up).map_values(
                    |id: EndpointId| (id, frame@),
                ));
            }
            i = i + 1;
        }
        assert(keys.take(i as int) =~= keys);
    }

    /// k-th candidate host address for a node. anyone who knows the endpoint id can
    /// compute it. uniform over the space => collision probability 1/65533 per
    /// pair.
    pub fn candidate(endpoint_id: &EndpointId, k: u64) -> (r: u16)
        ensures
            r == crate::mesh::candidate_of(*endpoint_id, k),
            2 <= r <= 65_534,
    {
        let le = vstd::bytes::u64_to_le_bytes(k);
        let d = blake3_of(&endpoint_id.bytes, &le);
        let raw: u32 = d[0] as u32 + 256 * (d[1] as u32);
        // skip .0.0, .0.1, .255.255
        (2 + (raw % 65_533)) as u16
    }

    fn occupied_ips(&self) -> (r: HashSet<u16>)
        requires
            self.wf(),
        ensures
            r@ == self@.occupied(),
    {
        let mut r: HashSet<u16> = HashSet::new();
        let ghost keys = self.states.keys();
        let mut i: usize = 0;
        while i < self.states.len()
            invariant
                self.wf(),
                keys == self.states.keys(),
                i <= keys.len(),
                forall|ip: u16| #[trigger]
                    r@.contains(ip) <==> exists|j: int|
                        0 <= j < i && #[trigger] keys[j] != self.eid && self@.states[keys[j]].inner.ip_claim.spec_ip()
                            == Some(ip),
            decreases keys.len() - i,
        {
            proof {
                self.states.lemma_keys();
            }
            let ghost before = r@;
            let id = self.states.key_at(i);
            if id != self.eid {
                match self.states.value_at(i).get().ip_claim.ip() {
                    Some(ip) => {
                        r.insert(ip);
                    },
                    None => {},
                }
            }
            proof {
                assert forall|ip: u16| #[trigger]
                    r@.contains(ip) <==> exists|j: int|
                        0 <= j < i + 1 && #[trigger] keys[j] != self.eid
                            && self@.states[keys[j]].inner.ip_claim.spec_ip() == Some(ip) by {
                    if before.contains(ip) {
                        let j = choose|j: int|
                            0 <= j < i && #[trigger] keys[j] != self.eid
                                && self@.states[keys[j]].inner.ip_claim.spec_ip() == Some(ip);
                        assert(keys[j] != self.eid);
                    }
                    assert(keys[i as int] == id);
                }
            }
            i = i + 1;
        }
        proof {
            self.states.lemma_keys();
            assert forall|ip: u16| r@.contains(ip) <==> self@.occupied().contains(ip) by {
                if self@.occupied().contains(ip) {
                    let id = choose|id: EndpointId|
                        #![trigger self@.states.contains_key(id)]
                        self@.states.contains_key(id) && id != self.eid && self@.states[id].inner.ip_claim.spec_ip()
                            == Some(ip);
                    assert(keys.to_set().contains(id));
                    let j = choose|j: int| 0 <= j < keys.len() && keys[j] == id;
                    assert(keys[j] != self.eid);
                }
                if r@.contains(ip) {
                    let j = choose|j: int|
                        0 <= j < i && #[trigger] keys[j] != self.eid
                            && self@.states[keys[j]].inner.ip_claim.spec_ip() == Some(ip);
                    assert(self@.states.contains_key(keys[j]));
                }
            }
            assert(r@ =~= self@.occupied());
        }
        r
    }

    /// Claims the first free candidate from `start_k` on.
    fn take_ip(&mut self, start_k: u64, now_ms: WallMs) -> (r: Result<(), MeshError>)
        requires
            old(self).wf(),
            old(self)@.room(1, now_ms),
        ensures
            final(self).wf(),
            final(self)@ == old(self)@.taken(start_k, now_ms),
            r is Ok <==> crate::mesh::next_free(old(self)@.eid, old(self)@.occupied(), start_k) is Some,
            r matches Err(e) ==> e == MeshError::IpSpaceExhausted,
    {
        let occupied = self.occupied_ips();
        if all_taken(&occupied) {
            proof {
                assert forall|m: u64| !crate::mesh::first_free(self.eid, occupied@, start_k, m) by {
                    assert(2 <= crate::mesh::candidate_of(self.eid, m) <= 65_534);
                }
            }
            return Err(MeshError::IpSpaceExhausted);
        }
        let mut k: u64 = start_k;
        let mut ip: u16 = Self::candidate(&self.eid, k);
        while occupied.contains(&ip)
            invariant
                start_k <= k,
                ip == crate::mesh::candidate_of(self.eid, k),
                self@ == old(self)@,
                self.wf(),
                occupied@ == self@.occupied(),
                forall|j: u64|
                    start_k <= j < k ==> occupied@.contains(#[trigger] crate::mesh::candidate_of(self.eid, j)),
            decreases u64::MAX - k,
        {
            if k == u64::MAX {
                proof {
                    assert forall|m: u64| !crate::mesh::first_free(self.eid, occupied@, start_k, m) by {
                        assert(m <= k);
                    }
                }
                return Err(MeshError::IpSpaceExhausted);
            }
            k = k + 1;
            ip = Self::candidate(&self.eid, k);
        }
        proof {
            assert(crate::mesh::first_free(self.eid, occupied@, start_k, k));
            let m = choose|m: u64| crate::mesh::first_free(self.eid, occupied@, start_k, m);
            if m < k {
                assert(occupied@.contains(crate::mesh::candidate_of(self.eid, m)));
            } else if k < m {
                assert(occupied@.contains(crate::mesh::candidate_of(self.eid, k)));
            }
            crate::mesh_inv::taken_keeps(self@, start_k, now_ms);
        }
        let claim = Claim { ip, k, claimed_at_ms: now_ms };
        proof {
            crate::mesh_inv::written_keeps(self@, now_ms, IpClaim::Claimed(claim), self@.own().exposed_ports);
        }
        let ports = self.own().exposed_ports.clone();
        self.write_own(now_ms, IpClaim::Claimed(claim), ports);
        self.sync_tun();
        self.send_sync_to_all();
        Ok(())
    }

    fn live_peer_count(&self, now_ms: WallMs) -> (r: usize)
        requires
            self.wf(),
        ensures
            r == self@.live_peers(now_ms).len(),
    {
        let ghost keys = self.peers.keys();
        let ghost live = |id: EndpointId|
            id != self@.eid && (self@.peers[id].connected || crate::mesh::age(now_ms, self@.peers[id].last_fresh_ms)
                < self@.config.disconnect_timeout);
        proof {
            self.peers.lemma_keys();
            crate::id::lemma_listed_filter(keys, live);
            assert(Set::new(|id: EndpointId| keys.contains(id) && live(id)) =~= self@.live_peers(now_ms)) by {
                assert forall|id: EndpointId| keys.contains(id) <==> self@.peers.contains_key(id) by {
                    assert(keys.to_set().contains(id) <==> keys.contains(id));
                }
            }
            assert(keys.take(0).filter(live) =~= Seq::empty()) by {
                reveal(Seq::filter);
            }
        }
        let mut count: usize = 0;
        let mut i: usize = 0;
        while i < self.peers.len()
            invariant
                self.wf(),
                keys == self.peers.keys(),
                i <= keys.len(),
                count <= i,
                live == (|id: EndpointId|
                    id != self@.eid && (self@.peers[id].connected || crate::mesh::age(
                        now_ms,
                        self@.peers[id].last_fresh_ms,
                    ) < self@.config.disconnect_timeout)),
                count == keys.take(i as int).filter(live).len(),
            decreases keys.len() - i,
        {
            proof {
                self.peers.lemma_keys();
                assert(keys.take(i + 1).drop_last() =~= keys.take(i as int));
                reveal(Seq::filter);
            }
            let id = self.peers.key_at(i);
            let meta = self.peers.value_at(i);
            if id != self.eid && (meta.connected || now_ms.saturating_sub(meta.last_fresh_ms)
                < self.config.disconnect_timeout) {
                count = count + 1;
            }
            i = i + 1;
        }
        assert(keys.take(i as int) =~= keys);
        count
    }

    fn maybe_claim_ip(&mut self, now_ms: WallMs)
        requires
            old(self).wf(),
            old(self)@.own().ip_claim is Claimed || old(self)@.room(1, now_ms),
        ensures
            final(self).wf(),
            final(self)@ == old(self)@.maybe_claimed(now_ms),
    {
        if self.own().ip_claim.claim().is_some() {
            self.sync_tun();
            return;
        }
        let live_peers = self.live_peer_count(now_ms);
        let ready = live_peers >= self.config.min_viable_network && self.quiet_ticks >= self.config.settle_ticks;
        if !ready {
            return;
        }
        let _ = self.take_ip(0, now_ms);
    }

    fn expire_departed(&mut self, now_ms: WallMs)
        requires
            old(self).wf(),
        ensures
            final(self).wf(),
            final(self)@ == old(self)@.expired(now_ms),
    {
        let ghost before = self@;
        let ghost keys = self.peers.keys();
        let ghost left = |id: EndpointId|
            id != before.eid && !before.peers[id].connected && crate::mesh::age(now_ms, before.peers[id].last_fresh_ms)
                >= before.config.disconnect_timeout;
        proof {
            self.peers.lemma_keys();
            crate::id::lemma_listed_filter(keys, left);
            assert(Set::new(|id: EndpointId| keys.contains(id) && left(id)) =~= before.departed(now_ms)) by {
                assert forall|id: EndpointId| keys.contains(id) <==> before.peers.contains_key(id) by {
                    assert(keys.to_set().contains(id) <==> keys.contains(id));
                }
            }
            assert(keys.take(0).filter(left) =~= Seq::empty()) by {
                reveal(Seq::filter);
            }
        }
        let mut gone: Vec<EndpointId> = Vec::new();
        let mut i: usize = 0;
        while i < self.peers.len()
            invariant
                self.wf(),
                self@ == before,
                keys == self.peers.keys(),
                i <= keys.len(),
                left == (|id: EndpointId|
                    id != before.eid && !before.peers[id].connected && crate::mesh::age(
                        now_ms,
                        before.peers[id].last_fresh_ms,
                    ) >= before.config.disconnect_timeout),
                gone@ == keys.take(i as int).filter(left),
            decreases keys.len() - i,
        {
            proof {
                self.peers.lemma_keys();
                assert(keys.take(i + 1).drop_last() =~= keys.take(i as int));
                reveal(Seq::filter);
            }
            let id = self.peers.key_at(i);
            let meta = self.peers.value_at(i);
            if id != self.eid && !meta.connected && now_ms.saturating_sub(meta.last_fresh_ms)
                >= self.config.disconnect_timeout {
                gone.push(id);
            }
            i = i + 1;
        }
        proof {
            assert(keys.take(i as int) =~= keys);
            assert(gone@ == crate::id::listed(before.departed(now_ms)));
            assert(gone@.to_set() =~= before.departed(now_ms));
            assert(before.peers.remove_keys(gone@.take(0).to_set()) =~= before.peers);
            assert(before.states.remove_keys(gone@.take(0).to_set()) =~= before.states);
            assert(before.events =~= before.events + gone@.take(0).map_values(
                |id: EndpointId| crate::mesh::EventView::PeerDisconnected { peer: id },
            ));
        }
        let mut j: usize = 0;
        while j < gone.len()
            invariant
                self.ordered(),
                j <= gone@.len(),
                self@ == (MeshView {
                    peers: before.peers.remove_keys(gone@.take(j as int).to_set()),
                    states: before.states.remove_keys(gone@.take(j as int).to_set()),
                    events: before.events + gone@.take(j as int).map_values(
                        |id: EndpointId| crate::mesh::EventView::PeerDisconnected { peer: id },
                    ),
                    quiet_ticks: if j == 0 {
                        before.quiet_ticks
                    } else {
                        0
                    },
                    ..before
                }),
            decreases gone@.len() - j,
        {
            let ghost prev = self@;
            let eid = gone[j];
            self.peers.remove(&eid);
            self.states.remove(&eid);
            self.events.push(MeshEvent::PeerDisconnected { peer: eid });
            self.quiet_ticks = 0;
            proof {
                let a = gone@.take(j as int);
                let b = gone@.take(j + 1);
                assert(b =~= a.push(eid));
                assert(b.to_set() =~= a.to_set().insert(eid)) by {
                    broadcast use vstd::seq_lib::group_seq_properties;

                }
                assert(self@.peers =~= before.peers.remove_keys(b.to_set()));
                assert(self@.states =~= prev.states.remove(eid));
                assert(self@.states =~= before.states.remove_keys(b.to_set()));
                assert(self@.events =~= prev.events.push(crate::mesh::EventView::PeerDisconnected { peer: eid }));
                assert(self@.events =~= before.events + b.map_values(
                    |id: EndpointId| crate::mesh::EventView::PeerDisconnected { peer: id },
                ));
            }
            j = j + 1;
        }
        proof {
            assert(gone@.take(j as int) =~= gone@);
            crate::mesh_inv::expired_keeps(before, now_ms);
            assert(self@ =~= before.expired(now_ms));
        }
    }

    /// One tick of the clock: departed peers go, the own announcement is renewed, an
    /// address is taken if it is time, and everyone connected gets a frame.
    pub fn tick(&mut self, now_ms: WallMs)
        requires
            old(self).wf(),
            old(self)@.room(2, now_ms),
        ensures
            final(self).wf(),
            final(self)@ == old(self)@.ticked(now_ms),
            !crate::mesh_effects::took_address(old(self)@, final(self)@) ==> crate::mesh_effects::one_round(
                final(self)@.outbound,
                old(self)@.outbound.len() as int,
                final(self)@.outbound.len() as int,
                final(self)@.peers,
                final(self)@.frame(),
            ),
    {
        proof {
            crate::mesh_effects::ticks_are_told(self@, now_ms);
            crate::mesh_inv::expired_keeps(self@, now_ms);
        }
        self.expire_departed(now_ms);
        proof {
            crate::mesh_inv::written_keeps(self@, now_ms, self@.own().ip_claim, self@.own().exposed_ports);
        }
        let claim = self.own().ip_claim;
        let ports = self.own().exposed_ports.clone();
        self.write_own(now_ms, claim, ports);
        self.quiet_ticks = self.quiet_ticks.saturating_add(1);
        self.maybe_claim_ip(now_ms);
        self.send_sync_to_all();
    }

    /// Announces other ports, unless they are the same.
    pub fn set_exposed_ports(&mut self, ports: Ports, now_ms: WallMs)
        requires
            old(self).wf(),
            old(self)@.room(1, now_ms),
        ensures
            final(self).wf(),
            final(self)@ == (if old(self)@.own().exposed_ports == ports@ {
                old(self)@
            } else {
                old(self)@.written(now_ms, old(self)@.own().ip_claim, ports@).sent_to_all()
            }),
            old(self)@.own().exposed_ports != ports@ ==> crate::mesh_effects::one_round(
                final(self)@.outbound,
                old(self)@.outbound.len() as int,
                final(self)@.outbound.len() as int,
                old(self)@.peers,
                final(self)@.frame(),
            ),
    {
        proof {
            crate::mesh_effects::changed_ports_are_told(self@, now_ms, ports@);
        }
        if self.own().exposed_ports == ports {
            return;
        }
        proof {
            crate::mesh_inv::written_keeps(self@, now_ms, self@.own().ip_claim, ports@);
        }
        let claim = self.own().ip_claim;
        self.write_own(now_ms, claim, ports);
        self.send_sync_to_all();
    }

    /// A node that starts again with what it kept.
    pub fn resume(secret_key: &SecretKey, config: Config, persisted: PersistedState, now_ms: WallMs) -> (r: Self)
        ensures
            r.wf(),
            r@ == MeshView::started(*secret_key, config, now_ms).written(
                now_ms,
                IpClaim::Claimed(persisted.claim),
                persisted.exposed_ports@,
            ),
    {
        let mut mesh = Self::new(secret_key, config, Some(now_ms));
        proof {
            crate::mesh_inv::written_keeps(
                mesh@,
                now_ms,
                IpClaim::Claimed(persisted.claim),
                persisted.exposed_ports@,
            );
        }
        mesh.write_own(now_ms, IpClaim::Claimed(persisted.claim), persisted.exposed_ports);
        mesh
    }

    /// A peer has connected: it gets a frame at once.
    pub fn on_peer_connected(&mut self, eid: EndpointId, now_ms: WallMs)
        requires
            old(self).wf(),
        ensures
            final(self).wf(),
            final(self)@ == old(self)@.joined(eid, now_ms),
            crate::mesh::frame_states(final(self)@.outbound.last().1) == Ok::<Seq<crate::node::SignedView>, CodecError>(
                final(self)@.announcements(),
            ),
    {
        let known = match self.peers.get(&eid) {
            Some(meta) => meta.connected,
            None => false,
        };
        self.peers.insert(eid, PeerMeta { connected: true, last_fresh_ms: now_ms });
        if !known {
            self.quiet_ticks = 0;
        }
        self.send_sync_to(eid);
    }

    /// A peer has disconnected.
    pub fn on_peer_disconnected(&mut self, eid: EndpointId)
        requires
            old(self).wf(),
        ensures
            final(self).wf(),
            final(self)@ == old(self)@.left(eid),
    {
        let meta = match self.peers.get(&eid) {
            Some(meta) => Some(*meta),
            None => None,
        };
        if let Some(meta) = meta {
            self.peers.insert(eid, PeerMeta { connected: false, last_fresh_ms: meta.last_fresh_ms });
        }
    }

    /// Takes the frames that wait to be sent.
    #[must_use]
    pub fn drain_outbound(&mut self) -> (r: Vec<(EndpointId, Frame)>)
        requires
            old(self).wf(),
        ensures
            final(self).wf(),
            final(self)@ == (MeshView { outbound: Seq::empty(), ..old(self)@ }),
            r@.map_values(|o: (EndpointId, Frame)| (o.0, o.1@)) == old(self)@.outbound,
    {
        let mut r: Vec<(EndpointId, Frame)> = Vec::new();
        std::mem::swap(&mut r, &mut self.outbound);
        assert(self@.outbound =~= Seq::empty());
        r
    }

    /// Takes the events that wait to be reported.
    #[must_use]
    pub fn drain_events(&mut self) -> (r: Vec<MeshEvent>)
        requires
            old(self).wf(),
        ensures
            final(self).wf(),
            final(self)@ == (MeshView { events: Seq::empty(), ..old(self)@ }),
            r@.map_values(|e: MeshEvent| e@) == old(self)@.events,
    {
        let mut r: Vec<MeshEvent> = Vec::new();
        std::mem::swap(&mut r, &mut self.events);
        assert(self@.events =~= Seq::empty());
        r
    }

    /// All announcements that this node knows, by ascending author.
    pub fn get_node_states(&self) -> (r: Vec<&NodeState>)
        requires
            self.wf(),
        ensures
            r@.len() == self@.announcements().len(),
            forall|i: int| 0 <= i < r@.len() ==> (#[trigger] r@[i])@ == self@.announcements()[i].inner,
    {
        proof {
            self.states.lemma_keys();
            assert(self.states@.dom() =~= self@.states.dom());
        }
        let mut r: Vec<&NodeState> = Vec::new();
        let mut i: usize = 0;
        while i < self.states.len()
            invariant
                self.wf(),
                self.states.keys() == crate::id::listed(self@.states.dom()),
                i <= self.states.keys().len(),
                r@.len() == i,
                forall|j: int| 0 <= j < i ==> (#[trigger] r@[j])@ == self@.announcements()[j].inner,
            decreases self.states.keys().len() - i,
        {
            proof {
                self.states.lemma_keys();
            }
            r.push(self.states.value_at(i).get());
            i = i + 1;
        }
        r
    }

    /// LWW merge for one author, returns true if view changed
    pub fn merge_one(&mut self, signed: SignedNodeState, now_ms: WallMs) -> (r: Result<bool, MeshError>)
        requires
            old(self).wf(),
        ensures
            final(self).wf(),
            r == old(self)@.merge_answer(signed@),
            final(self)@ == old(self)@.merged(signed@, now_ms),
    {
        let ghost before = self@;
        let ghost incoming = signed@;
        let signed = match signed.verify() {
            Ok(signed) => signed,
            Err(e) => {
                return Err(e);
            },
        };
        let author = signed.get().endpoint_id;
        if author == self.eid {
            return Ok(false);
        }
        proof {
            crate::mesh_inv::merged_keeps(before, incoming, now_ms);
        }
        let mut claim_change = true;
        let mut semantic_change = true;
        if let Some(old) = self.states.get(&author) {
            let prev = old.get();
            // if same or stale version, no change
            if !prev.version.is_older(&signed.get().version) {
                return Ok(false);
            }
            claim_change = prev.ip_claim != signed.get().ip_claim;
            semantic_change = claim_change || !(prev.exposed_ports == signed.get().exposed_ports);
        }
        let connected = match self.peers.get(&author) {
            Some(meta) => meta.connected,
            None => false,
        };
        let state = signed.get().clone();
        self.states.insert(author, signed);
        self.peers.insert(author, PeerMeta { connected, last_fresh_ms: now_ms });
        if claim_change {
            self.quiet_ticks = 0;
        }
        if semantic_change {
            self.events.push(MeshEvent::PeerChanged { peer: author, state });
        }
        proof {
            let target = before.merged(incoming, now_ms);
            assert(self@.states =~= target.states);
            assert(self@.events =~= target.events);
            assert(self@ =~= target);
        }
        Ok(semantic_change)
    }

    fn claimants(&self) -> (r: Vec<Claimant>)
        requires
            self.wf(),
        ensures
            r@ == self@.claimants(),
    {
        let ghost keys = self.states.keys();
        let ghost has = |id: EndpointId| self@.states[id].inner.ip_claim is Claimed;
        let ghost pair = |id: EndpointId| (id, self@.states[id].inner.ip_claim->Claimed_0);
        proof {
            self.states.lemma_keys();
            assert(self.states@.dom() =~= self@.states.dom());
            crate::id::lemma_listed_filter(keys, has);
            assert(Set::new(|id: EndpointId| keys.contains(id) && has(id)) =~= Set::new(
                |id: EndpointId|
                    self@.states.contains_key(id) && self@.states[id].inner.ip_claim is Claimed,
            )) by {
                assert forall|id: EndpointId| keys.contains(id) <==> self@.states.contains_key(id) by {
                    assert(keys.to_set().contains(id) <==> keys.contains(id));
                }
            }
            assert(keys.take(0).filter(has).map_values(pair) =~= Seq::empty()) by {
                reveal(Seq::filter);
            }
        }
        let mut r: Vec<Claimant> = Vec::new();
        let mut i: usize = 0;
        while i < self.states.len()
            invariant
                self.wf(),
                keys == self.states.keys(),
                i <= keys.len(),
                has == (|id: EndpointId| self@.states[id].inner.ip_claim is Claimed),
                pair == (|id: EndpointId| (id, self@.states[id].inner.ip_claim->Claimed_0)),
                r@ == keys.take(i as int).filter(has).map_values(pair),
            decreases keys.len() - i,
        {
            proof {
                self.states.lemma_keys();
                assert(keys.take(i + 1).drop_last() =~= keys.take(i as int));
                reveal(Seq::filter);
            }
            let ghost so_far = keys.take(i as int).filter(has);
            let id = self.states.key_at(i);
            if let Some(claim) = self.states.value_at(i).get().ip_claim.claim() {
                r.push((id, *claim));
                assert(r@ =~= so_far.push(id).map_values(pair));
            }
            i = i + 1;
        }
        assert(keys.take(i as int) =~= keys);
        r
    }

    /// Reports the losers of an address and drops what is known of their claims.
    fn drop_losers(&mut self, ip: u16, ranking: &Vec<Claimant>)
        requires
            old(self).wf(),
            ranking@.len() > 0,
        ensures
            final(self).wf(),
            final(self)@ == old(self)@.dropped(ip, ranking@.last().0, ranking@.drop_last()),
    {
        let n: usize = ranking.len() - 1;
        let winner = ranking[n].0;
        let ghost before = self@;
        let ghost losers = ranking@.drop_last();
        assert(losers.take(0) =~= Seq::empty());
        let mut j: usize = 0;
        while j < n
            invariant
                self.wf(),
                before.inv(),
                n == ranking@.len() - 1,
                losers == ranking@.drop_last(),
                winner == ranking@.last().0,
                j <= n,
                self@ == before.dropped(ip, winner, losers.take(j as int)),
            decreases n - j,
        {
            let ghost prev = self@;
            let loser = ranking[j].0;
            proof {
                assert(losers.take(j + 1).drop_last() =~= losers.take(j as int));
                crate::mesh_inv::dropped_keeps(before, ip, winner, losers.take(j + 1));
            }
            self.events.push(MeshEvent::ClaimResolved { ip, winner, loser });
            if loser != self.eid {
                // Drop the loser's claim locally, they'll re-announce. Stale duplicates that
                // reach us are ignored, since we only update peers with newer versions.
                // Until then our frames carry the edited announcement, which does not
                // verify any more: whoever reads it stops there.
                let known = match self.states.get(&loser) {
                    Some(state) => Some(state.clone()),
                    None => None,
                };
                if let Some(mut state) = known {
                    state.drop_claim();
                    self.states.insert(loser, state);
                }
            }
            proof {
                let target = before.dropped(ip, winner, losers.take(j + 1));
                assert(self@.events =~= target.events);
                assert(self@.states =~= target.states);
                assert(self@ =~= target);
            }
            j = j + 1;
        }
        assert(losers.take(j as int) =~= losers);
    }

    fn resolve_conflicts(&mut self, now_ms: WallMs)
        requires
            old(self).wf(),
            old(self)@.room(1, now_ms),
        ensures
            final(self).wf(),
            final(self)@ == old(self)@.resolved(now_ms),
    {
        let ghost before = self@;
        let claims = self.claimants();
        let range: u64 = self.config.simultaneous_range;
        let mut i_lost: Option<u64> = None;
        if let Some(claim) = self.own().ip_claim.claim() {
            let rivals = pick_claims(&claims, claim.ip);
            let ranking = rank_claims(range, &rivals);
            proof {
                crate::mesh_inv::own_claim_is_listed(before);
                crate::claims::lemma_ranked(range, rivals@);
            }
            if ranking[ranking.len() - 1].0 != self.eid {
                i_lost = Some(claim.k.saturating_add(1));
            }
        }
        let mut i: usize = 0;
        while i < claims.len()
            invariant
                self.wf(),
                before.inv(),
                i <= claims@.len(),
                range == before.config.simultaneous_range,
                self@ == before.settled(claims@, i as nat),
            decreases claims@.len() - i,
        {
            let ip: u16 = claims[i].1.ip;
            proof {
                crate::mesh_inv::settled_keeps(before, claims@, i as nat);
            }
            if !seen_before(&claims, i, ip) {
                let rivals = pick_claims(&claims, ip);
                let ranking = rank_claims(range, &rivals);
                proof {
                    crate::claims::lemma_ranked(range, rivals@);
                    crate::claims::lemma_claims_for(claims@, ip, i as int);
                }
                self.drop_losers(ip, &ranking);
            }
            i = i + 1;
        }
        proof {
            crate::mesh_inv::settled_keeps(before, claims@, claims@.len());
        }
        if let Some(next_k) = i_lost {
            let _ = self.take_ip(next_k, now_ms);
        }
    }

    /// Takes in a frame of a peer. Nothing happens on bytes that are no frame; the
    /// announcements before a forged one count.
    pub fn on_frame(&mut self, from: EndpointId, bytes: &[u8], now_ms: WallMs) -> (r: Result<(), MeshError>)
        requires
            old(self).wf(),
            old(self)@.room(1, now_ms),
        ensures
            final(self).wf(),
            r == old(self)@.frame_answer(bytes@, now_ms),
            final(self)@ == old(self)@.framed(from, bytes@, now_ms),
    {
        let ghost before = self@;
        let states = match read_frame(bytes) {
            Ok(states) => states,
            Err(e) => {
                return Err(MeshError::Codec(e));
            },
        };
        let ghost list = states@.map_values(|s: SignedNodeState| s@);
        proof {
            crate::mesh_inv::frame_authors_valid(bytes@);
            assert(list == crate::mesh::frame_states(bytes@).unwrap());
            assert(list.take(0) =~= Seq::empty());
        }
        let n: usize = states.len();
        let mut changed = false;
        let mut i: usize = 0;
        while i < n
            invariant
                self.wf(),
                before == old(self)@,
                before.inv(),
                i <= n,
                n == list.len(),
                states@.len() == n,
                list == states@.map_values(|s: SignedNodeState| s@),
                list == crate::mesh::frame_states(bytes@).unwrap(),
                crate::mesh::frame_states(bytes@) is Ok,
                before.merge_all_answer(list.take(i as int), now_ms) == Ok::<bool, MeshError>(changed),
                self@ == before.merged_all(list.take(i as int), now_ms),
            decreases n - i,
        {
            proof {
                assert(list.take(i + 1).drop_last() =~= list.take(i as int));
                assert(list.take(i + 1).last() == list[i as int]);
            }
            let signed = states[i].clone();
            match self.merge_one(signed, now_ms) {
                Ok(c) => {
                    changed = changed || c;
                },
                Err(e) => {
                    proof {
                        before.lemma_merge_stops(list, i + 1, now_ms);
                    }
                    return Err(e);
                },
            }
            i = i + 1;
        }
        proof {
            assert(list.take(i as int) =~= list);
            crate::mesh_inv::merged_all_keeps(before, list, now_ms);
        }
        let meta = match self.peers.get(&from) {
            Some(meta) => Some(*meta),
            None => None,
        };
        if let Some(meta) = meta {
            self.peers.insert(from, PeerMeta { connected: meta.connected, last_fresh_ms: now_ms });
        }
        if changed {
            proof {
                crate::mesh_inv::resolved_room(self@, now_ms);
            }
            self.resolve_conflicts(now_ms);
            self.maybe_claim_ip(now_ms);
        }
        Ok(())
    }
}

/// Whether every address that can be a candidate is among some addresses.
fn all_taken(occupied: &HashSet<u16>) -> (r: bool)
    ensures
        r == (forall|ip: u16| 2 <= ip <= 65_534 ==> #[trigger] occupied@.contains(ip)),
{
    let mut ip: u16 = 2;
    while ip <= 65_534
        invariant
            2 <= ip <= 65_535,
            forall|x: u16| 2 <= x < ip ==> #[trigger] occupied@.contains(x),
        decreases 65_535 - ip,
    {
        if !occupied.contains(&ip) {
            return false;
        }
        ip = ip + 1;
    }
    true
}

/// The announcements in a frame's bytes, or why there are none.
pub fn read_frame(bytes: &[u8]) -> (r: Result<Vec<SignedNodeState>, CodecError>)
    ensures
        r matches Ok(v) ==> crate::mesh::frame_states(bytes@) == Ok::<Seq<crate::node::SignedView>, CodecError>(
            v@.map_values(|s: SignedNodeState| s@),
        ),
        r matches Err(e) ==> crate::mesh::frame_states(bytes@) == Err::<Seq<crate::node::SignedView>, CodecError>(e),
{
    let (kind, rest) = match take_kind(bytes) {
        Ok(k) => k,
        Err(e) => {
            return Err(e);
        },
    };
    if kind != 0 {
        return Err(CodecError::Custom);
    }
    let list = match decode_states(rest) {
        Ok(list) => list,
        Err(e) => {
            return Err(e);
        },
    };
    let ghost contents = crate::wire::list_contents(list@);
    let mut states: Vec<SignedNodeState> = Vec::new();
    let n: usize = list.len();
    let mut i: usize = 0;
    while i < n
        invariant
            i <= n,
            n == list@.len(),
            contents == crate::wire::list_contents(list@),
            states@.len() == i,
            forall|j: int| 0 <= j < i ==> states@[j]@ == crate::mesh::signed_of(#[trigger] contents[j]),
        decreases n - i,
    {
        assert(contents[i as int] == crate::wire::signed_contents(list@[i as int]));
        let signed = SignedNodeState::from_parts(&list[i]);
        proof {
            crate::node::lemma_contents_injective(signed@, crate::mesh::signed_of(contents[i as int]));
        }
        states.push(signed);
        i = i + 1;
    }
    assert(states@.map_values(|s: SignedNodeState| s@) =~= contents.map_values(
        |c: crate::wire::SignedContents| crate::mesh::signed_of(c),
    ));
    Ok(states)
}

} // verus!
