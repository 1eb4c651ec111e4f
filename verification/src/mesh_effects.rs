//! What each event of the mesh does, told by the fields that it touches: who is sent what,
//! who is forgotten, what is merged, which address is taken, and what the device is told.
use vstd::prelude::*;
use crate::id::EndpointId;
use crate::mesh::{Config, EventView, MeshView, PeerMeta, TunDirective, TunState};
use crate::node::{Claim, IpClaim, NodeView, PortsView, SignedView, Version, WallMs};

verus! {

/// From `from` up to `to`, `outbound` holds one round of `frame`: exactly one for each
/// connected peer, and none for anybody else.
pub open spec fn one_round(
    outbound: Seq<(EndpointId, Seq<u8>)>,
    from: int,
    to: int,
    peers: Map<EndpointId, PeerMeta>,
    frame: Seq<u8>,
) -> bool {
    &&& 0 <= from <= to <= outbound.len()
    &&& forall|i: int|
        from <= i < to ==> peers.contains_key((#[trigger] outbound[i]).0) && peers[outbound[i].0].connected
            && outbound[i].1 == frame
    &&& forall|i: int, j: int|
        from <= i < j < to ==> (#[trigger] outbound[i]).0 != (#[trigger] outbound[j]).0
    &&& forall|id: EndpointId|
        #![trigger peers.contains_key(id)]
        peers.contains_key(id) && peers[id].connected ==> exists|i: int|
            from <= i < to && (#[trigger] outbound[i]).0 == id
}

/// `longer` starts with what stands in `shorter`.
pub open spec fn goes_on<A>(shorter: Seq<A>, longer: Seq<A>) -> bool {
    &&& shorter.len() <= longer.len()
    &&& forall|i: int| 0 <= i < shorter.len() ==> #[trigger] longer[i] == shorter[i]
}

/// Sending to all sends the frame once to each connected peer and to nobody else, and does
/// nothing more.
pub proof fn every_connected_peer_is_told(s: MeshView)
    requires
        s.inv(),
    ensures
        one_round(s.sent_to_all().outbound, s.outbound.len() as int, s.sent_to_all().outbound.len() as int, s.peers, s.frame()),
        goes_on(s.outbound, s.sent_to_all().outbound),
        s.sent_to_all() == (MeshView { outbound: s.sent_to_all().outbound, ..s }),
{
    let set = s.connected();
    assert(set =~= s.peers.dom().intersect(set));
    crate::id::lemma_listed_finite(set);
    let list = crate::id::listed(set);
    let n = s.outbound.len() as int;
    let out = s.sent_to_all().outbound;
    assert(forall|i: int| n <= i < out.len() ==> #[trigger] out[i] == (list[i - n], s.frame()));
    assert forall|i: int| n <= i < out.len() implies s.peers.contains_key((#[trigger] out[i]).0)
        && s.peers[out[i].0].connected by {
        assert(list.to_set().contains(list[i - n]));
    }
    assert forall|i: int, j: int| n <= i < j < out.len() implies (#[trigger] out[i]).0 != (#[trigger] out[j]).0 by {
        assert(list[i - n].precedes(list[j - n]));
        crate::id::lemma_precedes_irreflexive(list[i - n]);
    }
    assert forall|id: EndpointId|
        #![trigger s.peers.contains_key(id)]
        s.peers.contains_key(id) && s.peers[id].connected implies exists|i: int|
        n <= i < out.len() && (#[trigger] out[i]).0 == id by {
        assert(set.contains(id));
        assert(list.to_set().contains(id));
        let i = choose|i: int| 0 <= i < list.len() && list[i] == id;
        assert(out[n + i].0 == id);
    }
}

/// The frame depends on the announcements alone.
pub proof fn lemma_same_frame(s: MeshView, t: MeshView)
    requires
        s.states == t.states,
    ensures
        s.frame() == t.frame(),
{
    assert(s.announcements() =~= t.announcements());
}

/// A change of the ports is announced under a newer version, and every connected peer gets
/// the frame that tells it.
pub proof fn changed_ports_are_told(s: MeshView, now: WallMs, ports: PortsView)
    requires
        s.inv(),
        s.room(1, now),
    ensures
        ({
            let t = s.written(now, s.own().ip_claim, ports).sent_to_all();
            &&& one_round(t.outbound, s.outbound.len() as int, t.outbound.len() as int, t.peers, t.frame())
            &&& goes_on(s.outbound, t.outbound)
            &&& t.peers == s.peers
            &&& follows(s.states[s.eid].inner.version, now, t.states[s.eid].inner.version)
            &&& t.states[s.eid].inner.exposed_ports == ports
            &&& t.states[s.eid].inner.ip_claim == s.states[s.eid].inner.ip_claim
        }),
{
    crate::mesh_inv::written_keeps(s, now, s.own().ip_claim, ports);
    let w = s.written(now, s.own().ip_claim, ports);
    every_connected_peer_is_told(w);
    lemma_same_frame(w, w.sent_to_all());
}

/// The version that follows `version` at `now`: the clock, or where the clock has not moved
/// on, the next count.
pub open spec fn follows(version: Version, now: WallMs, next: Version) -> bool {
    if now > version.wall_ms {
        next.wall_ms == now && next.counter == 0
    } else {
        next.wall_ms == version.wall_ms && next.counter == version.counter + 1
    }
}

/// A node that announces itself signs what it was told to announce, under the version that
/// follows its last one. Nobody else's announcement and nothing else changes.
pub proof fn announcements_are_renewed(s: MeshView, now: WallMs, claim: IpClaim, ports: PortsView)
    requires
        s.inv(),
        s.room(1, now),
    ensures
        ({
            let t = s.written(now, claim, ports);
            let mine = t.states[s.eid];
            &&& t == (MeshView { states: t.states, ..s })
            &&& mine.inner.endpoint_id == s.eid
            &&& follows(s.states[s.eid].inner.version, now, mine.inner.version)
            &&& mine.inner.ip_claim == claim
            &&& mine.inner.exposed_ports == ports
            &&& (mine.signature.r, mine.signature.s) == crate::keys::signature_of(
                s.key.bytes,
                mine.inner.signed_bytes(),
            )
            &&& forall|id: EndpointId| #[trigger]
                t.states.contains_key(id) <==> s.states.contains_key(id)
            &&& forall|id: EndpointId| id != s.eid ==> #[trigger] t.states[id] == s.states[id]
        }),
{
}

/// A node starts alone: it knows only its own announcement, which claims no address and opens
/// all ports, no peer, and its device is down.
pub proof fn nodes_start_alone(key: crate::keys::SecretKey, config: Config, now: WallMs)
    ensures
        ({
            let t = MeshView::started(key, config, now);
            &&& t.eid == key.id() && t.key == key && t.config == config
            &&& forall|id: EndpointId| #[trigger] t.states.contains_key(id) <==> id == key.id()
            &&& t.states[key.id()].inner == (NodeView {
                endpoint_id: key.id(),
                version: Version { wall_ms: now, counter: 1 },
                ip_claim: IpClaim::Unclaimed,
                exposed_ports: PortsView::Any,
            })
            &&& forall|id: EndpointId| !(#[trigger] t.peers.contains_key(id))
            &&& t.tun == TunState::Down
            &&& t.quiet_ticks == 0
            &&& t.outbound.len() == 0
            &&& t.events.len() == 0
        }),
{
}

/// The peer is not this node, is not connected, and was not heard of for the whole time-out.
pub open spec fn is_gone(s: MeshView, now: WallMs, id: EndpointId) -> bool {
    &&& s.peers.contains_key(id)
    &&& id != s.eid
    &&& !s.peers[id].connected
    &&& now - s.peers[id].last_fresh_ms >= s.config.disconnect_timeout || s.config.disconnect_timeout == 0
}

/// Exactly the peers that are gone are forgotten, with their announcements, and each is
/// reported once. If there was one, the view is unsettled; if there was none, nothing
/// changes.
pub proof fn gone_peers_are_forgotten(s: MeshView, now: WallMs)
    requires
        s.inv(),
    ensures
        ({
            let t = s.expired(now);
            let n = s.events.len() as int;
            &&& forall|id: EndpointId| #[trigger]
                t.peers.contains_key(id) <==> s.peers.contains_key(id) && !is_gone(s, now, id)
            &&& forall|id: EndpointId| #[trigger] t.peers.contains_key(id) ==> t.peers[id] == s.peers[id]
            &&& forall|id: EndpointId| #[trigger]
                t.states.contains_key(id) <==> s.states.contains_key(id) && !is_gone(s, now, id)
            &&& forall|id: EndpointId| #[trigger] t.states.contains_key(id) ==> t.states[id] == s.states[id]
            &&& goes_on(s.events, t.events)
            &&& forall|i: int|
                n <= i < t.events.len() ==> ((#[trigger] t.events[i]) matches EventView::PeerDisconnected { peer }
                    && is_gone(s, now, peer))
            &&& forall|i: int, j: int|
                n <= i < j < t.events.len() ==> #[trigger] t.events[i] != #[trigger] t.events[j]
            &&& forall|id: EndpointId| #[trigger]
                is_gone(s, now, id) ==> exists|i: int|
                    n <= i < t.events.len() && (#[trigger] t.events[i]) == (EventView::PeerDisconnected { peer: id })
            &&& t.quiet_ticks == (if exists|id: EndpointId| is_gone(s, now, id) {
                0
            } else {
                s.quiet_ticks
            })
            &&& t == (MeshView { peers: t.peers, states: t.states, events: t.events, quiet_ticks: t.quiet_ticks, ..s })
            &&& (forall|id: EndpointId| !is_gone(s, now, id)) ==> t == s
        }),
{
    let t = s.expired(now);
    let gone = s.departed(now);
    let n = s.events.len() as int;
    assert forall|id: EndpointId| gone.contains(id) <==> #[trigger] is_gone(s, now, id) by {}
    assert(gone =~= s.peers.dom().intersect(gone));
    crate::id::lemma_listed_finite(gone);
    let list = crate::id::listed(gone);
    assert(forall|i: int|
        n <= i < t.events.len() ==> #[trigger] t.events[i] == (EventView::PeerDisconnected { peer: list[i - n] }));
    assert forall|i: int| 0 <= i < list.len() implies is_gone(s, now, #[trigger] list[i]) by {
        assert(list.to_set().contains(list[i]));
    }
    assert forall|i: int, j: int| n <= i < j < t.events.len() implies #[trigger] t.events[i] != #[trigger] t.events[j] by {
        assert(list[i - n].precedes(list[j - n]));
        crate::id::lemma_precedes_irreflexive(list[i - n]);
    }
    assert forall|id: EndpointId| #[trigger] is_gone(s, now, id) implies exists|i: int|
        n <= i < t.events.len() && (#[trigger] t.events[i]) == (EventView::PeerDisconnected { peer: id }) by {
        assert(list.to_set().contains(id));
        let i = choose|i: int| 0 <= i < list.len() && list[i] == id;
        assert(t.events[n + i] == (EventView::PeerDisconnected { peer: id }));
    }
    if list.len() > 0 {
        assert(is_gone(s, now, list[0]));
    }
    if forall|id: EndpointId| !is_gone(s, now, id) {
        if list.len() > 0 {
            assert(is_gone(s, now, list[0]));
        }
        assert(t.peers =~= s.peers);
        assert(t.states =~= s.states);
        assert(t.events =~= s.events);
    }
}

/// A peer counts as there exactly if it is another node that is connected or was heard of
/// within the time-out.
pub proof fn who_is_there(s: MeshView, now: WallMs, id: EndpointId)
    ensures
        s.live_peers(now).contains(id) <==> {
            &&& s.peers.contains_key(id)
            &&& id != s.eid
            &&& s.peers[id].connected || now - s.peers[id].last_fresh_ms < s.config.disconnect_timeout
                && s.config.disconnect_timeout > 0
        },
{
}

/// Another node claims `ip`.
pub open spec fn claimed_elsewhere(s: MeshView, ip: u16) -> bool {
    exists|id: EndpointId|
        #![trigger s.states.contains_key(id)]
        s.states.contains_key(id) && id != s.eid && (s.states[id].inner.ip_claim matches IpClaim::Claimed(c) && c.ip
            == ip)
}

/// The address that the `k`-th digest of a node's identity gives.
pub open spec fn digest_address(id: EndpointId, k: u64, ip: u16) -> bool {
    let digest = crate::hashes::blake3_digest(id.bytes@ + vstd::bytes::spec_u64_to_le_bytes(k));
    ip == 2 + (digest@[0] + digest@[1] * 256) % 65_533
}

/// Candidates are made of a digest of the identity and the index, within the usable
/// addresses of the subnet.
pub proof fn candidates_come_from_digests(id: EndpointId, k: u64)
    ensures
        digest_address(id, k, crate::mesh::candidate_of(id, k)),
        2 <= crate::mesh::candidate_of(id, k) <= 65_534,
{
}

proof fn lemma_claimed_elsewhere(s: MeshView)
    ensures
        forall|ip: u16| #[trigger] s.occupied().contains(ip) <==> claimed_elsewhere(s, ip),
{
    assert forall|ip: u16| #[trigger] s.occupied().contains(ip) <==> claimed_elsewhere(s, ip) by {
        if s.occupied().contains(ip) {
            let id = choose|id: EndpointId|
                #![trigger s.states.contains_key(id)]
                s.states.contains_key(id) && id != s.eid && s.states[id].inner.ip_claim.spec_ip() == Some(ip);
            assert(s.states.contains_key(id));
        }
        if claimed_elsewhere(s, ip) {
            let id = choose|id: EndpointId|
                #![trigger s.states.contains_key(id)]
                s.states.contains_key(id) && id != s.eid && (s.states[id].inner.ip_claim matches IpClaim::Claimed(c)
                    && c.ip == ip);
            assert(s.states.contains_key(id));
        }
    }
}

/// `k` is the first index from `start` on whose candidate no other node claims.
pub open spec fn first_unclaimed(s: MeshView, start: u64, k: u64) -> bool {
    &&& start <= k
    &&& !claimed_elsewhere(s, crate::mesh::candidate_of(s.eid, k))
    &&& forall|j: u64| start <= j < k ==> claimed_elsewhere(s, #[trigger] crate::mesh::candidate_of(s.eid, j))
}

proof fn lemma_first_unclaimed(s: MeshView, start: u64, k: u64)
    requires
        first_unclaimed(s, start, k),
    ensures
        crate::mesh::next_free(s.eid, s.occupied(), start) == Some(k),
{
    lemma_claimed_elsewhere(s);
    assert(crate::mesh::first_free(s.eid, s.occupied(), start, k));
    let m = crate::mesh::next_free(s.eid, s.occupied(), start).unwrap();
    assert(crate::mesh::first_free(s.eid, s.occupied(), start, m));
    if m < k {
        assert(s.occupied().contains(crate::mesh::candidate_of(s.eid, m)));
    } else if k < m {
        assert(s.occupied().contains(crate::mesh::candidate_of(s.eid, k)));
    }
}

/// The candidate that is found free is the first one that no other node claims.
pub proof fn lemma_free_is_unclaimed(s: MeshView, start: u64, k: u64)
    requires
        crate::mesh::next_free(s.eid, s.occupied(), start) == Some(k),
    ensures
        first_unclaimed(s, start, k),
{
    lemma_claimed_elsewhere(s);
    assert(crate::mesh::first_free(s.eid, s.occupied(), start, k));
}

/// A node that takes an address takes the candidate with the first index that no other node
/// claims, from the time on at which it does so; its ports stay, and it says so to all.
/// Nothing but its own announcement, the device and what is sent and reported changes.
pub proof fn first_unclaimed_candidate_is_taken(s: MeshView, start: u64, k: u64, now: WallMs)
    requires
        s.inv(),
        s.room(1, now),
        first_unclaimed(s, start, k),
    ensures
        ({
            let t = s.taken(start, now);
            let ip = crate::mesh::candidate_of(s.eid, k);
            &&& t.states[s.eid].inner.ip_claim == IpClaim::Claimed(Claim { ip, k, claimed_at_ms: now })
            &&& t.states[s.eid].inner.exposed_ports == s.states[s.eid].inner.exposed_ports
            &&& follows(s.states[s.eid].inner.version, now, t.states[s.eid].inner.version)
            &&& forall|id: EndpointId| #[trigger] t.states.contains_key(id) <==> s.states.contains_key(id)
            &&& forall|id: EndpointId| id != s.eid ==> #[trigger] t.states[id] == s.states[id]
            &&& t.tun == (TunState::Up { ip })
            &&& goes_on(s.events, t.events)
            &&& t == (MeshView { states: t.states, tun: t.tun, outbound: t.outbound, events: t.events, ..s })
            &&& one_round(t.outbound, s.outbound.len() as int, t.outbound.len() as int, s.peers, t.frame())
            &&& goes_on(s.outbound, t.outbound)
        }),
{
    lemma_first_unclaimed(s, start, k);
    let claim = IpClaim::Claimed(Claim { ip: crate::mesh::candidate_of(s.eid, k), k, claimed_at_ms: now });
    let w = s.written(now, claim, s.own().exposed_ports);
    announcements_are_renewed(s, now, claim, s.own().exposed_ports);
    crate::mesh_inv::written_keeps(s, now, claim, s.own().exposed_ports);
    crate::mesh_inv::tun_synced_keeps(w);
    every_connected_peer_is_told(w.tun_synced());
    lemma_same_frame(w.tun_synced(), w.tun_synced().sent_to_all());
}

/// A node whose candidates are all claimed by others takes none of them.
pub proof fn claimed_candidates_are_not_taken(s: MeshView, start: u64, now: WallMs)
    requires
        forall|k: u64| start <= k ==> claimed_elsewhere(s, #[trigger] crate::mesh::candidate_of(s.eid, k)),
    ensures
        s.taken(start, now) == s,
{
    lemma_claimed_elsewhere(s);
    if crate::mesh::next_free(s.eid, s.occupied(), start) is Some {
        let k = crate::mesh::next_free(s.eid, s.occupied(), start).unwrap();
        assert(crate::mesh::first_free(s.eid, s.occupied(), start, k));
        assert(s.occupied().contains(crate::mesh::candidate_of(s.eid, k)));
    }
}

/// The device is told exactly what has changed: it is configured when there is an address and
/// it is down, moved when the address is another one, taken down when there is no address,
/// and left alone otherwise.
pub proof fn device_follows_the_claim(s: MeshView)
    ensures
        ({
            let t = s.tun_synced();
            let n = s.events.len() as int;
            &&& t == (MeshView { tun: t.tun, events: t.events, ..s })
            &&& match (s.tun, s.states[s.eid].inner.ip_claim) {
                (TunState::Down, IpClaim::Claimed(c)) => {
                    &&& t.tun == (TunState::Up { ip: c.ip })
                    &&& t.events == s.events.push(EventView::Tun(TunDirective::Configure { ip: c.ip }))
                },
                (TunState::Up { ip }, IpClaim::Claimed(c)) => {
                    &&& t.tun == (TunState::Up { ip: c.ip })
                    &&& t.events == (if ip == c.ip {
                        s.events
                    } else {
                        s.events.push(EventView::Tun(TunDirective::Reconfigure { from: ip, to: c.ip }))
                    })
                },
                (TunState::Up { ip }, IpClaim::Unclaimed) => {
                    &&& t.tun == TunState::Down
                    &&& t.events == s.events.push(EventView::Tun(TunDirective::Teardown { from: ip }))
                },
                (TunState::Down, IpClaim::Unclaimed) => t == s,
            }
        }),
{
}

/// A peer that connects is there from now on, and gets the frame; the view is unsettled
/// unless it was connected before.
pub proof fn peers_that_join_are_greeted(s: MeshView, id: EndpointId, now: WallMs)
    ensures
        ({
            let t = s.joined(id, now);
            &&& t.peers.contains_key(id) && t.peers[id].connected && t.peers[id].last_fresh_ms == now
            &&& forall|other: EndpointId| other != id ==> (#[trigger] t.peers.contains_key(other)
                <==> s.peers.contains_key(other)) && t.peers[other] == s.peers[other]
            &&& t.outbound == s.outbound.push((id, s.frame()))
            &&& t.quiet_ticks == (if s.peers.contains_key(id) && s.peers[id].connected {
                s.quiet_ticks
            } else {
                0
            })
            &&& t == (MeshView { peers: t.peers, outbound: t.outbound, quiet_ticks: t.quiet_ticks, ..s })
        }),
{
    let t = s.joined(id, now);
    assert(t.frame() == s.frame()) by {
        lemma_same_frame(t, s);
    }
    let before = MeshView { outbound: s.outbound, ..t };
    lemma_same_frame(before, s);
}

/// A peer that disconnects is known on, with the time at which it was last heard of, and
/// nothing else changes.
pub proof fn peers_that_leave_are_remembered(s: MeshView, id: EndpointId)
    ensures
        ({
            let t = s.left(id);
            &&& forall|other: EndpointId| #[trigger] t.peers.contains_key(other) <==> s.peers.contains_key(other)
            &&& forall|other: EndpointId| other != id ==> #[trigger] t.peers[other] == s.peers[other]
            &&& s.peers.contains_key(id) ==> !t.peers[id].connected && t.peers[id].last_fresh_ms
                == s.peers[id].last_fresh_ms
            &&& t == (MeshView { peers: t.peers, ..s })
        }),
{
}

/// A frame tells everything that the node knows: the announcement that is filed under each
/// author, once, by ascending author, and nothing else.
pub proof fn frames_hold_every_announcement(s: MeshView)
    requires
        s.inv(),
    ensures
        ({
            let list = s.announcements();
            &&& forall|i: int|
                0 <= i < list.len() ==> s.states.contains_key((#[trigger] list[i]).inner.endpoint_id) && list[i]
                    == s.states[list[i].inner.endpoint_id]
            &&& forall|i: int, j: int|
                0 <= i < j < list.len() ==> (#[trigger] list[i]).inner.endpoint_id.precedes(
                    (#[trigger] list[j]).inner.endpoint_id,
                )
            &&& forall|id: EndpointId| #[trigger]
                s.states.contains_key(id) ==> exists|i: int| 0 <= i < list.len() && #[trigger] list[i] == s.states[id]
            &&& s.frame() == crate::wire::frame_encoding((0, list.map_values(|a: SignedView| a.contents())))
        }),
{
    let ids = crate::id::listed(s.states.dom());
    let list = s.announcements();
    crate::id::lemma_listed_finite(s.states.dom());
    assert forall|i: int| 0 <= i < ids.len() implies s.states.contains_key(#[trigger] ids[i])
        && list[i].inner.endpoint_id == ids[i] by {
        assert(ids.to_set().contains(ids[i]));
    }
    assert forall|i: int| 0 <= i < list.len() implies s.states.contains_key((#[trigger] list[i]).inner.endpoint_id)
        && list[i] == s.states[list[i].inner.endpoint_id] by {
        assert(s.states.contains_key(ids[i]));
    }
    assert forall|i: int, j: int| 0 <= i < j < list.len() implies (#[trigger] list[i]).inner.endpoint_id.precedes(
        (#[trigger] list[j]).inner.endpoint_id,
    ) by {
        assert(s.states.contains_key(ids[i]) && s.states.contains_key(ids[j]));
        assert(ids[i].precedes(ids[j]));
    }
    assert forall|id: EndpointId| #[trigger] s.states.contains_key(id) implies exists|i: int|
        0 <= i < list.len() && #[trigger] list[i] == s.states[id] by {
        assert(ids.to_set().contains(id));
        let i = choose|i: int| 0 <= i < ids.len() && ids[i] == id;
        assert(list[i] == s.states[id]);
    }
}

/// The two steps of a tick before an address is taken: forgetting and announcing.
proof fn lemma_before_claiming(s: MeshView, now: WallMs) -> (t: MeshView)
    requires
        s.inv(),
        s.room(2, now),
    ensures
        t.inv(),
        t.room(1, now),
        s.ticked(now) == t.maybe_claimed(now).sent_to_all(),
        forall|id: EndpointId| #[trigger]
            t.peers.contains_key(id) <==> s.peers.contains_key(id) && !is_gone(s, now, id),
        forall|id: EndpointId| #[trigger] t.peers.contains_key(id) ==> t.peers[id] == s.peers[id],
        forall|id: EndpointId| #[trigger]
            t.states.contains_key(id) <==> s.states.contains_key(id) && !is_gone(s, now, id),
        forall|id: EndpointId| #[trigger] t.states.contains_key(id) && id != s.eid ==> t.states[id] == s.states[id],
        follows(s.states[s.eid].inner.version, now, t.states[s.eid].inner.version),
        t.states[s.eid].inner.ip_claim == s.states[s.eid].inner.ip_claim,
        t.states[s.eid].inner.exposed_ports == s.states[s.eid].inner.exposed_ports,
        t.quiet_ticks == settled_ticks(s, now),
        t.events == s.expired(now).events,
        t.outbound == s.outbound,
        t.eid == s.eid,
        t.key == s.key,
        t.config == s.config,
        t.tun == s.tun,
{
    crate::mesh_inv::expired_keeps(s, now);
    gone_peers_are_forgotten(s, now);
    let a = s.expired(now);
    announcements_are_renewed(a, now, a.own().ip_claim, a.own().exposed_ports);
    crate::mesh_inv::written_keeps(a, now, a.own().ip_claim, a.own().exposed_ports);
    let b = a.written(now, a.own().ip_claim, a.own().exposed_ports);
    let c = MeshView {
        quiet_ticks: if b.quiet_ticks < u64::MAX {
            (b.quiet_ticks + 1) as u64
        } else {
            u64::MAX
        },
        ..b
    };
    c
}

/// For how many ticks nothing has changed, at the end of a tick: one more than before, and
/// one if a peer has gone. The count stays at the largest number.
pub open spec fn settled_ticks(s: MeshView, now: WallMs) -> u64 {
    if exists|id: EndpointId| is_gone(s, now, id) {
        1
    } else if s.quiet_ticks < u64::MAX {
        (s.quiet_ticks + 1) as u64
    } else {
        u64::MAX
    }
}

/// The node had no address before the tick and has one now.
pub open spec fn took_address(s: MeshView, u: MeshView) -> bool {
    s.states[s.eid].inner.ip_claim is Unclaimed && u.states[s.eid].inner.ip_claim is Claimed
}

proof fn lemma_taken(s: MeshView, now: WallMs)
    requires
        s.inv(),
        s.room(1, now),
    ensures
        s.taken(0, now) == s || exists|k: u64| first_unclaimed(s, 0, k),
{
    if crate::mesh::next_free(s.eid, s.occupied(), 0) is Some {
        lemma_free_is_unclaimed(s, 0, crate::mesh::next_free(s.eid, s.occupied(), 0).unwrap());
    }
}

/// On every tick each connected peer gets the frame of what the node knows at its end
/// exactly once, and once more if an address was taken. Nobody else gets anything.
pub proof fn ticks_are_told(s: MeshView, now: WallMs)
    requires
        s.inv(),
        s.room(2, now),
    ensures
        ({
            let u = s.ticked(now);
            let n = s.outbound.len() as int;
            let end = u.outbound.len() as int;
            &&& goes_on(s.outbound, u.outbound)
            &&& if took_address(s, u) {
                exists|m: int|
                    #![trigger u.outbound[m]]
                    one_round(u.outbound, n, m, u.peers, u.frame()) && one_round(
                        u.outbound,
                        m,
                        end,
                        u.peers,
                        u.frame(),
                    )
            } else {
                one_round(u.outbound, n, end, u.peers, u.frame())
            }
        }),
{
    let t = lemma_before_claiming(s, now);
    crate::mesh_inv::maybe_claimed_keeps(t, now);
    let d = t.maybe_claimed(now);
    let u = d.sent_to_all();
    let n = s.outbound.len() as int;
    every_connected_peer_is_told(d);
    lemma_same_frame(d, u);
    if t.own().ip_claim is Unclaimed && t.ready(now) {
        lemma_taken(t, now);
        if t.taken(0, now) != t {
            let k = choose|k: u64| first_unclaimed(t, 0, k);
            first_unclaimed_candidate_is_taken(t, 0, k, now);
            let m = d.outbound.len() as int;
            assert(one_round(d.outbound, n, m, t.peers, d.frame()));
            assert forall|i: int| n <= i < m implies #[trigger] u.outbound[i] == d.outbound[i] by {}
            assert forall|id: EndpointId|
                #![trigger u.peers.contains_key(id)]
                u.peers.contains_key(id) && u.peers[id].connected implies exists|i: int|
                n <= i < m && (#[trigger] u.outbound[i]).0 == id by {
                assert(t.peers.contains_key(id));
                let i = choose|i: int| n <= i < m && (#[trigger] d.outbound[i]).0 == id;
                assert(u.outbound[i].0 == id);
            }
            assert(one_round(u.outbound, n, m, u.peers, u.frame()));
            let _ = u.outbound[m];
        }
    } else {
        device_follows_the_claim(t);
    }
}

/// A tick forgets the peers that are gone and keeps the others as they are. The node announces
/// itself under a newer version with the same ports, and with the same claim if it has one.
/// The device has the address of the claim, if there is one.
pub proof fn ticks_renew_and_forget(s: MeshView, now: WallMs)
    requires
        s.inv(),
        s.room(2, now),
    ensures
        ({
            let u = s.ticked(now);
            let before = s.states[s.eid].inner;
            let after = u.states[s.eid].inner;
            &&& forall|id: EndpointId| #[trigger]
                u.peers.contains_key(id) <==> s.peers.contains_key(id) && !is_gone(s, now, id)
            &&& forall|id: EndpointId| #[trigger] u.peers.contains_key(id) ==> u.peers[id] == s.peers[id]
            &&& forall|id: EndpointId| #[trigger]
                u.states.contains_key(id) <==> s.states.contains_key(id) && !is_gone(s, now, id)
            &&& forall|id: EndpointId| #[trigger]
                u.states.contains_key(id) && id != s.eid ==> u.states[id] == s.states[id]
            &&& after.exposed_ports == before.exposed_ports
            &&& if took_address(s, u) {
                &&& exists|v: Version| #[trigger] follows(before.version, now, v) && follows(v, now, after.version)
                &&& after.ip_claim->Claimed_0.claimed_at_ms == now
            } else {
                &&& follows(before.version, now, after.version)
                &&& after.ip_claim == before.ip_claim
            }
            &&& u.quiet_ticks == settled_ticks(s, now)
            &&& u.tun == (match after.ip_claim {
                IpClaim::Claimed(c) => TunState::Up { ip: c.ip },
                IpClaim::Unclaimed => s.tun,
            })
            &&& goes_on(s.expired(now).events, u.events)
            &&& u.events.len() <= s.expired(now).events.len() + 1
            &&& forall|i: int| s.expired(now).events.len() <= i < u.events.len() ==> #[trigger] u.events[i] is Tun
            &&& u.eid == s.eid && u.key == s.key && u.config == s.config
        }),
{
    let t = lemma_before_claiming(s, now);
    device_follows_the_claim(t);
    if t.own().ip_claim is Unclaimed && t.ready(now) {
        lemma_taken(t, now);
        if t.taken(0, now) != t {
            let k = choose|k: u64| first_unclaimed(t, 0, k);
            first_unclaimed_candidate_is_taken(t, 0, k, now);
            assert(follows(s.states[s.eid].inner.version, now, t.states[s.eid].inner.version));
            lemma_first_unclaimed(t, 0, k);
            let claim = IpClaim::Claimed(Claim { ip: crate::mesh::candidate_of(t.eid, k), k, claimed_at_ms: now });
            device_follows_the_claim(t.written(now, claim, t.own().exposed_ports));
        }
    }
}

/// A node without an address takes one on a tick exactly if enough peers are there, nothing
/// has changed for long enough, and one of its candidates is not claimed by another node
/// that it still knows. It then is the first such candidate.
pub proof fn ticks_claim_when_ready(s: MeshView, now: WallMs, there: Set<EndpointId>)
    requires
        s.inv(),
        s.room(2, now),
        s.states[s.eid].inner.ip_claim is Unclaimed,
        forall|id: EndpointId| #[trigger] there.contains(id) <==> s.peers.contains_key(id) && id != s.eid && (
        s.peers[id].connected || now - s.peers[id].last_fresh_ms < s.config.disconnect_timeout
            && s.config.disconnect_timeout > 0),
    ensures
        ({
            let u = s.ticked(now);
            let ready = there.len() >= s.config.min_viable_network && settled_ticks(s, now) >= s.config.settle_ticks;
            &&& u.states[s.eid].inner.ip_claim is Claimed <==> ready && exists|k: u64| first_unclaimed(u, 0, k)
            &&& u.states[s.eid].inner.ip_claim matches IpClaim::Claimed(c) ==> first_unclaimed(u, 0, c.k) && c.ip
                == crate::mesh::candidate_of(s.eid, c.k)
        }),
{
    let t = lemma_before_claiming(s, now);
    let u = s.ticked(now);
    assert(t.live_peers(now) =~= there) by {
        assert forall|id: EndpointId| t.live_peers(now).contains(id) <==> there.contains(id) by {
            who_is_there(t, now, id);
            assert(t.peers.contains_key(id) <==> s.peers.contains_key(id) && !is_gone(s, now, id));
        }
    }
    ticks_renew_and_forget(s, now);
    assert forall|ip: u16| claimed_elsewhere(t, ip) <==> claimed_elsewhere(u, ip) by {
        if claimed_elsewhere(t, ip) {
            let id = choose|id: EndpointId|
                #![trigger t.states.contains_key(id)]
                t.states.contains_key(id) && id != t.eid && (t.states[id].inner.ip_claim matches IpClaim::Claimed(c)
                    && c.ip == ip);
            assert(u.states.contains_key(id));
        }
        if claimed_elsewhere(u, ip) {
            let id = choose|id: EndpointId|
                #![trigger u.states.contains_key(id)]
                u.states.contains_key(id) && id != u.eid && (u.states[id].inner.ip_claim matches IpClaim::Claimed(c)
                    && c.ip == ip);
            assert(t.states.contains_key(id));
        }
    }
    assert forall|k: u64| first_unclaimed(t, 0, k) <==> first_unclaimed(u, 0, k) by {}
    if t.ready(now) {
        lemma_taken(t, now);
        if exists|k: u64| first_unclaimed(u, 0, k) {
            let k = choose|k: u64| first_unclaimed(u, 0, k);
            assert(first_unclaimed(t, 0, k));
            first_unclaimed_candidate_is_taken(t, 0, k, now);
        } else {
            assert(t.taken(0, now) == t);
        }
    }
}

} // verus!
