//! What every event keeps of the mesh.
use vstd::prelude::*;
use crate::claims::Claimant;
use crate::id::EndpointId;
use crate::mesh::{next_free, MeshView};
use crate::node::{IpClaim, PortsView, SignedView, WallMs};

verus! {

/// Announcing oneself keeps the invariant and touches nobody else's announcement.
pub proof fn written_keeps(s: MeshView, now: WallMs, claim: IpClaim, ports: PortsView)
    requires
        s.inv(),
    ensures
        s.written(now, claim, ports).inv(),
        s.written(now, claim, ports).own().ip_claim == claim,
        s.written(now, claim, ports).own().exposed_ports == ports,
        s.written(now, claim, ports).own().version == s.own().version.bumped(now),
        s.written(now, claim, ports).occupied() == s.occupied(),
        s.written(now, claim, ports).connected() == s.connected(),
{
    let t = s.written(now, claim, ports);
    assert(t.occupied() =~= s.occupied()) by {
        assert forall|ip: u16| t.occupied().contains(ip) <==> s.occupied().contains(ip) by {
            if t.occupied().contains(ip) {
                let id = choose|id: EndpointId|
                    t.states.contains_key(id) && id != t.eid && t.states[id].inner.ip_claim.spec_ip() == Some(ip);
                assert(s.states.contains_key(id));
            }
            if s.occupied().contains(ip) {
                let id = choose|id: EndpointId|
                    s.states.contains_key(id) && id != s.eid && s.states[id].inner.ip_claim.spec_ip() == Some(ip);
                assert(t.states.contains_key(id));
            }
        }
    }
    assert(t.connected() =~= s.connected());
}

/// Forgetting departed peers keeps the invariant and the node's own announcement.
pub proof fn expired_keeps(s: MeshView, now: WallMs)
    requires
        s.inv(),
    ensures
        s.expired(now).inv(),
        s.expired(now).own() == s.own(),
        s.expired(now).states[s.eid] == s.states[s.eid],
{
    let t = s.expired(now);
    let gone = s.departed(now);
    assert(t.states.dom() =~= s.states.dom().difference(gone));
    assert(t.peers.dom() =~= s.peers.dom().difference(gone));
}

/// Telling the device keeps everything else.
pub proof fn tun_synced_keeps(s: MeshView)
    requires
        s.inv(),
    ensures
        s.tun_synced().inv(),
        s.tun_synced().states == s.states,
        s.tun_synced().peers == s.peers,
{
}

/// Taking an address keeps the invariant.
pub proof fn taken_keeps(s: MeshView, start: u64, now: WallMs)
    requires
        s.inv(),
    ensures
        s.taken(start, now).inv(),
{
    match next_free(s.eid, s.occupied(), start) {
        Some(k) => {
            let claim = crate::node::Claim {
                ip: crate::mesh::candidate_of(s.eid, k),
                k,
                claimed_at_ms: now,
            };
            written_keeps(s, now, IpClaim::Claimed(claim), s.own().exposed_ports);
            tun_synced_keeps(s.written(now, IpClaim::Claimed(claim), s.own().exposed_ports));
        },
        None => {},
    }
}

/// Taking an address when it is time keeps the invariant.
pub proof fn maybe_claimed_keeps(s: MeshView, now: WallMs)
    requires
        s.inv(),
    ensures
        s.maybe_claimed(now).inv(),
{
    tun_synced_keeps(s);
    taken_keeps(s, 0, now);
}

/// A tick keeps the invariant.
pub proof fn ticked_keeps(s: MeshView, now: WallMs)
    requires
        s.inv(),
    ensures
        s.ticked(now).inv(),
{
    expired_keeps(s, now);
    let a = s.expired(now);
    written_keeps(a, now, a.own().ip_claim, a.own().exposed_ports);
    let b = a.written(now, a.own().ip_claim, a.own().exposed_ports);
    let c = MeshView {
        quiet_ticks: if b.quiet_ticks < u64::MAX {
            (b.quiet_ticks + 1) as u64
        } else {
            u64::MAX
        },
        ..b
    };
    assert(c.inv());
    maybe_claimed_keeps(c, now);
}

/// Merging an announcement of a valid author keeps the invariant and the node's
/// own announcement.
pub proof fn merged_keeps(s: MeshView, signed: SignedView, now: WallMs)
    requires
        s.inv(),
        crate::keys::valid_public_key(signed.inner.endpoint_id.bytes),
    ensures
        s.merged(signed, now).inv(),
        s.merged(signed, now).own() == s.own(),
        s.merged(signed, now).states[s.eid] == s.states[s.eid],
        s.merged(signed, now).eid == s.eid,
        s.merged(signed, now).key == s.key,
        s.merged(signed, now).config == s.config,
        s.merged(signed, now).tun == s.tun,
        s.merged(signed, now).outbound == s.outbound,
{
}

/// Merging announcements of valid authors keeps the invariant and the node's own
/// announcement.
pub proof fn merged_all_keeps(s: MeshView, list: Seq<SignedView>, now: WallMs)
    requires
        s.inv(),
        forall|i: int| 0 <= i < list.len() ==> crate::keys::valid_public_key((#[trigger] list[i]).inner.endpoint_id.bytes),
    ensures
        s.merged_all(list, now).inv(),
        s.merged_all(list, now).own() == s.own(),
        s.merged_all(list, now).states[s.eid] == s.states[s.eid],
        s.merged_all(list, now).eid == s.eid,
        s.merged_all(list, now).key == s.key,
        s.merged_all(list, now).config == s.config,
        s.merged_all(list, now).tun == s.tun,
        s.merged_all(list, now).outbound == s.outbound,
    decreases list.len(),
{
    if list.len() > 0 {
        merged_all_keeps(s, list.drop_last(), now);
        merged_keeps(s.merged_all(list.drop_last(), now), list.last(), now);
    }
}

/// An announcement whose claim is dropped is still the one that its author signed, but for
/// the claim.
pub proof fn dropping_a_claim_stays_genuine(signed: SignedView)
    requires
        signed.genuine(),
    ensures
        signed.with_claim(IpClaim::Unclaimed).genuine(),
{
    let t = signed.with_claim(IpClaim::Unclaimed);
    match signed.inner.ip_claim {
        IpClaim::Claimed(c) => {
            assert(t.with_claim(IpClaim::Claimed(c)) == signed);
        },
        IpClaim::Unclaimed => {
            assert(t == signed);
        },
    }
}

/// Dropping lost claims keeps the invariant and the node's own announcement.
pub proof fn dropped_keeps(s: MeshView, ip: u16, winner: EndpointId, losers: Seq<Claimant>)
    requires
        s.inv(),
    ensures
        s.dropped(ip, winner, losers).inv(),
        s.dropped(ip, winner, losers).own() == s.own(),
        s.dropped(ip, winner, losers).states[s.eid] == s.states[s.eid],
        s.dropped(ip, winner, losers).states.dom() == s.states.dom(),
        s.dropped(ip, winner, losers).eid == s.eid,
        s.dropped(ip, winner, losers).key == s.key,
        s.dropped(ip, winner, losers).config == s.config,
        s.dropped(ip, winner, losers).peers == s.peers,
        s.dropped(ip, winner, losers).tun == s.tun,
        s.dropped(ip, winner, losers).outbound == s.outbound,
        s.dropped(ip, winner, losers).quiet_ticks == s.quiet_ticks,
    decreases losers.len(),
{
    if losers.len() > 0 {
        dropped_keeps(s, ip, winner, losers.drop_last());
        let t = s.dropped(ip, winner, losers.drop_last());
        let u = s.dropped(ip, winner, losers);
        assert(u.states.dom() =~= t.states.dom());
        let loser = losers.last().0;
        if loser != s.eid && t.states.contains_key(loser) {
            dropping_a_claim_stays_genuine(t.states[loser]);
        }
    }
}

/// Settling claims keeps the invariant and the node's own announcement.
pub proof fn settled_keeps(s: MeshView, claims: Seq<Claimant>, n: nat)
    requires
        s.inv(),
    ensures
        s.settled(claims, n).inv(),
        s.settled(claims, n).own() == s.own(),
        s.settled(claims, n).states[s.eid] == s.states[s.eid],
        s.settled(claims, n).states.dom() == s.states.dom(),
        s.settled(claims, n).eid == s.eid,
        s.settled(claims, n).key == s.key,
        s.settled(claims, n).config == s.config,
        s.settled(claims, n).peers == s.peers,
        s.settled(claims, n).tun == s.tun,
        s.settled(claims, n).outbound == s.outbound,
        s.settled(claims, n).quiet_ticks == s.quiet_ticks,
    decreases n,
{
    if n > 0 {
        settled_keeps(s, claims, (n - 1) as nat);
        let t = s.settled(claims, (n - 1) as nat);
        let ip = claims[n - 1].1.ip;
        let ranking = crate::claims::ranked(
            t.config.simultaneous_range,
            crate::claims::claims_for(claims, ip),
        );
        dropped_keeps(t, ip, ranking.last().0, ranking.drop_last());
    }
}

/// Resolving conflicts keeps the invariant.
pub proof fn resolved_keeps(s: MeshView, now: WallMs)
    requires
        s.inv(),
    ensures
        s.resolved(now).inv(),
{
    let claims = s.claimants();
    settled_keeps(s, claims, claims.len());
    let k = s.own().ip_claim->Claimed_0.k;
    taken_keeps(
        s.settled(claims, claims.len()),
        if k < u64::MAX {
            (k + 1) as u64
        } else {
            u64::MAX
        },
        now,
    );
}

/// The authors of the announcements in a frame are valid.
pub proof fn frame_authors_valid(bytes: Seq<u8>)
    ensures
        crate::mesh::frame_states(bytes) matches Ok(list) ==> forall|i: int|
            0 <= i < list.len() ==> crate::keys::valid_public_key((#[trigger] list[i]).inner.endpoint_id.bytes),
{
}

/// A frame keeps the invariant, whoever sent it and whatever it holds.
pub proof fn framed_keeps(s: MeshView, from: EndpointId, bytes: Seq<u8>, now: WallMs)
    requires
        s.inv(),
    ensures
        s.framed(from, bytes, now).inv(),
{
    frame_authors_valid(bytes);
    match crate::mesh::frame_states(bytes) {
        Err(_) => {},
        Ok(list) => {
            merged_all_keeps(s, list, now);
            let t = s.merged_all(list, now).refreshed(from, now);
            assert(t.inv());
            resolved_keeps(t, now);
            maybe_claimed_keeps(t.resolved(now), now);
        },
    }
}

/// A peer that connects keeps the invariant.
pub proof fn joined_keeps(s: MeshView, id: EndpointId, now: WallMs)
    requires
        s.inv(),
    ensures
        s.joined(id, now).inv(),
{
}

/// A peer that disconnects keeps the invariant.
pub proof fn left_keeps(s: MeshView, id: EndpointId)
    requires
        s.inv(),
    ensures
        s.left(id).inv(),
{
}

/// A node that claims an address stands among the claimants with that claim.
pub proof fn claimant_is_listed(s: MeshView, id: EndpointId)
    requires
        s.inv(),
        s.states.contains_key(id),
        s.states[id].inner.ip_claim is Claimed,
    ensures
        s.claimants().contains((id, s.states[id].inner.ip_claim->Claimed_0)),
{
    let set = Set::new(
        |id: EndpointId| s.states.contains_key(id) && s.states[id].inner.ip_claim is Claimed,
    );
    assert(set =~= s.states.dom().intersect(set));
    crate::id::lemma_listed_finite(set);
    let list = crate::id::listed(set);
    assert(list.to_set().contains(id));
    let i = choose|i: int| 0 <= i < list.len() && list[i] == id;
    assert(s.claimants()[i] == (id, s.states[id].inner.ip_claim->Claimed_0));
}

/// A node that claims an address stands among the claimants of it.
pub proof fn own_claim_is_listed(s: MeshView)
    requires
        s.inv(),
        s.own().ip_claim is Claimed,
    ensures
        crate::claims::claims_for(s.claimants(), s.own().ip_claim->Claimed_0.ip).len() > 0,
{
    claimant_is_listed(s, s.eid);
    let own = (s.eid, s.own().ip_claim->Claimed_0);
    let i = choose|i: int| 0 <= i < s.claimants().len() && s.claimants()[i] == own;
    crate::claims::lemma_claims_for(s.claimants(), own.1.ip, i);
}

/// Resolving conflicts announces the node anew at most once.
pub proof fn resolved_room(s: MeshView, now: WallMs)
    requires
        s.inv(),
        s.room(1, now),
    ensures
        s.resolved(now).own().ip_claim is Claimed || s.resolved(now).room(1, now),
{
    let claims = s.claimants();
    let t = s.settled(claims, claims.len());
    settled_keeps(s, claims, claims.len());
    let k = s.own().ip_claim->Claimed_0.k;
    let start = if k < u64::MAX {
        (k + 1) as u64
    } else {
        u64::MAX
    };
    match next_free(t.eid, t.occupied(), start) {
        Some(k) => {
            let claim = crate::node::Claim {
                ip: crate::mesh::candidate_of(t.eid, k),
                k,
                claimed_at_ms: now,
            };
            written_keeps(t, now, IpClaim::Claimed(claim), t.own().exposed_ports);
            tun_synced_keeps(t.written(now, IpClaim::Claimed(claim), t.own().exposed_ports));
        },
        None => {},
    }
}

} // verus!
