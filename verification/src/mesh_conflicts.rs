//! What becomes of an address that several nodes claim: who keeps it, who loses it, and what
//! is reported.
use vstd::prelude::*;
use crate::claims::Claimant;
use crate::id::EndpointId;
use crate::mesh::{EventView, MeshView};
use crate::mesh_effects::goes_on;
use crate::mesh_laws::winner_of;
use crate::node::{Claim, IpClaim, WallMs};

verus! {

/// The node claims `ip`.
pub open spec fn claims_ip(s: MeshView, id: EndpointId, ip: u16) -> bool {
    s.states.contains_key(id) && (s.states[id].inner.ip_claim matches IpClaim::Claimed(c) && c.ip == ip)
}

/// The claim of a node that has one.
pub open spec fn claim_of(s: MeshView, id: EndpointId) -> Claim {
    s.states[id].inner.ip_claim->Claimed_0
}

/// All claims are settled.
pub open spec fn all_settled(s: MeshView) -> MeshView {
    s.settled(s.claimants(), s.claimants().len())
}

/// After settling, `a` holds `ip` and no other node is seen to claim it. If this node claimed
/// it, this node knows whether it lost it.
pub open spec fn keeps_alone(s: MeshView, ip: u16, a: EndpointId) -> bool {
    let t = all_settled(s);
    &&& t.states[a] == s.states[a]
    &&& forall|id: EndpointId| #[trigger]
        claims_ip(s, id, ip) && id != a && id != s.eid ==> t.states[id].inner.ip_claim is Unclaimed
    &&& claims_ip(s, s.eid, ip) ==> (s.lost_own() <==> a != s.eid)
}

proof fn lemma_rivals(s: MeshView, ip: u16, a: EndpointId) -> (i: int)
    requires
        s.inv(),
        claims_ip(s, a, ip),
    ensures
        ({
            let rivals = crate::claims::claims_for(s.claimants(), ip);
            &&& 0 <= i < rivals.len()
            &&& rivals[i] == (a, claim_of(s, a))
            &&& forall|j: int|
                0 <= j < rivals.len() && j != i ==> claims_ip(s, (#[trigger] rivals[j]).0, ip) && rivals[j].0 != a
                    && rivals[j].1 == claim_of(s, rivals[j].0)
        }),
{
    let rivals = crate::claims::claims_for(s.claimants(), ip);
    let ids = crate::mesh_laws::claimants_of(s, ip);
    crate::mesh_laws::lemma_claims_for_ip(s, ip);
    assert(ids =~= s.states.dom().intersect(ids));
    crate::id::lemma_listed_finite(ids);
    let list = crate::id::listed(ids);
    assert(list.to_set().contains(a));
    let i = choose|i: int| 0 <= i < list.len() && list[i] == a;
    assert forall|j: int| 0 <= j < rivals.len() && j != i implies claims_ip(s, (#[trigger] rivals[j]).0, ip)
        && rivals[j].0 != a && rivals[j].1 == claim_of(s, rivals[j].0) by {
        assert(rivals[j].0 == list[j]);
        assert(list.to_set().contains(list[j]));
        crate::id::lemma_precedes_irreflexive(a);
        if i < j {
            assert(list[i].precedes(list[j]));
        } else {
            assert(list[j].precedes(list[i]));
        }
    }
    i
}

proof fn lemma_keeps_alone(s: MeshView, ip: u16, a: EndpointId)
    requires
        s.inv(),
        claims_ip(s, a, ip),
        winner_of(s, ip) == a,
    ensures
        keeps_alone(s, ip, a),
{
    crate::mesh_laws::settling_leaves_winners(s, a);
    crate::mesh_inv::settled_keeps(s, s.claimants(), s.claimants().len());
    let t = all_settled(s);
    assert(t.states.contains_key(a));
    assert(t.states[a] =~= s.states[a]);
    assert forall|id: EndpointId| #[trigger]
        claims_ip(s, id, ip) && id != a && id != s.eid implies t.states[id].inner.ip_claim is Unclaimed by {
        crate::mesh_laws::settling_leaves_winners(s, id);
    }
}

/// A claim that is older than all others to its address, by more than the range in which
/// claims count as simultaneous, keeps the address.
pub proof fn oldest_claims_keep_the_address(s: MeshView, ip: u16, a: EndpointId)
    requires
        s.inv(),
        claims_ip(s, a, ip),
        forall|id: EndpointId| #[trigger]
            claims_ip(s, id, ip) && id != a ==> claim_of(s, id).claimed_at_ms > claim_of(s, a).claimed_at_ms
                + s.config.simultaneous_range,
    ensures
        keeps_alone(s, ip, a),
{
    let i = lemma_rivals(s, ip, a);
    crate::claims::seniors_win(
        s.config.simultaneous_range,
        crate::claims::claims_for(s.claimants(), ip),
        i,
    );
    lemma_keeps_alone(s, ip, a);
}

/// Two claims count as simultaneous.
pub open spec fn simultaneous(s: MeshView, a: EndpointId, b: EndpointId) -> bool {
    &&& claim_of(s, a).claimed_at_ms <= claim_of(s, b).claimed_at_ms + s.config.simultaneous_range
    &&& claim_of(s, b).claimed_at_ms <= claim_of(s, a).claimed_at_ms + s.config.simultaneous_range
}

/// Of simultaneous claims to an address the one with the lowest index keeps it.
pub proof fn lowest_indices_keep_the_address(s: MeshView, ip: u16, a: EndpointId)
    requires
        s.inv(),
        claims_ip(s, a, ip),
        forall|id: EndpointId| #[trigger]
            claims_ip(s, id, ip) && id != a ==> simultaneous(s, id, a) && claim_of(s, a).k < claim_of(s, id).k,
    ensures
        keeps_alone(s, ip, a),
{
    let i = lemma_rivals(s, ip, a);
    crate::claims::lowest_indices_win(
        s.config.simultaneous_range,
        crate::claims::claims_for(s.claimants(), ip),
        i,
    );
    lemma_keeps_alone(s, ip, a);
}

/// Of simultaneous claims with the same index the one of the last node in the order of
/// identities keeps the address.
pub proof fn last_identities_keep_the_address(s: MeshView, ip: u16, a: EndpointId)
    requires
        s.inv(),
        claims_ip(s, a, ip),
        forall|id: EndpointId| #[trigger]
            claims_ip(s, id, ip) && id != a ==> simultaneous(s, id, a) && claim_of(s, a).k == claim_of(s, id).k
                && id.precedes(a),
    ensures
        keeps_alone(s, ip, a),
{
    let i = lemma_rivals(s, ip, a);
    crate::claims::last_identities_win(
        s.config.simultaneous_range,
        crate::claims::claims_for(s.claimants(), ip),
        i,
    );
    lemma_keeps_alone(s, ip, a);
}

/// A claim without a rival stays.
pub proof fn unrivalled_claims_stay(s: MeshView, ip: u16, a: EndpointId)
    requires
        s.inv(),
        claims_ip(s, a, ip),
        forall|id: EndpointId| #[trigger] claims_ip(s, id, ip) ==> id == a,
    ensures
        keeps_alone(s, ip, a),
{
    oldest_claims_keep_the_address(s, ip, a);
}

/// Whoever wins an address claims it.
pub proof fn winners_are_claimants(s: MeshView, ip: u16, a: EndpointId)
    requires
        s.inv(),
        claims_ip(s, a, ip),
    ensures
        claims_ip(s, winner_of(s, ip), ip),
        keeps_alone(s, ip, winner_of(s, ip)),
{
    let i = lemma_rivals(s, ip, a);
    let rivals = crate::claims::claims_for(s.claimants(), ip);
    crate::claims::lemma_winner_is_among(s.config.simultaneous_range, rivals);
    let w = choose|w: int| 0 <= w < rivals.len() && rivals[w] == crate::claims::winner(
        s.config.simultaneous_range,
        rivals,
    );
    if w != i {
        assert(claims_ip(s, rivals[w].0, ip));
    }
    lemma_keeps_alone(s, ip, winner_of(s, ip));
}

/// The event says truly that `loser` claimed `ip` and that another claimant won it.
pub open spec fn reports_a_loss(s: MeshView, e: EventView) -> bool {
    e matches EventView::ClaimResolved { ip, winner, loser } && claims_ip(s, loser, ip) && claims_ip(s, winner, ip)
        && winner == winner_of(s, ip) && winner != loser
}

proof fn lemma_dropped_events(s: MeshView, ip: u16, winner: EndpointId, losers: Seq<Claimant>)
    ensures
        s.dropped(ip, winner, losers).events == s.events + losers.map_values(
            |x: Claimant| EventView::ClaimResolved { ip, winner, loser: x.0 },
        ),
    decreases losers.len(),
{
    let f = |x: Claimant| EventView::ClaimResolved { ip, winner, loser: x.0 };
    if losers.len() == 0 {
        assert(s.events =~= s.events + losers.map_values(f));
    } else {
        lemma_dropped_events(s, ip, winner, losers.drop_last());
        assert(losers.map_values(f) =~= losers.drop_last().map_values(f).push(f(losers.last())));
        assert(s.dropped(ip, winner, losers).events =~= s.events + losers.map_values(f));
    }
}

proof fn lemma_settled_events(s: MeshView, n: nat)
    requires
        s.inv(),
        n <= s.claimants().len(),
    ensures
        goes_on(s.events, s.settled(s.claimants(), n).events),
        forall|i: int|
            s.events.len() <= i < s.settled(s.claimants(), n).events.len() ==> reports_a_loss(
                s,
                #[trigger] s.settled(s.claimants(), n).events[i],
            ),
        forall|id: EndpointId, ip: u16| #[trigger]
            claims_ip(s, id, ip) && crate::claims::claimed_before(s.claimants(), n as int, ip) && winner_of(s, ip) != id
                ==> exists|i: int|
                s.events.len() <= i < s.settled(s.claimants(), n).events.len() && #[trigger] s.settled(
                    s.claimants(),
                    n,
                ).events[i] == (EventView::ClaimResolved { ip, winner: winner_of(s, ip), loser: id }),
    decreases n,
{
    let claims = s.claimants();
    if n > 0 {
        let m = (n - 1) as nat;
        lemma_settled_events(s, m);
        crate::mesh_inv::settled_keeps(s, claims, m);
        let t = s.settled(claims, m);
        let u = s.settled(claims, n);
        let here = claims[n - 1].1.ip;
        let rivals = crate::claims::claims_for(claims, here);
        let ranking = crate::claims::ranked(s.config.simultaneous_range, rivals);
        let losers = ranking.drop_last();
        let old_len = s.events.len() as int;
        if crate::claims::claimed_before(claims, m as int, here) {
            assert(u == t);
            assert forall|ip: u16|
                crate::claims::claimed_before(claims, n as int, ip) implies crate::claims::claimed_before(
                claims,
                m as int,
                ip,
            ) by {
                let j = choose|j: int| 0 <= j < n && (#[trigger] claims[j]).1.ip == ip;
                if j == n - 1 {
                    assert(ip == here);
                }
            }
        } else {
            crate::claims::lemma_claims_for(claims, here, n - 1);
            crate::claims::lemma_ranked(s.config.simultaneous_range, rivals);
            crate::claims::lemma_winner_is_among(s.config.simultaneous_range, rivals);
            let w = crate::claims::winner(s.config.simultaneous_range, rivals);
            crate::mesh_laws::lemma_rival(s, here, w);
            lemma_dropped_events(t, here, ranking.last().0, losers);
            assert(u.events == t.events + losers.map_values(
                |x: Claimant| EventView::ClaimResolved { ip: here, winner: ranking.last().0, loser: x.0 },
            ));
            assert forall|i: int| old_len <= i < u.events.len() implies reports_a_loss(s, #[trigger] u.events[i]) by {
                if i < t.events.len() {
                    assert(u.events[i] == t.events[i]);
                } else {
                    let y = losers[i - t.events.len()];
                    assert(ranking[i - t.events.len()] == y);
                    assert(ranking.contains(y));
                    rivals.to_multiset_ensures();
                    ranking.to_multiset_ensures();
                    assert(ranking.to_multiset().count(y) > 0);
                    assert(rivals.contains(y));
                    crate::mesh_laws::lemma_rival(s, here, y);
                    crate::mesh_laws::lemma_losers(s, here, y.0, y.1);
                    assert(losers[i - t.events.len()].0 == y.0);
                }
            }
            assert forall|id: EndpointId, ip: u16| #[trigger]
                claims_ip(s, id, ip) && crate::claims::claimed_before(claims, n as int, ip) && winner_of(s, ip)
                    != id implies exists|i: int|
                old_len <= i < u.events.len() && #[trigger] u.events[i] == (EventView::ClaimResolved {
                    ip,
                    winner: winner_of(s, ip),
                    loser: id,
                }) by {
                if crate::claims::claimed_before(claims, m as int, ip) {
                    let i = choose|i: int|
                        old_len <= i < t.events.len() && #[trigger] t.events[i] == (EventView::ClaimResolved {
                            ip,
                            winner: winner_of(s, ip),
                            loser: id,
                        });
                    assert(u.events[i] == t.events[i]);
                } else {
                    let j = choose|j: int| 0 <= j < n && (#[trigger] claims[j]).1.ip == ip;
                    assert(j == n - 1) by {
                        if j < m {
                            assert(crate::claims::claimed_before(claims, m as int, ip));
                        }
                    }
                    crate::mesh_laws::lemma_losers(s, here, id, claim_of(s, id));
                    let i = choose|i: int| 0 <= i < losers.len() && (#[trigger] losers[i]).0 == id;
                    assert(u.events[t.events.len() + i] == (EventView::ClaimResolved {
                        ip,
                        winner: winner_of(s, ip),
                        loser: id,
                    }));
                }
            }
        }
    }
}

/// Every claim that loses is reported, with who won, and nothing else is.
pub proof fn losses_are_reported(s: MeshView)
    requires
        s.inv(),
    ensures
        ({
            let t = all_settled(s);
            &&& goes_on(s.events, t.events)
            &&& forall|i: int| s.events.len() <= i < t.events.len() ==> reports_a_loss(s, #[trigger] t.events[i])
            &&& forall|id: EndpointId, ip: u16| #[trigger]
                claims_ip(s, id, ip) && winner_of(s, ip) != id ==> exists|i: int|
                    s.events.len() <= i < t.events.len() && #[trigger] t.events[i] == (EventView::ClaimResolved {
                        ip,
                        winner: winner_of(s, ip),
                        loser: id,
                    })
        }),
{
    let claims = s.claimants();
    lemma_settled_events(s, claims.len());
    assert forall|id: EndpointId, ip: u16| #[trigger] claims_ip(s, id, ip) implies crate::claims::claimed_before(
        claims,
        claims.len() as int,
        ip,
    ) by {
        crate::mesh_inv::claimant_is_listed(s, id);
        let i = choose|i: int| 0 <= i < claims.len() && claims[i] == (id, claim_of(s, id));
        assert(claims[i].1.ip == ip);
    }
}

/// Resolving conflicts settles all claims. Beyond that only a node that lost its own address
/// does something: it takes its next free candidate, and its own announcement, the device
/// and what is sent and reported follow.
pub proof fn only_losers_move(s: MeshView, now: WallMs)
    requires
        s.inv(),
    ensures
        !s.lost_own() ==> s.resolved(now) == all_settled(s),
        s.lost_own() ==> s.resolved(now) == all_settled(s).taken(
            (if claim_of(s, s.eid).k < u64::MAX {
                (claim_of(s, s.eid).k + 1) as u64
            } else {
                u64::MAX
            }),
            now,
        ),
        s.lost_own() <==> s.states[s.eid].inner.ip_claim is Claimed && winner_of(s, claim_of(s, s.eid).ip) != s.eid,
        all_settled(s).peers == s.peers,
        all_settled(s).quiet_ticks == s.quiet_ticks,
        all_settled(s).outbound == s.outbound,
        all_settled(s).tun == s.tun,
        all_settled(s).config == s.config,
{
    crate::mesh_inv::settled_keeps(s, s.claimants(), s.claimants().len());
}

/// A node that loses its address to an older claim moves on to its next candidate, if nobody
/// claims that one: the claim dates from now, its ports stay, and its device moves along.
pub proof fn losers_move_to_the_next_candidate(s: MeshView, now: WallMs, rival: EndpointId)
    requires
        s.inv(),
        s.room(1, now),
        s.states[s.eid].inner.ip_claim is Claimed,
        claim_of(s, s.eid).k < u64::MAX,
        rival != s.eid,
        claims_ip(s, rival, claim_of(s, s.eid).ip),
        forall|id: EndpointId| #[trigger]
            claims_ip(s, id, claim_of(s, s.eid).ip) && id != rival ==> claim_of(s, id).claimed_at_ms > claim_of(
                s,
                rival,
            ).claimed_at_ms + s.config.simultaneous_range,
        forall|id: EndpointId|
            id != s.eid ==> !#[trigger] claims_ip(
                s,
                id,
                crate::mesh::candidate_of(s.eid, (claim_of(s, s.eid).k + 1) as u64),
            ),
    ensures
        ({
            let t = s.resolved(now);
            let k = (claim_of(s, s.eid).k + 1) as u64;
            let ip = crate::mesh::candidate_of(s.eid, k);
            &&& t.states[s.eid].inner.ip_claim == IpClaim::Claimed(Claim { ip, k, claimed_at_ms: now })
            &&& t.states[s.eid].inner.exposed_ports == s.states[s.eid].inner.exposed_ports
            &&& t.states[rival] == s.states[rival]
            &&& t.tun == (crate::mesh::TunState::Up { ip })
            &&& t.peers == s.peers
        }),
{
    let ip = claim_of(s, s.eid).ip;
    let k = (claim_of(s, s.eid).k + 1) as u64;
    let m = all_settled(s);
    let next = crate::mesh::candidate_of(s.eid, k);
    oldest_claims_keep_the_address(s, ip, rival);
    assert(claims_ip(s, s.eid, ip));
    only_losers_move(s, now);
    crate::mesh_inv::settled_keeps(s, s.claimants(), s.claimants().len());
    if crate::mesh_effects::claimed_elsewhere(m, next) {
        let id = choose|id: EndpointId|
            #![trigger m.states.contains_key(id)]
            m.states.contains_key(id) && id != m.eid && (m.states[id].inner.ip_claim matches IpClaim::Claimed(c) && c.ip
                == next);
        assert(s.states.contains_key(id));
        crate::mesh_laws::settling_leaves_winners(s, id);
        assert(claims_ip(s, id, next));
    }
    assert(crate::mesh_effects::first_unclaimed(m, k, k));
    crate::mesh_effects::first_unclaimed_candidate_is_taken(m, k, k, now);
}

} // verus!
