//! The laws of the mesh.
use vstd::prelude::*;
use crate::claims::Claimant;
use crate::id::EndpointId;
use crate::mesh::{candidate_of, next_free, MeshView, TunState};
use crate::node::{Claim, IpClaim, SignedView, WallMs};

verus! {

/// The claim to `ip` that stands when all claims are settled.
pub open spec fn winner_of(s: MeshView, ip: u16) -> EndpointId {
    crate::claims::winner(
        s.config.simultaneous_range,
        crate::claims::claims_for(s.claimants(), ip),
    ).0
}

/// No two nodes claim the same address, as far as this node knows.
pub open spec fn no_conflict(s: MeshView) -> bool {
    forall|a: EndpointId, b: EndpointId|
        #![trigger s.states.contains_key(a), s.states.contains_key(b)]
        s.states.contains_key(a) && s.states.contains_key(b) && a != b
            && s.states[a].inner.ip_claim is Claimed ==> s.states[a].inner.ip_claim.spec_ip()
            != s.states[b].inner.ip_claim.spec_ip()
}

proof fn lemma_dropped_claims(s: MeshView, ip: u16, winner: EndpointId, losers: Seq<Claimant>, id: EndpointId)
    requires
        s.inv(),
        s.states.contains_key(id),
    ensures
        s.dropped(ip, winner, losers).states[id].inner.ip_claim == (if id != s.eid && exists|i: int|
            0 <= i < losers.len() && (#[trigger] losers[i]).0 == id {
            IpClaim::Unclaimed
        } else {
            s.states[id].inner.ip_claim
        }),
        s.dropped(ip, winner, losers).states[id].inner.version == s.states[id].inner.version,
        s.dropped(ip, winner, losers).states[id].inner.exposed_ports == s.states[id].inner.exposed_ports,
        s.dropped(ip, winner, losers).states[id].signature == s.states[id].signature,
    decreases losers.len(),
{
    if losers.len() > 0 {
        let rest = losers.drop_last();
        lemma_dropped_claims(s, ip, winner, rest, id);
        crate::mesh_inv::dropped_keeps(s, ip, winner, rest);
        if exists|i: int| 0 <= i < losers.len() && (#[trigger] losers[i]).0 == id {
            let i = choose|i: int| 0 <= i < losers.len() && (#[trigger] losers[i]).0 == id;
            if i < rest.len() {
                assert(rest[i].0 == id);
            }
        }
        if exists|i: int| 0 <= i < rest.len() && (#[trigger] rest[i]).0 == id {
            let i = choose|i: int| 0 <= i < rest.len() && (#[trigger] rest[i]).0 == id;
            assert(losers[i].0 == id);
        }
        assert(losers[losers.len() - 1] == losers.last());
    }
}

proof fn lemma_claimants(s: MeshView)
    requires
        s.inv(),
    ensures
        forall|i: int|
            0 <= i < s.claimants().len() ==> s.states.contains_key((#[trigger] s.claimants()[i]).0)
                && s.states[s.claimants()[i].0].inner.ip_claim == IpClaim::Claimed(s.claimants()[i].1),
        forall|i: int, j: int|
            0 <= i < s.claimants().len() && 0 <= j < s.claimants().len() && (#[trigger] s.claimants()[i]).0 == (
            #[trigger] s.claimants()[j]).0 ==> i == j,
        s.claimants().no_duplicates(),
{
    let set = Set::new(
        |id: EndpointId| s.states.contains_key(id) && s.states[id].inner.ip_claim is Claimed,
    );
    assert(set =~= s.states.dom().intersect(set));
    crate::id::lemma_listed_finite(set);
    let list = crate::id::listed(set);
    assert forall|i: int| 0 <= i < list.len() implies set.contains(#[trigger] list[i]) by {
        assert(list.to_set().contains(list[i]));
    }
    assert forall|i: int, j: int|
        0 <= i < s.claimants().len() && 0 <= j < s.claimants().len() && (#[trigger] s.claimants()[i]).0 == (
        #[trigger] s.claimants()[j]).0 implies i == j by {
        crate::id::lemma_precedes_irreflexive(list[i]);
        assert(s.claimants()[i].0 == list[i]);
        assert(s.claimants()[j].0 == list[j]);
        if i < j {
            assert(list[i].precedes(list[j]));
        } else if j < i {
            assert(list[j].precedes(list[i]));
        }
    }
}

/// Those that the ranking of an address puts before its last are the nodes that claim it and
/// do not win it.
pub proof fn lemma_losers(s: MeshView, ip: u16, id: EndpointId, claim: Claim)
    requires
        s.inv(),
        s.states.contains_key(id),
        s.states[id].inner.ip_claim == IpClaim::Claimed(claim),
        crate::claims::claims_for(s.claimants(), ip).len() > 0,
    ensures
        ({
            let ranking = crate::claims::ranked(
                s.config.simultaneous_range,
                crate::claims::claims_for(s.claimants(), ip),
            );
            (exists|i: int| 0 <= i < ranking.drop_last().len() && (#[trigger] ranking.drop_last()[i]).0 == id) <==> (
            claim.ip == ip && winner_of(s, ip) != id)
        }),
{
    let claims = s.claimants();
    let rivals = crate::claims::claims_for(claims, ip);
    let range = s.config.simultaneous_range;
    let ranking = crate::claims::ranked(range, rivals);
    let losers = ranking.drop_last();
    let x = (id, claim);
    lemma_claimants(s);
    crate::mesh_inv::claimant_is_listed(s, id);
    crate::claims::lemma_ranked(range, rivals);
    let f = |c: Claimant| c.1.ip == ip;
    crate::claims::lemma_filter_members(claims, f);
    crate::claims::lemma_filter_no_duplicates(claims, f);
    rivals.lemma_multiset_has_no_duplicates();
    ranking.lemma_multiset_has_no_duplicates_conv();
    assert forall|y: Claimant| ranking.contains(y) <==> rivals.contains(y) by {
        rivals.to_multiset_ensures();
        ranking.to_multiset_ensures();
        assert(ranking.contains(y) <==> ranking.to_multiset().count(y) > 0);
        assert(rivals.contains(y) <==> rivals.to_multiset().count(y) > 0);
    }
    if claim.ip == ip {
        assert(rivals.contains(x));
        assert(ranking.contains(x));
        let i = choose|i: int| 0 <= i < ranking.len() && ranking[i] == x;
        if winner_of(s, ip) != id {
            assert(i < losers.len());
            assert(losers[i].0 == id);
        } else {
            assert(ranking.last().0 == id);
            if exists|j: int| 0 <= j < losers.len() && (#[trigger] losers[j]).0 == id {
                let j = choose|j: int| 0 <= j < losers.len() && (#[trigger] losers[j]).0 == id;
                assert(ranking[j] == losers[j]);
                lemma_rival(s, ip, ranking[j]);
                lemma_rival(s, ip, ranking.last());
                assert(ranking[j] == ranking[ranking.len() - 1]);
                assert(false);
            }
        }
    } else {
        if exists|j: int| 0 <= j < losers.len() && (#[trigger] losers[j]).0 == id {
            let j = choose|j: int| 0 <= j < losers.len() && (#[trigger] losers[j]).0 == id;
            assert(ranking[j] == losers[j]);
            assert(ranking.contains(ranking[j]));
            lemma_rival(s, ip, ranking[j]);
        }
    }
}

/// Who stands among the claimants of an address claims it.
pub proof fn lemma_rival(s: MeshView, ip: u16, x: Claimant)
    requires
        s.inv(),
        crate::claims::claims_for(s.claimants(), ip).contains(x),
    ensures
        s.states.contains_key(x.0),
        s.states[x.0].inner.ip_claim == IpClaim::Claimed(x.1),
        x.1.ip == ip,
{
    lemma_claimants(s);
    crate::claims::lemma_filter_members(s.claimants(), |c: Claimant| c.1.ip == ip);
    assert(s.claimants().contains(x));
    let i = choose|i: int| 0 <= i < s.claimants().len() && s.claimants()[i] == x;
}

proof fn lemma_settled_claims(s: MeshView, n: nat, id: EndpointId)
    requires
        s.inv(),
        s.states.contains_key(id),
        n <= s.claimants().len(),
    ensures
        s.settled(s.claimants(), n).states[id].inner.ip_claim == (match s.states[id].inner.ip_claim {
            IpClaim::Claimed(c) => if id != s.eid && crate::claims::claimed_before(s.claimants(), n as int, c.ip)
                && winner_of(s, c.ip) != id {
                IpClaim::Unclaimed
            } else {
                s.states[id].inner.ip_claim
            },
            IpClaim::Unclaimed => IpClaim::Unclaimed,
        }),
        s.settled(s.claimants(), n).states[id].inner.version == s.states[id].inner.version,
        s.settled(s.claimants(), n).states[id].inner.exposed_ports == s.states[id].inner.exposed_ports,
        s.settled(s.claimants(), n).states[id].signature == s.states[id].signature,
    decreases n,
{
    let claims = s.claimants();
    if n > 0 {
        let m = (n - 1) as nat;
        lemma_settled_claims(s, m, id);
        crate::mesh_inv::settled_keeps(s, claims, m);
        let t = s.settled(claims, m);
        let ip = claims[n - 1].1.ip;
        crate::claims::lemma_claims_for(claims, ip, n - 1);
        let ranking = crate::claims::ranked(
            s.config.simultaneous_range,
            crate::claims::claims_for(claims, ip),
        );
        if !crate::claims::claimed_before(claims, m as int, ip) {
            lemma_dropped_claims(t, ip, ranking.last().0, ranking.drop_last(), id);
        }
        match s.states[id].inner.ip_claim {
            IpClaim::Claimed(c) => {
                lemma_losers(s, ip, id, c);
                if crate::claims::claimed_before(claims, n as int, c.ip) {
                    let j = choose|j: int| 0 <= j < n && (#[trigger] claims[j]).1.ip == c.ip;
                    if j < m {
                        assert(crate::claims::claimed_before(claims, m as int, c.ip));
                    }
                }
                if crate::claims::claimed_before(claims, m as int, c.ip) {
                    let j = choose|j: int| 0 <= j < m && (#[trigger] claims[j]).1.ip == c.ip;
                    assert(crate::claims::claimed_before(claims, n as int, c.ip));
                }
                assert(claims[n - 1].1.ip == ip);
            },
            IpClaim::Unclaimed => {},
        }
    }
}

/// When claims are settled, the winner of each address keeps it, every other node
/// is seen without a claim, and nothing else of an announcement changes. The
/// node's own claim is not touched.
pub proof fn settling_leaves_winners(s: MeshView, id: EndpointId)
    requires
        s.inv(),
        s.states.contains_key(id),
    ensures
        ({
            let t = s.settled(s.claimants(), s.claimants().len());
            &&& t.states[id].inner.ip_claim == (match s.states[id].inner.ip_claim {
                IpClaim::Claimed(c) => if id != s.eid && winner_of(s, c.ip) != id {
                    IpClaim::Unclaimed
                } else {
                    s.states[id].inner.ip_claim
                },
                IpClaim::Unclaimed => IpClaim::Unclaimed,
            })
            &&& t.states[id].inner.version == s.states[id].inner.version
            &&& t.states[id].inner.exposed_ports == s.states[id].inner.exposed_ports
            &&& t.states[id].signature == s.states[id].signature
        }),
{
    let claims = s.claimants();
    lemma_settled_claims(s, claims.len(), id);
    match s.states[id].inner.ip_claim {
        IpClaim::Claimed(c) => {
            crate::mesh_inv::claimant_is_listed(s, id);
            let i = choose|i: int| 0 <= i < claims.len() && claims[i] == (id, c);
            assert(claims[i].1.ip == c.ip);
            assert(crate::claims::claimed_before(claims, claims.len() as int, c.ip));
        },
        IpClaim::Unclaimed => {},
    }
}

proof fn lemma_claiming(s: MeshView, k: u64, now: WallMs)
    requires
        s.inv(),
    ensures
        s.claiming(k, now).inv(),
        s.claiming(k, now).eid == s.eid,
        s.claiming(k, now).states.dom() == s.states.dom(),
        s.claiming(k, now).own().ip_claim == IpClaim::Claimed(
            Claim { ip: candidate_of(s.eid, k), k, claimed_at_ms: now },
        ),
        s.claiming(k, now).own().version == s.own().version.bumped(now),
        s.claiming(k, now).tun == (TunState::Up { ip: candidate_of(s.eid, k) }),
        forall|id: EndpointId| id != s.eid ==> s.claiming(k, now).states[id] == s.states[id],
{
    let claim = Claim { ip: candidate_of(s.eid, k), k, claimed_at_ms: now };
    crate::mesh_inv::written_keeps(s, now, IpClaim::Claimed(claim), s.own().exposed_ports);
    crate::mesh_inv::tun_synced_keeps(s.written(now, IpClaim::Claimed(claim), s.own().exposed_ports));
    assert(s.claiming(k, now).states.dom() =~= s.states.dom());
}

/// An address that is taken is claimed by no other node.
pub proof fn taken_address_is_free(s: MeshView, start: u64, now: WallMs)
    requires
        s.inv(),
        next_free(s.eid, s.occupied(), start) is Some,
    ensures
        s.taken(start, now).own().ip_claim is Claimed,
        s.taken(start, now).own().ip_claim->Claimed_0.k >= start,
        s.taken(start, now).own().ip_claim->Claimed_0.ip == candidate_of(
            s.eid,
            s.taken(start, now).own().ip_claim->Claimed_0.k,
        ),
        forall|id: EndpointId| #[trigger]
            s.taken(start, now).states.contains_key(id) && id != s.eid
                ==> s.taken(start, now).states[id].inner.ip_claim.spec_ip()
                != s.taken(start, now).own().ip_claim.spec_ip(),
{
    let k = next_free(s.eid, s.occupied(), start).unwrap();
    assert(crate::mesh::first_free(s.eid, s.occupied(), start, k));
    lemma_claiming(s, k, now);
    let t = s.taken(start, now);
    assert forall|id: EndpointId| #[trigger] t.states.contains_key(id) && id != s.eid implies t.states[id].inner.ip_claim.spec_ip()
        != t.own().ip_claim.spec_ip() by {
        assert(s.states.contains_key(id));
        if t.states[id].inner.ip_claim.spec_ip() == t.own().ip_claim.spec_ip() {
            assert(s.occupied().contains(candidate_of(s.eid, k)));
        }
    }
}

/// The index of the candidate after the one that the node claims.
pub open spec fn next_index(s: MeshView) -> u64 {
    let k = s.own().ip_claim->Claimed_0.k;
    if k < u64::MAX {
        (k + 1) as u64
    } else {
        u64::MAX
    }
}

/// The node lost its address, and none of its further candidates is free.
pub open spec fn stranded(s: MeshView) -> bool {
    s.lost_own() && next_free(
        s.eid,
        s.settled(s.claimants(), s.claimants().len()).occupied(),
        next_index(s),
    ) is None
}

/// After conflicts are resolved no two nodes claim the same address, unless the node
/// itself lost its address and found no other one free.
pub proof fn resolved_has_no_conflict(s: MeshView, now: WallMs)
    requires
        s.inv(),
        !stranded(s),
    ensures
        no_conflict(s.resolved(now)),
{
    let claims = s.claimants();
    let t = s.settled(claims, claims.len());
    crate::mesh_inv::settled_keeps(s, claims, claims.len());
    assert forall|a: EndpointId, b: EndpointId|
        s.states.contains_key(a) && s.states.contains_key(b) && a != b && t.states[a].inner.ip_claim is Claimed
            && t.states[a].inner.ip_claim.spec_ip() == t.states[b].inner.ip_claim.spec_ip() implies (a == s.eid || b
        == s.eid) && s.lost_own() by {
        settling_leaves_winners(s, a);
        settling_leaves_winners(s, b);
    }
    if s.lost_own() {
        let k = s.own().ip_claim->Claimed_0.k;
        let start = if k < u64::MAX {
            (k + 1) as u64
        } else {
            u64::MAX
        };
        if next_free(t.eid, t.occupied(), start) is Some {
            taken_address_is_free(t, start, now);
            lemma_claiming(t, next_free(t.eid, t.occupied(), start).unwrap(), now);
            let u = t.taken(start, now);
            assert forall|a: EndpointId, b: EndpointId|
                #![trigger u.states.contains_key(a), u.states.contains_key(b)]
                u.states.contains_key(a) && u.states.contains_key(b) && a != b
                    && u.states[a].inner.ip_claim is Claimed implies u.states[a].inner.ip_claim.spec_ip()
                != u.states[b].inner.ip_claim.spec_ip() by {
                assert(s.states.contains_key(a));
                assert(s.states.contains_key(b));
                if a != s.eid && b != s.eid {
                    assert(u.states[a] == t.states[a]);
                    assert(u.states[b] == t.states[b]);
                }
            }
        }
    } else {
        assert forall|a: EndpointId, b: EndpointId|
            #![trigger t.states.contains_key(a), t.states.contains_key(b)]
            t.states.contains_key(a) && t.states.contains_key(b) && a != b
                && t.states[a].inner.ip_claim is Claimed implies t.states[a].inner.ip_claim.spec_ip()
            != t.states[b].inner.ip_claim.spec_ip() by {
            assert(s.states.contains_key(a));
            assert(s.states.contains_key(b));
        }
    }
}

/// A node that lost its address takes a further candidate, which is not the address that
/// it lost; if none is free, its announcement stays as it is.
pub proof fn losers_take_another_address(s: MeshView, now: WallMs)
    requires
        s.inv(),
        s.lost_own(),
    ensures
        !stranded(s) ==> s.resolved(now).own().ip_claim is Claimed,
        !stranded(s) ==> s.resolved(now).own().ip_claim->Claimed_0.k >= next_index(s),
        !stranded(s) ==> s.resolved(now).own().ip_claim.spec_ip() != s.own().ip_claim.spec_ip(),
        stranded(s) ==> s.resolved(now).own() == s.own(),
{
    let claims = s.claimants();
    let t = s.settled(claims, claims.len());
    crate::mesh_inv::settled_keeps(s, claims, claims.len());
    if !stranded(s) {
        taken_address_is_free(t, next_index(s), now);
        lemma_claiming(t, next_free(t.eid, t.occupied(), next_index(s)).unwrap(), now);
        let ip = s.own().ip_claim->Claimed_0.ip;
        let rivals = crate::claims::claims_for(claims, ip);
        crate::mesh_inv::own_claim_is_listed(s);
        crate::claims::lemma_winner_is_among(s.config.simultaneous_range, rivals);
        let w = crate::claims::winner(s.config.simultaneous_range, rivals);
        lemma_rival(s, ip, w);
        settling_leaves_winners(s, w.0);
        assert(s.resolved(now).states.contains_key(w.0));
    }
}

/// Every candidate address stays away from the first two and the last address of
/// the subnet.
pub proof fn candidates_are_usable(id: EndpointId, k: u64)
    ensures
        2 <= candidate_of(id, k) <= 65_534,
{
}

/// Taking in an announcement twice is the same as taking it in once.
pub proof fn merge_is_idempotent(s: MeshView, a: SignedView, now: WallMs, later: WallMs)
    ensures
        s.merged(a, now).merged(a, later) == s.merged(a, now),
        a.verifies() ==> s.merged(a, now).merge_answer(a) == Ok::<bool, crate::node::MeshError>(false),
{
}

/// The order in which announcements arrive does not matter for what is known,
/// unless one author announces two different things under one version.
pub proof fn merge_is_commutative(s: MeshView, a: SignedView, b: SignedView, t1: WallMs, t2: WallMs)
    requires
        a.inner.endpoint_id == b.inner.endpoint_id && a.inner.version == b.inner.version ==> a == b,
    ensures
        s.merged(a, t1).merged(b, t2).states == s.merged(b, t1).merged(a, t2).states,
{
    assert(s.merged(a, t1).merged(b, t2).states =~= s.merged(b, t1).merged(a, t2).states);
}

/// What is known of an author never gets older by an announcement, whoever sends it.
pub proof fn merge_never_goes_back(s: MeshView, a: SignedView, now: WallMs, id: EndpointId)
    requires
        s.states.contains_key(id),
    ensures
        s.merged(a, now).states.contains_key(id),
        s.merged(a, now).states[id] == s.states[id] || s.states[id].inner.version.older(
            s.merged(a, now).states[id].inner.version,
        ),
{
}

/// An announcement that verifies is known afterwards, or something newer is.
pub proof fn merge_catches_up(s: MeshView, a: SignedView, now: WallMs)
    requires
        s.inv(),
        a.verifies(),
        a.inner.endpoint_id != s.eid,
    ensures
        s.merged(a, now).states.contains_key(a.inner.endpoint_id),
        !s.merged(a, now).states[a.inner.endpoint_id].inner.version.older(a.inner.version),
{
}

/// What is known of an author after an announcement, by what was known before: the newer
/// of the two.
pub open spec fn newer(known: Option<SignedView>, a: SignedView) -> SignedView {
    match known {
        Some(k) => if k.inner.version.older(a.inner.version) {
            a
        } else {
            k
        },
        None => a,
    }
}

/// What is known of an author.
pub open spec fn known_of(s: MeshView, id: EndpointId) -> Option<SignedView> {
    if s.states.contains_key(id) {
        Some(s.states[id])
    } else {
        None
    }
}

/// Of two announcements of another author and what was known before, the newest stays, in
/// whichever order they come, and what is known of everyone else stays as it is.
pub proof fn newest_announcement_is_kept(s: MeshView, a: SignedView, b: SignedView, t1: WallMs, t2: WallMs)
    requires
        a.verifies(),
        b.verifies(),
        a.inner.endpoint_id == b.inner.endpoint_id,
        a.inner.endpoint_id != s.eid,
        a.inner.version != b.inner.version,
    ensures
        ({
            let author = a.inner.endpoint_id;
            let kept = newer(Some(newer(known_of(s, author), a)), b);
            &&& s.merged(a, t1).merged(b, t2).states == s.states.insert(author, kept)
            &&& s.merged(b, t1).merged(a, t2).states == s.states.insert(author, kept)
            &&& kept == a || kept == b || known_of(s, author) == Some(kept)
            &&& !kept.inner.version.older(a.inner.version)
            &&& !kept.inner.version.older(b.inner.version)
            &&& known_of(s, author) matches Some(k) ==> !kept.inner.version.older(k.inner.version)
        }),
{
    let author = a.inner.endpoint_id;
    let kept = newer(Some(newer(known_of(s, author), a)), b);
    assert(s.merged(a, t1).merged(b, t2).states =~= s.states.insert(author, kept));
    assert(s.merged(b, t1).merged(a, t2).states =~= s.states.insert(author, kept));
}

/// A forged announcement changes nothing.
pub proof fn forged_announcements_change_nothing(s: MeshView, a: SignedView, now: WallMs)
    requires
        !a.verifies(),
    ensures
        s.merged(a, now) == s,
        s.merge_answer(a) == Err::<bool, crate::node::MeshError>(crate::node::MeshError::BadSignature),
{
}

proof fn lemma_merged_all_monotone(s: MeshView, list: Seq<SignedView>, now: WallMs, id: EndpointId)
    requires
        s.states.contains_key(id),
    ensures
        s.merged_all(list, now).states.contains_key(id),
        s.merged_all(list, now).states[id] == s.states[id] || s.states[id].inner.version.older(
            s.merged_all(list, now).states[id].inner.version,
        ),
    decreases list.len(),
{
    if list.len() > 0 {
        lemma_merged_all_monotone(s, list.drop_last(), now, id);
    }
}

/// A node that takes in everything another node knows knows every author of it
/// afterwards, with a version that is not older, if all announcements verify.
pub proof fn merging_all_catches_up(s: MeshView, list: Seq<SignedView>, now: WallMs, i: int)
    requires
        s.inv(),
        forall|j: int| 0 <= j < list.len() ==> (#[trigger] list[j]).verifies(),
        forall|j: int| 0 <= j < list.len() ==> crate::keys::valid_public_key((#[trigger] list[j]).inner.endpoint_id.bytes),
        0 <= i < list.len(),
        list[i].inner.endpoint_id != s.eid,
    ensures
        s.merge_all_answer(list, now) is Ok,
        s.merged_all(list, now).states.contains_key(list[i].inner.endpoint_id),
        !s.merged_all(list, now).states[list[i].inner.endpoint_id].inner.version.older(list[i].inner.version),
    decreases list.len(),
{
    let rest = list.drop_last();
    lemma_answer_ok(s, list, now);
    lemma_answer_ok(s, rest, now);
    crate::mesh_inv::merged_all_keeps(s, rest, now);
    let t = s.merged_all(rest, now);
    if i < rest.len() {
        merging_all_catches_up(s, rest, now, i);
        merge_never_goes_back(t, list.last(), now, list[i].inner.endpoint_id);
    } else {
        merge_catches_up(t, list.last(), now);
    }
}

proof fn lemma_answer_ok(s: MeshView, list: Seq<SignedView>, now: WallMs)
    requires
        forall|j: int| 0 <= j < list.len() ==> (#[trigger] list[j]).verifies(),
    ensures
        s.merge_all_answer(list, now) is Ok,
    decreases list.len(),
{
    if list.len() > 0 {
        lemma_answer_ok(s, list.drop_last(), now);
        assert(list[list.len() - 1].verifies());
    }
}

/// The device follows the claim: it is up on the claimed address, and down without
/// a claim.
pub open spec fn tun_follows(s: MeshView) -> bool {
    match s.tun {
        TunState::Up { ip } => s.own().ip_claim.spec_ip() == Some(ip),
        TunState::Down => s.own().ip_claim is Unclaimed,
    }
}

/// A device that is up belongs to a node with a claim.
pub open spec fn tun_needs_claim(s: MeshView) -> bool {
    s.tun is Up ==> s.own().ip_claim is Claimed
}

/// A node with a claim keeps it when it looks for an address, and its device follows.
pub proof fn claims_are_kept(s: MeshView, now: WallMs)
    requires
        s.inv(),
        s.own().ip_claim is Claimed,
    ensures
        s.maybe_claimed(now).states == s.states,
        tun_follows(s.maybe_claimed(now)),
{
}

/// Looking for an address leaves the device in line with the claim.
pub proof fn maybe_claimed_syncs(s: MeshView, now: WallMs)
    requires
        s.inv(),
        tun_needs_claim(s),
    ensures
        tun_follows(s.maybe_claimed(now)),
{
    if s.own().ip_claim is Unclaimed && s.ready(now) {
        match next_free(s.eid, s.occupied(), 0) {
            Some(k) => {
                lemma_claiming(s, k, now);
            },
            None => {},
        }
    }
}

/// After each tick the device follows the claim, and the own version has grown.
pub proof fn tick_syncs(s: MeshView, now: WallMs)
    requires
        s.inv(),
        s.room(2, now),
        tun_needs_claim(s),
    ensures
        tun_follows(s.ticked(now)),
        s.own().version.older(s.ticked(now).own().version),
{
    crate::mesh_inv::expired_keeps(s, now);
    let a = s.expired(now);
    crate::mesh_inv::written_keeps(a, now, a.own().ip_claim, a.own().exposed_ports);
    let b = a.written(now, a.own().ip_claim, a.own().exposed_ports);
    let c = MeshView {
        quiet_ticks: if b.quiet_ticks < u64::MAX {
            (b.quiet_ticks + 1) as u64
        } else {
            u64::MAX
        },
        ..b
    };
    assert(c.inv());
    maybe_claimed_syncs(c, now);
    if c.own().ip_claim is Unclaimed && c.ready(now) {
        match next_free(c.eid, c.occupied(), 0) {
            Some(k) => {
                lemma_claiming(c, k, now);
            },
            None => {},
        }
    }
}

/// A frame that changes the view leaves the device in line with the claim, one that
/// does not leaves the device alone; either way a device that is up belongs to a
/// node with a claim.
pub proof fn frame_syncs(s: MeshView, from: EndpointId, bytes: Seq<u8>, now: WallMs)
    requires
        s.inv(),
        tun_needs_claim(s),
    ensures
        tun_needs_claim(s.framed(from, bytes, now)),
        tun_follows(s) ==> tun_follows(s.framed(from, bytes, now)),
{
    crate::mesh_inv::frame_authors_valid(bytes);
    match crate::mesh::frame_states(bytes) {
        Err(_) => {},
        Ok(list) => {
            crate::mesh_inv::merged_all_keeps(s, list, now);
            let t = s.merged_all(list, now).refreshed(from, now);
            assert(t.inv());
            lemma_resolved_tun(t, now);
            crate::mesh_inv::resolved_keeps(t, now);
            maybe_claimed_syncs(t.resolved(now), now);
        },
    }
}

proof fn lemma_resolved_tun(s: MeshView, now: WallMs)
    requires
        s.inv(),
        tun_needs_claim(s),
    ensures
        tun_needs_claim(s.resolved(now)),
{
    let claims = s.claimants();
    let t = s.settled(claims, claims.len());
    crate::mesh_inv::settled_keeps(s, claims, claims.len());
    let k = s.own().ip_claim->Claimed_0.k;
    let start = if k < u64::MAX {
        (k + 1) as u64
    } else {
        u64::MAX
    };
    match next_free(t.eid, t.occupied(), start) {
        Some(j) => {
            lemma_claiming(t, j, now);
        },
        None => {},
    }
}

/// Resolving conflicts takes no address away from a node that wins it.
pub proof fn winners_keep_their_claim(s: MeshView, now: WallMs)
    requires
        s.inv(),
        s.own().ip_claim is Claimed,
        winner_of(s, s.own().ip_claim->Claimed_0.ip) == s.eid,
    ensures
        s.resolved(now).own() == s.own(),
{
    let claims = s.claimants();
    crate::mesh_inv::settled_keeps(s, claims, claims.len());
}

/// A node that no other node contests wins its address.
pub proof fn sole_claims_win(s: MeshView)
    requires
        s.inv(),
        s.own().ip_claim is Claimed,
        forall|id: EndpointId| #[trigger]
            s.states.contains_key(id) && id != s.eid ==> s.states[id].inner.ip_claim.spec_ip()
                != s.own().ip_claim.spec_ip(),
    ensures
        winner_of(s, s.own().ip_claim->Claimed_0.ip) == s.eid,
        !s.lost_own(),
{
    let ip = s.own().ip_claim->Claimed_0.ip;
    let rivals = crate::claims::claims_for(s.claimants(), ip);
    crate::mesh_inv::own_claim_is_listed(s);
    let w = crate::claims::winner(s.config.simultaneous_range, rivals);
    crate::claims::lemma_winner_is_among(s.config.simultaneous_range, rivals);
    lemma_rival(s, ip, w);
}

/// A peer that is connected, or was heard of lately, is not forgotten by a tick; one
/// that has been silent for the timeout is.
pub proof fn only_departed_peers_are_forgotten(s: MeshView, now: WallMs, id: EndpointId)
    requires
        s.inv(),
        s.peers.contains_key(id),
        id != s.eid,
    ensures
        s.expired(now).peers.contains_key(id) <==> s.peers[id].connected || crate::mesh::age(
            now,
            s.peers[id].last_fresh_ms,
        ) < s.config.disconnect_timeout,
        s.departed(now).contains(id) ==> !s.expired(now).states.contains_key(id),
        !s.departed(now).contains(id) && s.states.contains_key(id) ==> s.expired(now).states.contains_key(id)
            && s.expired(now).states[id] == s.states[id],
{
}

/// A frame never makes a node see an older version of anyone, itself included.
pub proof fn frames_never_go_back(s: MeshView, from: EndpointId, bytes: Seq<u8>, now: WallMs, id: EndpointId)
    requires
        s.inv(),
        s.room(1, now),
        s.states.contains_key(id),
    ensures
        s.framed(from, bytes, now).states.contains_key(id),
        !s.framed(from, bytes, now).states[id].inner.version.older(s.states[id].inner.version),
{
    crate::mesh_inv::frame_authors_valid(bytes);
    match crate::mesh::frame_states(bytes) {
        Err(_) => {},
        Ok(list) => {
            crate::mesh_inv::merged_all_keeps(s, list, now);
            lemma_merged_all_monotone(s, list, now, id);
            let t = s.merged_all(list, now).refreshed(from, now);
            assert(t.inv());
            let claims = t.claimants();
            let u = t.settled(claims, claims.len());
            settling_leaves_winners(t, id);
            crate::mesh_inv::settled_keeps(t, claims, claims.len());
            let k = t.own().ip_claim->Claimed_0.k;
            let start = if k < u64::MAX {
                (k + 1) as u64
            } else {
                u64::MAX
            };
            lemma_taken_versions(u, start, now, id);
            crate::mesh_inv::resolved_keeps(t, now);
            crate::mesh_inv::resolved_room(t, now);
            if t.resolved(now).own().ip_claim is Unclaimed {
                lemma_taken_versions(t.resolved(now), 0, now, id);
            }
        },
    }
}

proof fn lemma_taken_versions(s: MeshView, start: u64, now: WallMs, id: EndpointId)
    requires
        s.inv(),
        s.room(1, now),
        s.states.contains_key(id),
    ensures
        s.taken(start, now).states.contains_key(id),
        !s.taken(start, now).states[id].inner.version.older(s.states[id].inner.version),
{
    match next_free(s.eid, s.occupied(), start) {
        Some(k) => {
            lemma_claiming(s, k, now);
        },
        None => {},
    }
}

/// The announcement of another node does not verify as this node holds it.
pub open spec fn dropped_here(s: MeshView, id: EndpointId) -> bool {
    s.states.contains_key(id) && id != s.eid && !s.states[id].verifies()
}

/// Every announcement of another node verifies as this node holds it.
pub open spec fn nothing_dropped(s: MeshView) -> bool {
    forall|id: EndpointId| !#[trigger] dropped_here(s, id)
}

/// An announcement of another node that does not verify is one whose claim was dropped
/// here: it has no claim, and with a claim put back it is what its author signed.
pub proof fn only_dropped_claims_fail(s: MeshView, id: EndpointId)
    requires
        s.inv(),
        dropped_here(s, id),
    ensures
        s.states[id].inner.ip_claim is Unclaimed,
        exists|c: Claim| #[trigger] s.states[id].with_claim(IpClaim::Claimed(c)).verifies(),
{
}

/// Every other node keeps its claim when the claims that `s` knows are settled.
pub open spec fn others_keep_their_claims(s: MeshView) -> bool {
    forall|id: EndpointId| #[trigger]
        s.states.contains_key(id) && id != s.eid && s.states[id].inner.ip_claim is Claimed ==> winner_of(
            s,
            s.states[id].inner.ip_claim->Claimed_0.ip,
        ) == id
}

proof fn lemma_merging_drops_nothing(s: MeshView, list: Seq<SignedView>, now: WallMs)
    requires
        nothing_dropped(s),
    ensures
        nothing_dropped(s.merged_all(list, now)),
    decreases list.len(),
{
    if list.len() > 0 {
        lemma_merging_drops_nothing(s, list.drop_last(), now);
        merging_drops_nothing(s.merged_all(list.drop_last(), now), list.last(), now);
    }
}

/// Merging an announcement drops no claim, and an announcement that brings something new
/// mends what was dropped of its author.
pub proof fn merging_drops_nothing(s: MeshView, a: SignedView, now: WallMs)
    ensures
        nothing_dropped(s) ==> nothing_dropped(s.merged(a, now)),
        a.verifies() && !s.stale(a) ==> !dropped_here(s.merged(a, now), a.inner.endpoint_id),
{
    let t = s.merged(a, now);
    if nothing_dropped(s) {
        assert forall|id: EndpointId| !#[trigger] dropped_here(t, id) by {
            assert(!dropped_here(s, id));
        }
    }
}

proof fn lemma_same_others(s: MeshView, t: MeshView)
    requires
        nothing_dropped(s),
        t.eid == s.eid,
        forall|id: EndpointId| #[trigger]
            t.states.contains_key(id) && id != s.eid ==> s.states.contains_key(id) && t.states[id] == s.states[id],
    ensures
        nothing_dropped(t),
{
    assert forall|id: EndpointId| !#[trigger] dropped_here(t, id) by {
        assert(!dropped_here(s, id));
    }
}

proof fn lemma_claiming_drops_nothing(s: MeshView, start: u64, now: WallMs)
    requires
        s.inv(),
        nothing_dropped(s),
    ensures
        nothing_dropped(s.taken(start, now)),
        nothing_dropped(s.maybe_claimed(now)),
{
    match next_free(s.eid, s.occupied(), start) {
        Some(k) => {
            lemma_claiming(s, k, now);
        },
        None => {},
    }
    match next_free(s.eid, s.occupied(), 0) {
        Some(k) => {
            lemma_claiming(s, k, now);
        },
        None => {},
    }
    lemma_same_others(s, s.taken(start, now));
    lemma_same_others(s, s.maybe_claimed(now));
}

/// Claims are dropped only where a frame brings a conflict that another node loses:
/// otherwise a node whose announcements all verify has only such announcements after
/// every event.
pub proof fn only_lost_conflicts_drop_claims(
    s: MeshView,
    key: crate::keys::SecretKey,
    config: crate::mesh::Config,
    now: WallMs,
    from: EndpointId,
    bytes: Seq<u8>,
)
    requires
        s.inv(),
        nothing_dropped(s),
    ensures
        nothing_dropped(MeshView::started(key, config, now)),
        nothing_dropped(s.ticked(now)),
        nothing_dropped(s.joined(from, now)),
        nothing_dropped(s.left(from)),
        crate::mesh::frame_states(bytes) matches Ok(list) ==> (s.merge_all_answer(list, now) != Ok::<
            bool,
            crate::node::MeshError,
        >(true) || others_keep_their_claims(s.merged_all(list, now).refreshed(from, now))) ==> nothing_dropped(
            s.framed(from, bytes, now),
        ),
        crate::mesh::frame_states(bytes) is Err ==> nothing_dropped(s.framed(from, bytes, now)),
{
    lemma_same_others(s, s.joined(from, now));
    lemma_same_others(s, s.left(from));
    crate::mesh_inv::expired_keeps(s, now);
    let a = s.expired(now);
    lemma_same_others(s, a);
    crate::mesh_inv::written_keeps(a, now, a.own().ip_claim, a.own().exposed_ports);
    let b = a.written(now, a.own().ip_claim, a.own().exposed_ports);
    lemma_same_others(a, b);
    let c = MeshView {
        quiet_ticks: if b.quiet_ticks < u64::MAX {
            (b.quiet_ticks + 1) as u64
        } else {
            u64::MAX
        },
        ..b
    };
    assert(c.inv());
    lemma_same_others(b, c);
    lemma_claiming_drops_nothing(c, 0, now);
    lemma_same_others(c.maybe_claimed(now), s.ticked(now));
    crate::mesh_inv::frame_authors_valid(bytes);
    if let Ok(list) = crate::mesh::frame_states(bytes) {
        crate::mesh_inv::merged_all_keeps(s, list, now);
        lemma_merging_drops_nothing(s, list, now);
        let t = s.merged_all(list, now).refreshed(from, now);
        assert(t.inv());
        lemma_same_others(s.merged_all(list, now), t);
        if others_keep_their_claims(t) {
            let u = t.settled(t.claimants(), t.claimants().len());
            crate::mesh_inv::settled_keeps(t, t.claimants(), t.claimants().len());
            assert forall|id: EndpointId| #[trigger]
                u.states.contains_key(id) && id != t.eid implies t.states.contains_key(id) && u.states[id]
                == t.states[id] by {
                assert(t.states.contains_key(id));
                settling_leaves_winners(t, id);
            }
            lemma_same_others(t, u);
            lemma_claiming_drops_nothing(u, next_index(t), now);
            crate::mesh_inv::resolved_keeps(t, now);
            lemma_claiming_drops_nothing(t.resolved(now), 0, now);
        }
    }
}

/// Whoever takes in the frame of a node that dropped a claim of another one answers that a
/// signature is bad, until that one announces itself anew.
pub proof fn dropped_claims_spoil_frames(
    sender: MeshView,
    receiver: MeshView,
    now: WallMs,
    id: EndpointId,
)
    requires
        sender.inv(),
        crate::mesh::frame_states(sender.frame()) == Ok::<Seq<SignedView>, crate::wire::CodecError>(
            sender.announcements(),
        ),
        dropped_here(sender, id),
    ensures
        receiver.frame_answer(sender.frame(), now) == Err::<(), crate::node::MeshError>(
            crate::node::MeshError::BadSignature,
        ),
{
    let list = sender.announcements();
    let ids = crate::id::listed(sender.states.dom());
    crate::id::lemma_listed_finite(sender.states.dom());
    assert(ids.to_set().contains(id));
    let i = choose|i: int| 0 <= i < ids.len() && ids[i] == id;
    assert(list[i] == sender.states[id]);
    lemma_only_bad_signatures(receiver, list, now);
    if receiver.merge_all_answer(list, now) is Ok {
        lemma_ok_means_verified(receiver, list, now);
    }
}

proof fn lemma_only_bad_signatures(s: MeshView, list: Seq<SignedView>, now: WallMs)
    ensures
        s.merge_all_answer(list, now) matches Err(e) ==> e == crate::node::MeshError::BadSignature,
    decreases list.len(),
{
    if list.len() > 0 {
        lemma_only_bad_signatures(s, list.drop_last(), now);
    }
}

/// A node that takes in another node's frame is told everything that node knows: it
/// answers without an error and knows every author of it afterwards, with a
/// version that is not older. The sender's frame reads back and its own announcement is
/// signed, as is so of every node. An announcement whose claim the sender dropped does
/// not verify any more, so this is about senders that hold no such one.
pub proof fn frames_tell_everything(
    sender: MeshView,
    receiver: MeshView,
    from: EndpointId,
    now: WallMs,
    id: EndpointId,
)
    requires
        sender.inv(),
        receiver.inv(),
        receiver.room(1, now),
        crate::mesh::frame_states(sender.frame()) == Ok::<Seq<SignedView>, crate::wire::CodecError>(
            sender.announcements(),
        ),
        sender.own_signed(),
        sender.states[sender.eid].signature.r@ != crate::keys::neutral_point(),
        nothing_dropped(sender),
        sender.states.contains_key(id),
        id != receiver.eid,
    ensures
        receiver.frame_answer(sender.frame(), now) is Ok,
        receiver.framed(from, sender.frame(), now).states.contains_key(id),
        !receiver.framed(from, sender.frame(), now).states[id].inner.version.older(
            sender.states[id].inner.version,
        ),
{
    let list = sender.announcements();
    let ids = crate::id::listed(sender.states.dom());
    crate::id::lemma_listed_finite(sender.states.dom());
    assert forall|j: int| 0 <= j < list.len() implies (#[trigger] list[j]).verifies()
        && crate::keys::valid_public_key(list[j].inner.endpoint_id.bytes) by {
        assert(ids.to_set().contains(ids[j]));
        assert(sender.states.contains_key(ids[j]));
        assert(!dropped_here(sender, ids[j]));
    }
    assert(ids.to_set().contains(id));
    let i = choose|i: int| 0 <= i < ids.len() && ids[i] == id;
    assert(list[i] == sender.states[id]);
    merging_all_catches_up(receiver, list, now, i);
    lemma_framed_parts(receiver, from, sender.frame(), now, id);
}

proof fn lemma_filter_map(
    list: Seq<EndpointId>,
    f: spec_fn(EndpointId) -> Claimant,
    q: spec_fn(Claimant) -> bool,
)
    ensures
        list.map_values(f).filter(q) == list.filter(|id: EndpointId| q(f(id))).map_values(f),
    decreases list.len(),
{
    reveal(Seq::filter);
    let p = |id: EndpointId| q(f(id));
    if list.len() == 0 {
        assert(list.map_values(f).filter(q) =~= list.filter(p).map_values(f));
    } else {
        let rest = list.drop_last();
        lemma_filter_map(rest, f, q);
        assert(list.map_values(f).drop_last() =~= rest.map_values(f));
        assert(list.map_values(f).last() == f(list.last()));
        assert(list.map_values(f).filter(q) =~= list.filter(p).map_values(f));
    }
}

/// The nodes that claim an address, as far as `s` knows.
pub open spec fn claimants_of(s: MeshView, ip: u16) -> Set<EndpointId> {
    Set::new(
        |id: EndpointId| s.states.contains_key(id) && s.states[id].inner.ip_claim.spec_ip() == Some(ip),
    )
}

/// The claims to an address are those of the nodes that claim it, by ascending identity.
pub proof fn lemma_claims_for_ip(s: MeshView, ip: u16)
    requires
        s.inv(),
    ensures
        crate::claims::claims_for(s.claimants(), ip) == crate::id::listed(claimants_of(s, ip)).map_values(
            |id: EndpointId| (id, s.states[id].inner.ip_claim->Claimed_0),
        ),
{
    let set = Set::new(
        |id: EndpointId| s.states.contains_key(id) && s.states[id].inner.ip_claim is Claimed,
    );
    assert(set =~= s.states.dom().intersect(set));
    crate::id::lemma_listed_finite(set);
    let list = crate::id::listed(set);
    let f = |id: EndpointId| (id, s.states[id].inner.ip_claim->Claimed_0);
    let q = |c: Claimant| c.1.ip == ip;
    let p = |id: EndpointId| q(f(id));
    lemma_filter_map(list, f, q);
    crate::id::lemma_listed_filter(list, p);
    assert(Set::new(|id: EndpointId| list.contains(id) && p(id)) =~= claimants_of(s, ip)) by {
        assert forall|id: EndpointId| list.contains(id) <==> set.contains(id) by {
            assert(list.to_set().contains(id) <==> list.contains(id));
        }
    }
}

/// Nodes with the same settings that see the same claims to an address agree on who
/// keeps it.
pub proof fn nodes_agree_on_the_winner(s: MeshView, t: MeshView, ip: u16)
    requires
        s.inv(),
        t.inv(),
        s.config.simultaneous_range == t.config.simultaneous_range,
        claimants_of(s, ip) == claimants_of(t, ip),
        forall|id: EndpointId| #[trigger]
            claimants_of(s, ip).contains(id) ==> s.states[id].inner.ip_claim == t.states[id].inner.ip_claim,
    ensures
        winner_of(s, ip) == winner_of(t, ip),
{
    lemma_claims_for_ip(s, ip);
    lemma_claims_for_ip(t, ip);
    let ids = claimants_of(s, ip);
    assert(ids =~= s.states.dom().intersect(ids));
    crate::id::lemma_listed_finite(ids);
    let list = crate::id::listed(ids);
    assert forall|i: int| 0 <= i < list.len() implies ids.contains(#[trigger] list[i]) by {
        assert(list.to_set().contains(list[i]));
    }
    assert(crate::claims::claims_for(s.claimants(), ip) =~= crate::claims::claims_for(t.claimants(), ip));
}

/// A device that is up belongs to a node with a claim, from the start on and whatever
/// happens.
pub proof fn devices_need_claims(
    s: MeshView,
    key: crate::keys::SecretKey,
    config: crate::mesh::Config,
    now: WallMs,
    id: EndpointId,
    bytes: Seq<u8>,
)
    requires
        s.inv(),
        s.room(2, now),
        tun_needs_claim(s),
    ensures
        tun_needs_claim(MeshView::started(key, config, now)),
        tun_needs_claim(s.ticked(now)),
        tun_needs_claim(s.framed(id, bytes, now)),
        tun_needs_claim(s.joined(id, now)),
        tun_needs_claim(s.left(id)),
{
    tick_syncs(s, now);
    frame_syncs(s, id, bytes, now);
}

/// A claim that was settled against a node stays dropped: the announcement that made it
/// is stale, however often it comes again.
pub proof fn stale_duplicates_are_ignored(s: MeshView, id: EndpointId, now: WallMs)
    requires
        s.inv(),
        s.states.contains_key(id),
    ensures
        ({
            let t = s.settled(s.claimants(), s.claimants().len());
            t.merged(s.states[id], now) == t
        }),
{
    settling_leaves_winners(s, id);
    crate::mesh_inv::settled_keeps(s, s.claimants(), s.claimants().len());
}

proof fn lemma_tick_parts(s: MeshView, now: WallMs) -> (t: MeshView)
    requires
        s.inv(),
    ensures
        t.inv(),
        t.eid == s.eid,
        t.config == s.config,
        t.own().ip_claim == s.own().ip_claim,
        t.live_peers(now) == s.live_peers(now),
        t.quiet_ticks <= s.quiet_ticks + 1,
        s.departed(now).is_empty() ==> t.quiet_ticks == s.quiet_ticks + 1 || t.quiet_ticks == u64::MAX,
        s.departed(now).is_empty() ==> t.occupied() == s.occupied(),
        s.ticked(now) == t.maybe_claimed(now).sent_to_all(),
{
    crate::mesh_inv::expired_keeps(s, now);
    let a = s.expired(now);
    crate::mesh_inv::written_keeps(a, now, a.own().ip_claim, a.own().exposed_ports);
    let b = a.written(now, a.own().ip_claim, a.own().exposed_ports);
    let c = MeshView {
        quiet_ticks: if b.quiet_ticks < u64::MAX {
            (b.quiet_ticks + 1) as u64
        } else {
            u64::MAX
        },
        ..b
    };
    assert(c.live_peers(now) =~= s.live_peers(now));
    if s.departed(now).is_empty() {
        crate::id::lemma_listed_finite(s.departed(now));
        assert(crate::id::listed(s.departed(now)).to_set() =~= s.departed(now));
        if crate::id::listed(s.departed(now)).len() > 0 {
            assert(crate::id::listed(s.departed(now)).to_set().contains(crate::id::listed(s.departed(now))[0]));
        }
        assert forall|ip: u16| c.occupied().contains(ip) <==> s.occupied().contains(ip) by {
            if s.occupied().contains(ip) {
                let id = choose|id: EndpointId|
                    #![trigger s.states.contains_key(id)]
                    s.states.contains_key(id) && id != s.eid && s.states[id].inner.ip_claim.spec_ip() == Some(ip);
                assert(c.states.contains_key(id));
            }
            if c.occupied().contains(ip) {
                let id = choose|id: EndpointId|
                    #![trigger c.states.contains_key(id)]
                    c.states.contains_key(id) && id != s.eid && c.states[id].inner.ip_claim.spec_ip() == Some(ip);
                assert(s.states.contains_key(id));
            }
        }
        assert(c.occupied() =~= s.occupied());
    }
    c
}

/// A node takes no address by itself before enough peers are there and the view of them
/// has settled.
pub proof fn nodes_wait_for_the_network(s: MeshView, now: WallMs)
    requires
        s.inv(),
        s.own().ip_claim is Unclaimed,
        s.live_peers(now).len() < s.config.min_viable_network || s.quiet_ticks + 1 < s.config.settle_ticks,
    ensures
        s.ticked(now).own().ip_claim is Unclaimed,
        s.ticked(now).tun == s.tun,
{
    let t = lemma_tick_parts(s, now);
    assert(!t.ready(now));
}

/// A node without an address takes one as soon as enough peers are there and the view of
/// them has settled, if one of its candidates is free. A peer that departs unsettles the
/// view, so this is about ticks that find none departed.
pub proof fn ready_nodes_claim(s: MeshView, now: WallMs)
    requires
        s.inv(),
        s.own().ip_claim is Unclaimed,
        s.departed(now).is_empty(),
        s.live_peers(now).len() >= s.config.min_viable_network,
        s.quiet_ticks + 1 >= s.config.settle_ticks,
        next_free(s.eid, s.occupied(), 0) is Some,
    ensures
        s.ticked(now).own().ip_claim is Claimed,
        s.ticked(now).tun is Up,
{
    let t = lemma_tick_parts(s, now);
    assert(t.ready(now));
    lemma_claiming(t, next_free(t.eid, t.occupied(), 0).unwrap(), now);
}

proof fn lemma_ok_means_verified(s: MeshView, list: Seq<SignedView>, now: WallMs)
    requires
        s.merge_all_answer(list, now) is Ok,
    ensures
        forall|j: int| 0 <= j < list.len() ==> (#[trigger] list[j]).verifies(),
    decreases list.len(),
{
    if list.len() > 0 {
        lemma_ok_means_verified(s, list.drop_last(), now);
        assert forall|j: int| 0 <= j < list.len() implies (#[trigger] list[j]).verifies() by {
            if j < list.len() - 1 {
                assert(list.drop_last()[j] == list[j]);
            }
        }
    }
}

proof fn lemma_stale_merges_change_nothing(s: MeshView, list: Seq<SignedView>, now: WallMs)
    requires
        forall|j: int| 0 <= j < list.len() ==> (#[trigger] list[j]).verifies() && s.stale(list[j]),
    ensures
        s.merge_all_answer(list, now) == Ok::<bool, crate::node::MeshError>(false),
        s.merged_all(list, now) == s,
    decreases list.len(),
{
    if list.len() > 0 {
        let rest = list.drop_last();
        assert forall|j: int| 0 <= j < rest.len() implies (#[trigger] rest[j]).verifies() && s.stale(rest[j]) by {
            assert(rest[j] == list[j]);
        }
        lemma_stale_merges_change_nothing(s, rest, now);
        assert(list[list.len() - 1] == list.last());
    }
}

proof fn lemma_framed_parts(s: MeshView, from: EndpointId, bytes: Seq<u8>, now: WallMs, id: EndpointId)
    requires
        s.inv(),
        s.room(1, now),
        s.frame_answer(bytes, now) is Ok,
        s.merged_all(crate::mesh::frame_states(bytes)->Ok_0, now).states.contains_key(id),
    ensures
        s.framed(from, bytes, now).eid == s.eid,
        s.framed(from, bytes, now).states.contains_key(id),
        !s.framed(from, bytes, now).states[id].inner.version.older(
            s.merged_all(crate::mesh::frame_states(bytes)->Ok_0, now).states[id].inner.version,
        ),
{
    crate::mesh_inv::frame_authors_valid(bytes);
    let list = crate::mesh::frame_states(bytes)->Ok_0;
    crate::mesh_inv::merged_all_keeps(s, list, now);
    let t = s.merged_all(list, now).refreshed(from, now);
    assert(t.inv());
    let claims = t.claimants();
    settling_leaves_winners(t, id);
    crate::mesh_inv::settled_keeps(t, claims, claims.len());
    lemma_taken_versions(t.settled(claims, claims.len()), next_index(t), now, id);
    crate::mesh_inv::resolved_keeps(t, now);
    crate::mesh_inv::resolved_room(t, now);
    if t.resolved(now).own().ip_claim is Unclaimed {
        lemma_taken_versions(t.resolved(now), 0, now, id);
    }
}

/// A frame that was taken in is ignored when it comes again, whoever sends it: it is
/// answered without an error, and apart from when its sender was last heard of
/// nothing changes, also where its claims lost a conflict. Nothing is reported, and
/// nothing is sent.
pub proof fn repeated_frames_change_nothing(
    s: MeshView,
    from: EndpointId,
    bytes: Seq<u8>,
    now: WallMs,
    again: EndpointId,
    later: WallMs,
)
    requires
        s.inv(),
        s.room(1, now),
        s.frame_answer(bytes, now) is Ok,
    ensures
        ({
            let t = s.framed(from, bytes, now);
            let drained = MeshView { outbound: Seq::empty(), events: Seq::empty(), ..t };
            &&& t.frame_answer(bytes, later) is Ok
            &&& t.framed(again, bytes, later) == t.refreshed(again, later)
            &&& drained.frame_answer(bytes, later) is Ok
            &&& drained.framed(again, bytes, later) == drained.refreshed(again, later)
            &&& drained.framed(again, bytes, later).states == t.states
            &&& drained.framed(again, bytes, later).tun == t.tun
            &&& drained.framed(again, bytes, later).quiet_ticks == t.quiet_ticks
            &&& drained.framed(again, bytes, later).events.len() == 0
            &&& drained.framed(again, bytes, later).outbound.len() == 0
        }),
{
    let t = s.framed(from, bytes, now);
    let drained = MeshView { outbound: Seq::empty(), events: Seq::empty(), ..t };
    let list = crate::mesh::frame_states(bytes)->Ok_0;
    crate::mesh_inv::frame_authors_valid(bytes);
    lemma_ok_means_verified(s, list, now);
    crate::mesh_inv::merged_all_keeps(s, list, now);
    lemma_framed_parts(s, from, bytes, now, s.eid);
    assert forall|j: int| 0 <= j < list.len() implies (#[trigger] list[j]).verifies() && t.stale(list[j])
        && drained.stale(list[j]) by {
        let author = list[j].inner.endpoint_id;
        if author != s.eid {
            merging_all_catches_up(s, list, now, j);
            lemma_framed_parts(s, from, bytes, now, author);
        }
    }
    lemma_stale_merges_change_nothing(t, list, later);
    lemma_stale_merges_change_nothing(drained, list, later);
}

proof fn lemma_unchanged_claims(s: MeshView, list: Seq<SignedView>, now: WallMs)
    requires
        s.merge_all_answer(list, now) == Ok::<bool, crate::node::MeshError>(false),
    ensures
        s.merged_all(list, now).states.dom() == s.states.dom(),
        forall|id: EndpointId| #[trigger]
            s.states.contains_key(id) ==> s.merged_all(list, now).states[id].inner.ip_claim
                == s.states[id].inner.ip_claim,
    decreases list.len(),
{
    if list.len() > 0 {
        lemma_unchanged_claims(s, list.drop_last(), now);
        assert(s.merged_all(list, now).states.dom() =~= s.states.dom());
    }
}

proof fn lemma_claiming_free_keeps_peace(s: MeshView, now: WallMs)
    requires
        s.inv(),
        no_conflict(s),
    ensures
        no_conflict(s.maybe_claimed(now)),
{
    if s.own().ip_claim is Unclaimed && s.ready(now) && next_free(s.eid, s.occupied(), 0) is Some {
        taken_address_is_free(s, 0, now);
        lemma_claiming(s, next_free(s.eid, s.occupied(), 0).unwrap(), now);
        let u = s.taken(0, now);
        assert forall|a: EndpointId, b: EndpointId|
            #![trigger u.states.contains_key(a), u.states.contains_key(b)]
            u.states.contains_key(a) && u.states.contains_key(b) && a != b
                && u.states[a].inner.ip_claim is Claimed implies u.states[a].inner.ip_claim.spec_ip()
            != u.states[b].inner.ip_claim.spec_ip() by {
            assert(s.states.contains_key(a));
            assert(s.states.contains_key(b));
            if a != s.eid && b != s.eid {
                assert(u.states[a] == s.states[a]);
                assert(u.states[b] == s.states[b]);
            }
        }
    } else {
        assert(s.maybe_claimed(now).states == s.states);
    }
}

/// If no two nodes claim the same address, as far as this node knows, none do after a
/// frame that is answered without an error, unless the frame takes the node's own
/// address away and no other one is free.
pub proof fn frames_keep_the_peace(s: MeshView, from: EndpointId, bytes: Seq<u8>, now: WallMs)
    requires
        s.inv(),
        no_conflict(s),
        s.frame_answer(bytes, now) is Ok,
        !stranded(s.merged_all(crate::mesh::frame_states(bytes)->Ok_0, now).refreshed(from, now)),
    ensures
        no_conflict(s.framed(from, bytes, now)),
{
    crate::mesh_inv::frame_authors_valid(bytes);
    let list = crate::mesh::frame_states(bytes)->Ok_0;
    crate::mesh_inv::merged_all_keeps(s, list, now);
    let t = s.merged_all(list, now).refreshed(from, now);
    assert(t.inv());
    if s.merge_all_answer(list, now) == Ok::<bool, crate::node::MeshError>(true) {
        resolved_has_no_conflict(t, now);
        crate::mesh_inv::resolved_keeps(t, now);
        lemma_claiming_free_keeps_peace(t.resolved(now), now);
    } else {
        lemma_unchanged_claims(s, list, now);
        assert forall|a: EndpointId, b: EndpointId|
            #![trigger t.states.contains_key(a), t.states.contains_key(b)]
            t.states.contains_key(a) && t.states.contains_key(b) && a != b
                && t.states[a].inner.ip_claim is Claimed implies t.states[a].inner.ip_claim.spec_ip()
            != t.states[b].inner.ip_claim.spec_ip() by {
            assert(s.states.contains_key(a));
            assert(s.states.contains_key(b));
        }
    }
}

} // verus!
