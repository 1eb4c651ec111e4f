//! Who keeps an address that several nodes claim.
use vstd::prelude::*;
use std::cmp::Ordering;
use crate::id::EndpointId;
use crate::node::Claim;

verus! {

/// A node and what it claims.
pub type Claimant = (EndpointId, Claim);

/// The distance between two times.
pub open spec fn distance(a: u64, b: u64) -> int {
    if a < b {
        b - a
    } else {
        a - b
    }
}

/// Whether `a` loses against `b`: seniority decides where the claims are further
/// apart than `range`, the lower candidate index otherwise, and the higher
/// identity at last.
pub open spec fn loses(range: u64, a: Claimant, b: Claimant) -> bool {
    if distance(a.1.claimed_at_ms, b.1.claimed_at_ms) > range {
        a.1.claimed_at_ms > b.1.claimed_at_ms
    } else if a.1.k != b.1.k {
        a.1.k > b.1.k
    } else {
        a.0.precedes(b.0)
    }
}

/// Whether `a` loses against `b`.
pub fn loses_against(range: u64, a: &Claimant, b: &Claimant) -> (r: bool)
    ensures
        r == loses(range, *a, *b),
{
    let a_at: u64 = a.1.claimed_at_ms;
    let b_at: u64 = b.1.claimed_at_ms;
    let delta: u64 = if a_at < b_at {
        b_at - a_at
    } else {
        a_at - b_at
    };
    if delta > range {
        a_at > b_at
    } else if a.1.k != b.1.k {
        a.1.k > b.1.k
    } else {
        a.0.is_before(&b.0)
    }
}

/// Orders two claims for the same address: the greater one wins.
///
/// 1. seniority (older claimed_at wins): protects long-running nodes
/// 2. lower k wins
/// 3. higher endpoint id: deterministic tiebreaker
pub fn claim_priority(range: u64, a: (&EndpointId, &Claim), b: (&EndpointId, &Claim)) -> (r: Ordering)
    ensures
        r == Ordering::Less <==> loses(range, (*a.0, *a.1), (*b.0, *b.1)),
        r == Ordering::Greater <==> loses(range, (*b.0, *b.1), (*a.0, *a.1)),
        r == Ordering::Equal ==> a.0 == b.0,
{
    let x: Claimant = (*a.0, *a.1);
    let y: Claimant = (*b.0, *b.1);
    proof {
        crate::id::lemma_precedes_total(x.0, y.0);
        lemma_loses_asymmetric(range, x, y);
    }
    if loses_against(range, &x, &y) {
        Ordering::Less
    } else if loses_against(range, &y, &x) {
        Ordering::Greater
    } else {
        Ordering::Equal
    }
}

/// Two claims never lose against each other.
pub proof fn lemma_loses_asymmetric(range: u64, a: Claimant, b: Claimant)
    ensures
        !(loses(range, a, b) && loses(range, b, a)),
{
    if a.0.precedes(b.0) {
        crate::id::lemma_precedes_asymmetric(a.0, b.0);
    }
}

/// Of the claims of two different nodes exactly one loses, and both nodes see the
/// same one lose.
pub proof fn one_of_two_claims_wins(range: u64, a: Claimant, b: Claimant)
    requires
        a.0 != b.0,
    ensures
        loses(range, a, b) <==> !loses(range, b, a),
{
    lemma_loses_asymmetric(range, a, b);
    crate::id::lemma_precedes_total(a.0, b.0);
}

/// `x` put into `ranked`, behind every claim that it does not lose against, counted
/// from the right.
pub open spec fn placed(range: u64, ranked: Seq<Claimant>, x: Claimant) -> Seq<Claimant>
    decreases ranked.len(),
{
    if ranked.len() == 0 || !loses(range, x, ranked.last()) {
        ranked.push(x)
    } else {
        placed(range, ranked.drop_last(), x).push(ranked.last())
    }
}

/// The claims with the losers before the winners: the winner is the last.
pub open spec fn ranked(range: u64, claims: Seq<Claimant>) -> Seq<Claimant>
    decreases claims.len(),
{
    if claims.len() == 0 {
        Seq::empty()
    } else {
        placed(range, ranked(range, claims.drop_last()), claims.last())
    }
}

/// The claim that stands when the claims meet each other one after the other: a
/// later one takes over unless it loses.
pub open spec fn winner(range: u64, claims: Seq<Claimant>) -> Claimant
    recommends
        claims.len() > 0,
    decreases claims.len(),
{
    if claims.len() <= 1 {
        claims.last()
    } else {
        let standing = winner(range, claims.drop_last());
        if loses(range, claims.last(), standing) {
            standing
        } else {
            claims.last()
        }
    }
}

/// Whether two claims are so far apart in time that seniority decides.
pub open spec fn apart(range: u64, a: Claimant, b: Claimant) -> bool {
    distance(a.1.claimed_at_ms, b.1.claimed_at_ms) > range
}

/// Losing carries over: who loses against a claim loses against whatever that one loses
/// against, unless seniority and candidate indices contradict each other, which takes
/// two claims that are apart although neither is apart from the third, or that are not
/// although one of them is.
pub proof fn losing_carries_over(range: u64, a: Claimant, b: Claimant, c: Claimant)
    requires
        loses(range, a, b),
        loses(range, b, c),
    ensures
        loses(range, a, c) || (apart(range, a, c) <==> !apart(range, a, b) && !apart(range, b, c)),
{
    if a.0.precedes(b.0) && b.0.precedes(c.0) {
        crate::id::lemma_precedes_transitive(a.0, b.0, c.0);
    }
}

/// Losing carries over among these claims.
pub open spec fn orderly(range: u64, claims: Seq<Claimant>) -> bool {
    forall|i: int, j: int, k: int|
        #![trigger claims[i], claims[j], claims[k]]
        0 <= i < claims.len() && 0 <= j < claims.len() && 0 <= k < claims.len() && loses(range, claims[i], claims[j])
            && loses(range, claims[j], claims[k]) ==> loses(range, claims[i], claims[k])
}

/// Every other claim loses against the winner, where losing carries over.
pub proof fn winners_beat_everyone(range: u64, claims: Seq<Claimant>, i: int)
    requires
        orderly(range, claims),
        forall|j: int, k: int| 0 <= j < k < claims.len() ==> (#[trigger] claims[j]).0 != (#[trigger] claims[k]).0,
        0 <= i < claims.len(),
    ensures
        claims[i] == winner(range, claims) || loses(range, claims[i], winner(range, claims)),
    decreases claims.len(),
{
    let n = claims.len() as int;
    if n > 1 {
        let rest = claims.drop_last();
        assert(orderly(range, rest)) by {
            assert forall|i: int, j: int, k: int|
                #![trigger rest[i], rest[j], rest[k]]
                0 <= i < rest.len() && 0 <= j < rest.len() && 0 <= k < rest.len() && loses(range, rest[i], rest[j])
                    && loses(range, rest[j], rest[k]) implies loses(range, rest[i], rest[k]) by {
                assert(rest[i] == claims[i] && rest[j] == claims[j] && rest[k] == claims[k]);
            }
        }
        assert forall|j: int, k: int| 0 <= j < k < rest.len() implies (#[trigger] rest[j]).0 != (#[trigger] rest[k]).0 by {
            assert(rest[j] == claims[j] && rest[k] == claims[k]);
        }
        lemma_winner_is_among(range, rest);
        let w = choose|w: int| 0 <= w < rest.len() && rest[w] == winner(range, rest);
        assert(claims[w] == winner(range, rest));
        one_of_two_claims_wins(range, claims[w], claims[n - 1]);
        if i < n - 1 {
            winners_beat_everyone(range, rest, i);
            assert(rest[i] == claims[i]);
            if claims[i] != claims[w] && !loses(range, claims[n - 1], claims[w]) {
                assert(loses(range, claims[i], claims[w]));
                assert(loses(range, claims[w], claims[n - 1]));
            }
        }
    }
}

/// The winner is one of the claims.
pub proof fn lemma_winner_is_among(range: u64, claims: Seq<Claimant>)
    requires
        claims.len() > 0,
    ensures
        claims.contains(winner(range, claims)),
    decreases claims.len(),
{
    assert(claims[claims.len() - 1] == claims.last());
    if claims.len() > 1 {
        let rest = claims.drop_last();
        lemma_winner_is_among(range, rest);
        let i = choose|i: int| 0 <= i < rest.len() && rest[i] == winner(range, rest);
        assert(claims[i] == winner(range, rest));
    }
}

/// A claim that is older than every other one, and apart from it, wins.
pub proof fn seniors_win(range: u64, claims: Seq<Claimant>, i: int)
    requires
        0 <= i < claims.len(),
        forall|j: int|
            0 <= j < claims.len() && j != i ==> (#[trigger] claims[j]).1.claimed_at_ms > claims[i].1.claimed_at_ms
                + range,
    ensures
        winner(range, claims) == claims[i],
    decreases claims.len(),
{
    let n = claims.len() as int;
    if n > 1 {
        let rest = claims.drop_last();
        if i < n - 1 {
            assert forall|j: int| 0 <= j < rest.len() && j != i implies (#[trigger] rest[j]).1.claimed_at_ms
                > rest[i].1.claimed_at_ms + range by {
                assert(rest[j] == claims[j]);
            }
            seniors_win(range, rest, i);
            assert(claims[n - 1].1.claimed_at_ms > claims[i].1.claimed_at_ms + range);
        } else {
            lemma_winner_is_among(range, rest);
            let w = choose|w: int| 0 <= w < rest.len() && rest[w] == winner(range, rest);
            assert(claims[w] == winner(range, rest));
        }
    }
}

/// How two claims to one address are judged. Of claims further apart in time than `range` the
/// older one wins. Of others the one with the lower index wins, and if the indices are the
/// same, the one of the node that comes later in the order of identities.
pub proof fn claims_are_judged_by_age_index_and_identity(range: u64, a: Claimant, b: Claimant)
    ensures
        b.1.claimed_at_ms > a.1.claimed_at_ms + range ==> loses(range, b, a) && !loses(range, a, b),
        a.1.claimed_at_ms <= b.1.claimed_at_ms + range && b.1.claimed_at_ms <= a.1.claimed_at_ms + range ==> {
            &&& a.1.k < b.1.k ==> loses(range, b, a) && !loses(range, a, b)
            &&& a.1.k == b.1.k ==> (loses(range, a, b) <==> a.0.precedes(b.0))
        },
{
}

/// A claim that is alone wins, and of two claims the one that does not lose.
pub proof fn one_or_two_claims(range: u64, a: Claimant, b: Claimant)
    requires
        a.0 != b.0,
    ensures
        winner(range, seq![a]) == a,
        winner(range, seq![a, b]) == (if loses(range, b, a) {
            a
        } else {
            b
        }),
{
    assert(seq![a, b].drop_last() =~= seq![a]);
    assert(seq![a].last() == a);
}

/// Among claims of about the same time the one with the lowest index wins.
pub proof fn lowest_indices_win(range: u64, claims: Seq<Claimant>, i: int)
    requires
        0 <= i < claims.len(),
        forall|j: int|
            0 <= j < claims.len() && j != i ==> (#[trigger] claims[j]).1.claimed_at_ms <= claims[i].1.claimed_at_ms + range
                && claims[i].1.claimed_at_ms <= claims[j].1.claimed_at_ms + range && claims[i].1.k < claims[j].1.k,
    ensures
        winner(range, claims) == claims[i],
    decreases claims.len(),
{
    let n = claims.len() as int;
    if n > 1 {
        let rest = claims.drop_last();
        if i < n - 1 {
            assert forall|j: int| 0 <= j < rest.len() && j != i implies (#[trigger] rest[j]).1.claimed_at_ms
                <= rest[i].1.claimed_at_ms + range && rest[i].1.claimed_at_ms <= rest[j].1.claimed_at_ms + range
                && rest[i].1.k < rest[j].1.k by {
                assert(rest[j] == claims[j]);
            }
            lowest_indices_win(range, rest, i);
            assert(claims[n - 1].1.k > claims[i].1.k);
        } else {
            lemma_winner_is_among(range, rest);
            let w = choose|w: int| 0 <= w < rest.len() && rest[w] == winner(range, rest);
            assert(claims[w] == winner(range, rest));
        }
    }
}

/// Among claims of about the same time and the same index the one of the last node in the
/// order of identities wins.
pub proof fn last_identities_win(range: u64, claims: Seq<Claimant>, i: int)
    requires
        0 <= i < claims.len(),
        forall|j: int|
            0 <= j < claims.len() && j != i ==> (#[trigger] claims[j]).1.claimed_at_ms <= claims[i].1.claimed_at_ms + range
                && claims[i].1.claimed_at_ms <= claims[j].1.claimed_at_ms + range && claims[i].1.k == claims[j].1.k
                && claims[j].0.precedes(claims[i].0),
    ensures
        winner(range, claims) == claims[i],
    decreases claims.len(),
{
    let n = claims.len() as int;
    if n > 1 {
        let rest = claims.drop_last();
        if i < n - 1 {
            assert forall|j: int| 0 <= j < rest.len() && j != i implies (#[trigger] rest[j]).1.claimed_at_ms
                <= rest[i].1.claimed_at_ms + range && rest[i].1.claimed_at_ms <= rest[j].1.claimed_at_ms + range
                && rest[i].1.k == rest[j].1.k && rest[j].0.precedes(rest[i].0) by {
                assert(rest[j] == claims[j]);
            }
            last_identities_win(range, rest, i);
            assert(claims[n - 1].0.precedes(claims[i].0));
        } else {
            lemma_winner_is_among(range, rest);
            let w = choose|w: int| 0 <= w < rest.len() && rest[w] == winner(range, rest);
            assert(claims[w] == winner(range, rest));
            crate::id::lemma_precedes_asymmetric(claims[w].0, claims[i].0);
        }
    }
}

proof fn lemma_placed(range: u64, ranked: Seq<Claimant>, x: Claimant)
    ensures
        placed(range, ranked, x).len() == ranked.len() + 1,
        placed(range, ranked, x).to_multiset() == ranked.to_multiset().insert(x),
        placed(range, ranked, x).last() == (if ranked.len() == 0 || !loses(range, x, ranked.last()) {
            x
        } else {
            ranked.last()
        }),
    decreases ranked.len(),
{
    broadcast use vstd::seq_lib::group_to_multiset_ensures;

    if ranked.len() == 0 || !loses(range, x, ranked.last()) {
    } else {
        lemma_placed(range, ranked.drop_last(), x);
        assert(ranked =~= ranked.drop_last().push(ranked.last()));
        assert(ranked.to_multiset().insert(x) =~= ranked.drop_last().to_multiset().insert(x).insert(
            ranked.last(),
        ));
    }
}

/// Ranking neither adds nor drops a claim, and puts the winner last.
pub proof fn lemma_ranked(range: u64, claims: Seq<Claimant>)
    ensures
        ranked(range, claims).len() == claims.len(),
        ranked(range, claims).to_multiset() == claims.to_multiset(),
        claims.len() > 0 ==> ranked(range, claims).last() == winner(range, claims),
    decreases claims.len(),
{
    broadcast use vstd::seq_lib::group_to_multiset_ensures;

    if claims.len() == 0 {
        assert(ranked(range, claims) =~= claims);
    } else {
        lemma_ranked(range, claims.drop_last());
        lemma_placed(range, ranked(range, claims.drop_last()), claims.last());
        assert(claims =~= claims.drop_last().push(claims.last()));
    }
}

/// Puts `x` into `list`, moving the claims that it loses against to the right.
fn place(range: u64, list: &mut Vec<Claimant>, x: Claimant)
    ensures
        final(list)@ == placed(range, old(list)@, x),
    decreases old(list)@.len(),
{
    let n: usize = list.len();
    if n == 0 || !loses_against(range, &x, &list[n - 1]) {
        list.push(x);
    } else {
        let last = list[n - 1];
        let popped = list.pop();
        assert(list@ =~= old(list)@.drop_last());
        place(range, list, x);
        list.push(last);
    }
}

/// Ranks the claims: the winner comes last.
pub fn rank_claims(range: u64, claims: &Vec<Claimant>) -> (r: Vec<Claimant>)
    ensures
        r@ == ranked(range, claims@),
{
    let mut list: Vec<Claimant> = Vec::new();
    let mut i: usize = 0;
    assert(claims@.take(0) =~= Seq::empty());
    while i < claims.len()
        invariant
            i <= claims@.len(),
            list@ == ranked(range, claims@.take(i as int)),
        decreases claims@.len() - i,
    {
        let ghost before = claims@.take(i as int);
        place(range, &mut list, claims[i]);
        i = i + 1;
        assert(claims@.take(i as int).drop_last() =~= before);
    }
    assert(claims@.take(i as int) =~= claims@);
    list
}

/// The claims for one address.
pub open spec fn claims_for(claims: Seq<Claimant>, ip: u16) -> Seq<Claimant> {
    claims.filter(|c: Claimant| c.1.ip == ip)
}

/// Whether one of the first `n` claims is for `ip`.
pub open spec fn claimed_before(claims: Seq<Claimant>, n: int, ip: u16) -> bool {
    exists|j: int| 0 <= j < n && (#[trigger] claims[j]).1.ip == ip
}

/// Picks the claims for one address.
pub fn pick_claims(claims: &Vec<Claimant>, ip: u16) -> (r: Vec<Claimant>)
    ensures
        r@ == claims_for(claims@, ip),
{
    let mut r: Vec<Claimant> = Vec::new();
    let mut i: usize = 0;
    let ghost same = |c: Claimant| c.1.ip == ip;
    assert(claims@.take(0).filter(same) =~= Seq::empty()) by {
        reveal(Seq::filter);
    }
    while i < claims.len()
        invariant
            i <= claims@.len(),
            same == (|c: Claimant| c.1.ip == ip),
            r@ == claims@.take(i as int).filter(same),
        decreases claims@.len() - i,
    {
        proof {
            let t = claims@.take(i + 1);
            assert(t.drop_last() =~= claims@.take(i as int));
            reveal(Seq::filter);
        }
        if claims[i].1.ip == ip {
            r.push(claims[i]);
        }
        i = i + 1;
    }
    assert(claims@.take(i as int) =~= claims@);
    r
}

/// Whether one of the first `n` claims is for `ip`.
pub fn seen_before(claims: &Vec<Claimant>, n: usize, ip: u16) -> (r: bool)
    requires
        n <= claims@.len(),
    ensures
        r == claimed_before(claims@, n as int, ip),
{
    let mut i: usize = 0;
    while i < n
        invariant
            i <= n <= claims@.len(),
            !claimed_before(claims@, i as int, ip),
        decreases n - i,
    {
        if claims[i].1.ip == ip {
            assert(claims@[i as int].1.ip == ip);
            return true;
        }
        i = i + 1;
    }
    false
}

/// The claims for an address are those of the claims that are for it.
pub proof fn lemma_claims_for(claims: Seq<Claimant>, ip: u16, i: int)
    requires
        0 <= i < claims.len(),
        claims[i].1.ip == ip,
    ensures
        claims_for(claims, ip).contains(claims[i]),
        claims_for(claims, ip).len() > 0,
{
    broadcast use vstd::seq_lib::group_filter_ensures;

    assert(claims.contains(claims[i]));
}

/// Picking claims keeps those that have the property, each once.
pub proof fn lemma_filter_members(s: Seq<Claimant>, f: spec_fn(Claimant) -> bool)
    ensures
        forall|x: Claimant| #[trigger] s.filter(f).contains(x) <==> s.contains(x) && f(x),
    decreases s.len(),
{
    reveal(Seq::filter);
    if s.len() > 0 {
        let d = s.drop_last();
        let r = d.filter(f);
        let l = s.last();
        lemma_filter_members(d, f);
        assert forall|x: Claimant| s.contains(x) <==> d.contains(x) || x == l by {
            if s.contains(x) {
                let i = choose|i: int| 0 <= i < s.len() && s[i] == x;
                if i < d.len() {
                    assert(d[i] == x);
                }
            }
            if d.contains(x) {
                let i = choose|i: int| 0 <= i < d.len() && d[i] == x;
                assert(s[i] == x);
            }
            assert(s[s.len() - 1] == l);
        }
        assert forall|x: Claimant| r.push(l).contains(x) <==> r.contains(x) || x == l by {
            if r.contains(x) {
                let i = choose|i: int| 0 <= i < r.len() && r[i] == x;
                assert(r.push(l)[i] == x);
            }
            assert(r.push(l)[r.len() as int] == l);
            if r.push(l).contains(x) {
                let i = choose|i: int| 0 <= i < r.push(l).len() && r.push(l)[i] == x;
                if i < r.len() {
                    assert(r[i] == x);
                }
            }
        }
        assert forall|x: Claimant| #[trigger] s.filter(f).contains(x) <==> s.contains(x) && f(x) by {
            assert(r.contains(x) <==> d.contains(x) && f(x));
            assert(r.push(l).contains(x) <==> r.contains(x) || x == l);
            assert(s.contains(x) <==> d.contains(x) || x == l);
        }
    }
}

/// Picking claims repeats none.
pub proof fn lemma_filter_no_duplicates(s: Seq<Claimant>, f: spec_fn(Claimant) -> bool)
    requires
        s.no_duplicates(),
    ensures
        s.filter(f).no_duplicates(),
    decreases s.len(),
{
    reveal(Seq::filter);
    if s.len() > 0 {
        let d = s.drop_last();
        lemma_filter_no_duplicates(d, f);
        lemma_filter_members(d, f);
        let r = d.filter(f);
        assert forall|i: int| 0 <= i < r.len() implies r[i] != s.last() by {
            assert(r.contains(r[i]));
            assert(d.contains(r[i]));
        }
    }
}

} // verus!
