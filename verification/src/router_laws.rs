//! What holds of addresses by way of a shared document: what is read from it, who is listed,
//! which address comes next, and how long a node waits.
use vstd::prelude::*;
use crate::id::EndpointId;
use crate::ipv4::Ipv4Addr;
use crate::router;
use crate::router::{IpAssignment, IpCandidate, RouterActor, RouterIp, RouterStep};

verus! {

/// The document is read value by value, in its order: what holds no address is passed over,
/// and everything else is found.
pub proof fn documents_are_read_value_by_value(first: Seq<Seq<u8>>, second: Seq<Seq<u8>>, value: Seq<u8>)
    ensures
        router::holders_of(first + second) == router::holders_of(first) + router::holders_of(second),
        router::holders_of(seq![value]) == (match router::holder_of(value) {
            Some(h) => seq![h],
            None => Seq::empty(),
        }),
        router::holders_of(Seq::empty()).len() == 0,
    decreases second.len(),
{
    assert(seq![value].drop_last() =~= Seq::empty());
    assert(seq![value].last() == value);
    reveal_with_fuel(router::holders_of, 2);
    assert(router::holders_of(seq![value]) =~= (match router::holder_of(value) {
        Some(h) => seq![h],
        None => Seq::empty(),
    }));
    if second.len() == 0 {
        assert(first + second =~= first);
        assert(router::holders_of(first) + router::holders_of(second) =~= router::holders_of(first));
    } else {
        let rest = second.drop_last();
        documents_are_read_value_by_value(first, rest, value);
        assert((first + second).drop_last() =~= first + rest);
        assert((first + second).last() == second.last());
        assert(router::holders_of(first + second) =~= router::holders_of(first) + router::holders_of(second));
    }
}

/// A value holds an address and a node exactly if it starts with the four bytes of the address
/// and the 32 bytes of the node, which are a public key.
pub proof fn values_hold_address_and_node(bytes: Seq<u8>, ip: Ipv4Addr, id: EndpointId)
    ensures
        router::holder_of(bytes) == Some((ip, id)) <==> {
            &&& bytes.len() >= 36
            &&& bytes[0] == ip.a && bytes[1] == ip.b && bytes[2] == ip.c && bytes[3] == ip.d
            &&& forall|i: int| 0 <= i < 32 ==> #[trigger] id.bytes@[i] == bytes[i + 4]
            &&& crate::keys::valid_public_key(id.bytes)
        },
{
    if bytes.len() >= 36 {
        let held = bytes.subrange(4, 36);
        if forall|i: int| 0 <= i < 32 ==> #[trigger] id.bytes@[i] == bytes[i + 4] {
            assert(id.bytes@ =~= held);
            crate::wire::lemma_array_of(id.bytes);
        }
        if router::holder_of(bytes) == Some((ip, id)) {
            lemma_array(held);
            assert(id.bytes@ == held);
        }
    }
}

proof fn lemma_array(bytes: Seq<u8>)
    requires
        bytes.len() == 32,
    ensures
        crate::wire::array_of(bytes)@ == bytes,
{
    let a = [
        bytes[0], bytes[1], bytes[2], bytes[3], bytes[4], bytes[5], bytes[6], bytes[7], bytes[8], bytes[9], bytes[10],
        bytes[11], bytes[12], bytes[13], bytes[14], bytes[15], bytes[16], bytes[17], bytes[18], bytes[19], bytes[20],
        bytes[21], bytes[22], bytes[23], bytes[24], bytes[25], bytes[26], bytes[27], bytes[28], bytes[29], bytes[30],
        bytes[31],
    ];
    assert(a@ =~= bytes);
}

/// Assignments and candidates are what the values hold.
pub proof fn holders_become_assignments_and_candidates(values: Seq<Seq<u8>>, i: int)
    requires
        0 <= i < router::holders_of(values).len(),
    ensures
        ({
            let h = router::holders_of(values)[i];
            &&& router::assignments_of(values).len() == router::holders_of(values).len()
            &&& router::candidates_of(values).len() == router::holders_of(values).len()
            &&& router::assignments_of(values)[i] == (IpAssignment { ip: h.0, endpoint_id: h.1 })
            &&& router::candidates_of(values)[i] == (IpCandidate { ip: h.0, endpoint_id: h.1 })
        }),
{
}

/// Candidates keep each other away: a candidate of another node, wherever it stands among the
/// others, contests an address; a node's own candidates do not.
pub proof fn candidates_keep_others_away(candidates: Seq<IpCandidate>, id: EndpointId, i: int)
    ensures
        0 <= i < candidates.len() && candidates[i].endpoint_id != id ==> router::contested(candidates, id),
        (forall|j: int| 0 <= j < candidates.len() ==> (#[trigger] candidates[j]).endpoint_id == id)
            ==> !router::contested(candidates, id),
{
}

/// What ranks a candidate is the digest of its identity and the text of the address.
pub proof fn lots_are_digests(ip: Ipv4Addr, id: EndpointId)
    ensures
        router::lot(ip, id) == crate::hashes::sha256_digest(
            id.bytes@ + vstd::utf8::encode_utf8(crate::ipv4::dotted(ip)),
        )@,
{
}

/// A candidate that is alone is chosen.
pub proof fn sole_candidates_are_chosen(ip: Ipv4Addr, candidate: IpCandidate)
    ensures
        router::chosen(ip, seq![candidate]) == candidate,
{
    assert(seq![candidate].last() == candidate);
}

/// The host bits of an address, as a number.
pub open spec fn host_bits(ip: Ipv4Addr) -> int {
    ip.c * 256 + ip.d
}

proof fn lemma_highest_is_one(ips: Seq<Ipv4Addr>)
    requires
        ips.len() > 0,
    ensures
        exists|i: int| 0 <= i < ips.len() && host_bits(#[trigger] ips[i]) == router::highest(ips),
        forall|i: int| 0 <= i < ips.len() ==> host_bits(#[trigger] ips[i]) <= router::highest(ips),
    decreases ips.len(),
{
    let n = ips.len() - 1;
    if ips.len() == 1 {
        assert(host_bits(ips[0]) == router::highest(ips));
    } else {
        let rest = ips.drop_last();
        lemma_highest_is_one(rest);
        let i = choose|i: int| 0 <= i < rest.len() && host_bits(#[trigger] rest[i]) == router::highest(rest);
        assert(ips[i] == rest[i]);
        assert(ips[n] == ips.last());
        assert forall|j: int| 0 <= j < ips.len() implies host_bits(#[trigger] ips[j]) <= router::highest(ips) by {
            if j < n {
                assert(rest[j] == ips[j]);
            }
        }
    }
}

/// The address has these host bits, and is assigned or wanted.
pub open spec fn is_taken(assignments: Seq<IpAssignment>, candidates: Seq<IpCandidate>, top: int) -> bool {
    ||| exists|i: int| 0 <= i < assignments.len() && host_bits((#[trigger] assignments[i]).ip) == top
    ||| exists|i: int| 0 <= i < candidates.len() && host_bits((#[trigger] candidates[i]).ip) == top
}

/// The next address is one above the highest that is assigned or wanted, and 172.22.0.3 where
/// none is.
pub proof fn next_address_is_one_above(assignments: Seq<IpAssignment>, candidates: Seq<IpCandidate>, top: int)
    requires
        assignments.len() + candidates.len() > 0 ==> is_taken(assignments, candidates, top),
        forall|other: int| #[trigger] is_taken(assignments, candidates, other) ==> other <= top,
        assignments.len() + candidates.len() == 0 ==> top == 2,
        top < 254,
    ensures
        ({
            let next = router::address_of(router::highest(router::all_ips(assignments, candidates)) + 1);
            &&& router::highest(router::all_ips(assignments, candidates)) == top
            &&& next.a == 172 && next.b == 22 && next.c * 256 + next.d == top + 1
        }),
{
    let ips = router::all_ips(assignments, candidates);
    let n = assignments.len() as int;
    if ips.len() > 0 {
        lemma_highest_is_one(ips);
        let i = choose|i: int| 0 <= i < ips.len() && host_bits(#[trigger] ips[i]) == router::highest(ips);
        if i < n {
            assert(assignments[i].ip == ips[i]);
            assert(is_taken(assignments, candidates, host_bits(ips[i])));
        } else {
            assert(candidates[i - n].ip == ips[i]);
            assert(is_taken(assignments, candidates, host_bits(ips[i])));
        }
        if exists|j: int| 0 <= j < assignments.len() && host_bits((#[trigger] assignments[j]).ip) == top {
            let j = choose|j: int| 0 <= j < assignments.len() && host_bits((#[trigger] assignments[j]).ip) == top;
            assert(ips[j] == assignments[j].ip);
        } else {
            let j = choose|j: int| 0 <= j < candidates.len() && host_bits((#[trigger] candidates[j]).ip) == top;
            assert(ips[n + j] == candidates[j].ip);
        }
    }
}

/// `i` is the last assignment to a node.
pub open spec fn last_assigned(assignments: Seq<IpAssignment>, id: EndpointId, i: int) -> bool {
    &&& 0 <= i < assignments.len()
    &&& assignments[i].endpoint_id == id
    &&& forall|j: int| i < j < assignments.len() ==> (#[trigger] assignments[j]).endpoint_id != id
}

proof fn lemma_assigned(assignments: Seq<IpAssignment>, id: EndpointId)
    ensures
        router::assigned_map(assignments).contains_key(id) <==> exists|i: int|
            0 <= i < assignments.len() && (#[trigger] assignments[i]).endpoint_id == id,
        forall|i: int| #[trigger]
            last_assigned(assignments, id, i) ==> router::assigned_map(assignments)[id] == Some(assignments[i].ip),
    decreases assignments.len(),
{
    if assignments.len() > 0 {
        let rest = assignments.drop_last();
        let n = assignments.len() - 1;
        lemma_assigned(rest, id);
        assert(assignments[n] == assignments.last());
        if exists|i: int| 0 <= i < rest.len() && (#[trigger] rest[i]).endpoint_id == id {
            let i = choose|i: int| 0 <= i < rest.len() && (#[trigger] rest[i]).endpoint_id == id;
            assert(assignments[i] == rest[i]);
        }
        if exists|i: int| 0 <= i < assignments.len() && (#[trigger] assignments[i]).endpoint_id == id {
            let i = choose|i: int| 0 <= i < assignments.len() && (#[trigger] assignments[i]).endpoint_id == id;
            if i < n {
                assert(rest[i] == assignments[i]);
            }
        }
        assert forall|i: int| #[trigger] last_assigned(assignments, id, i) implies router::assigned_map(assignments)[id]
            == Some(assignments[i].ip) by {
            if i < n {
                assert(assignments[n].endpoint_id != id);
                assert forall|j: int| i < j < rest.len() implies (#[trigger] rest[j]).endpoint_id != id by {
                    assert(rest[j] == assignments[j]);
                }
                assert(rest[i] == assignments[i]);
                assert(last_assigned(rest, id, i));
            }
        }
    }
}

proof fn lemma_with_candidates(
    map: Map<EndpointId, Option<Ipv4Addr>>,
    candidates: Seq<IpCandidate>,
    id: EndpointId,
)
    ensures
        router::with_candidates(map, candidates).contains_key(id) <==> map.contains_key(id) || exists|i: int|
            0 <= i < candidates.len() && (#[trigger] candidates[i]).endpoint_id == id,
        map.contains_key(id) ==> router::with_candidates(map, candidates)[id] == map[id],
        !map.contains_key(id) && router::with_candidates(map, candidates).contains_key(id)
            ==> router::with_candidates(map, candidates)[id] is None,
    decreases candidates.len(),
{
    if candidates.len() > 0 {
        let rest = candidates.drop_last();
        let n = candidates.len() - 1;
        lemma_with_candidates(map, rest, id);
        assert(candidates[n] == candidates.last());
        if exists|i: int| 0 <= i < rest.len() && (#[trigger] rest[i]).endpoint_id == id {
            let i = choose|i: int| 0 <= i < rest.len() && (#[trigger] rest[i]).endpoint_id == id;
            assert(candidates[i] == rest[i]);
        }
        if exists|i: int| 0 <= i < candidates.len() && (#[trigger] candidates[i]).endpoint_id == id {
            let i = choose|i: int| 0 <= i < candidates.len() && (#[trigger] candidates[i]).endpoint_id == id;
            if i < n {
                assert(rest[i] == candidates[i]);
            }
        }
    }
}

/// A node is listed exactly if an address is assigned to it or it is a candidate for one. It
/// is listed with the address that was assigned to it last, and without one if none was.
pub proof fn everyone_in_the_document_is_listed(
    assignments: Seq<IpAssignment>,
    candidates: Seq<IpCandidate>,
    id: EndpointId,
)
    ensures
        ({
            let map = router::with_candidates(router::assigned_map(assignments), candidates);
            let assigned = exists|i: int| 0 <= i < assignments.len() && (#[trigger] assignments[i]).endpoint_id == id;
            let wanted = exists|i: int| 0 <= i < candidates.len() && (#[trigger] candidates[i]).endpoint_id == id;
            &&& map.contains_key(id) <==> assigned || wanted
            &&& forall|i: int| #[trigger] last_assigned(assignments, id, i) ==> map[id] == Some(assignments[i].ip)
            &&& wanted && !assigned ==> map[id] is None
        }),
{
    lemma_assigned(assignments, id);
    lemma_with_candidates(router::assigned_map(assignments), candidates, id);
    assert forall|i: int| #[trigger] last_assigned(assignments, id, i) implies router::with_candidates(
        router::assigned_map(assignments),
        candidates,
    )[id] == Some(assignments[i].ip) by {
        assert(assignments[i].endpoint_id == id);
    }
}

/// The first assignment that fits is the one that counts when an address or a node is looked
/// up.
pub proof fn lookups_find_the_first(assignments: Seq<IpAssignment>, ip: Ipv4Addr, id: EndpointId, i: int, j: int)
    ensures
        router::first_with_ip(assignments, ip, i) <==> 0 <= i < assignments.len() && assignments[i].ip == ip && (forall|
            k: int,
        |
            0 <= k < i ==> (#[trigger] assignments[k]).ip != ip),
        router::first_with_id(assignments, id, i) <==> 0 <= i < assignments.len() && assignments[i].endpoint_id == id && (
        forall|k: int| 0 <= k < i ==> (#[trigger] assignments[k]).endpoint_id != id),
        router::first_with_ip(assignments, ip, i) && router::first_with_ip(assignments, ip, j) ==> i == j,
        router::first_with_id(assignments, id, i) && router::first_with_id(assignments, id, j) ==> i == j,
{
    if router::first_with_ip(assignments, ip, i) && router::first_with_ip(assignments, ip, j) {
        if i < j {
            assert(assignments[i].ip != ip);
        } else if j < i {
            assert(assignments[j].ip != ip);
        }
    }
    if router::first_with_id(assignments, id, i) && router::first_with_id(assignments, id, j) {
        if i < j {
            assert(assignments[i].endpoint_id != id);
        } else if j < i {
            assert(assignments[j].endpoint_id != id);
        }
    }
}

/// A candidate waits for five seconds before the node tries to take its address for good; a
/// node without a candidate becomes one; a node with an address is done.
pub proof fn candidates_wait_five_seconds(r: RouterActor, now_ms: u64)
    ensures
        match r.my_ip {
            RouterIp::NoIp => r.spec_step(now_ms) == RouterStep::Acquire,
            RouterIp::AquiringIp(c, start) => r.spec_step(now_ms) == (if now_ms > start + 5_000 {
                RouterStep::Assign(c)
            } else {
                RouterStep::Wait
            }),
            RouterIp::AssignedIp(ip) => r.spec_step(now_ms) == RouterStep::Done(ip),
        },
{
}

} // verus!
