//! What a node takes in from others: which announcements it believes, what it keeps of them,
//! and what a frame does.
use vstd::prelude::*;
use crate::id::EndpointId;
use crate::mesh::{EventView, MeshView};
use crate::mesh_effects::{first_unclaimed, follows, goes_on, one_round};
use crate::mesh_laws::winner_of;
use crate::node::{IpClaim, MeshError, NodeView, PortsView, SignedView, Version, WallMs};

verus! {

/// One version is older than another if its time is, or if at the same time its count is
/// lower.
pub proof fn versions_grow_by_time_then_count(a: Version, b: Version)
    ensures
        a.wall_ms < b.wall_ms ==> a.older(b) && !b.older(a),
        a.wall_ms == b.wall_ms ==> (a.older(b) <==> a.counter < b.counter),
{
}

/// The next version carries the time of the clock, unless the clock has not moved on: it then
/// counts. It is newer in any case.
pub proof fn next_versions_are_newer(v: Version, now: WallMs)
    requires
        v.counter < u64::MAX || now > v.wall_ms,
    ensures
        crate::mesh_effects::follows(v, now, v.bumped(now)),
        v.older(v.bumped(now)),
{
}

/// What an announcement says, as plain values.
pub open spec fn says(a: SignedView, c: crate::wire::SignedContents) -> bool {
    &&& c.0.0 == a.inner.endpoint_id.bytes
    &&& c.0.1 == (a.inner.version.wall_ms, a.inner.version.counter)
    &&& match a.inner.ip_claim {
        IpClaim::Unclaimed => c.0.2 is Ok,
        IpClaim::Claimed(claim) => c.0.2 matches Err(t) && t == (claim.ip, claim.k, claim.claimed_at_ms),
    }
    &&& match a.inner.exposed_ports {
        PortsView::Any => c.0.3 is Ok,
        PortsView::List(list) => c.0.3 matches Err(l) && l == list,
    }
    &&& c.1 == (a.signature.r, a.signature.s)
}

/// Announcements travel whole: all that they say is in the plain values, and the plain values
/// give the announcement back.
pub proof fn announcements_travel_whole(a: SignedView)
    ensures
        says(a, a.contents()),
        crate::mesh::signed_of(a.contents()) == a,
        a.inner.contents() == a.contents().0,
{
}

/// The signature is over all that the announcement says, under the author's key.
pub proof fn signatures_cover_everything(a: SignedView, key: crate::keys::SecretKey, n: NodeView)
    ensures
        a.verifies() <==> crate::keys::signature_holds(
            a.inner.endpoint_id.bytes,
            crate::wire::node_encoding(a.contents().0),
            a.signature.r,
            a.signature.s,
        ),
        n.signed_by(key).inner == n,
        (n.signed_by(key).signature.r, n.signed_by(key).signature.s) == crate::keys::signature_of(
            key.bytes,
            crate::wire::node_encoding(n.contents()),
        ),
{
}

/// The announcement is of another node, and of a newer version than what is known of it, if
/// anything is.
pub open spec fn is_news(s: MeshView, a: SignedView) -> bool {
    let id = a.inner.endpoint_id;
    let (new, old) = (a.inner.version, s.states[id].inner.version);
    &&& id != s.eid
    &&& !s.states.contains_key(id) || old.wall_ms < new.wall_ms || old.wall_ms == new.wall_ms && old.counter
        < new.counter
}

/// The author of the announcement is new, or claims something else than before.
pub open spec fn claims_anew(s: MeshView, a: SignedView) -> bool {
    !s.states.contains_key(a.inner.endpoint_id) || s.states[a.inner.endpoint_id].inner.ip_claim != a.inner.ip_claim
}

/// The author of the announcement is new, or claims something else or opens other ports than
/// before.
pub open spec fn says_anew(s: MeshView, a: SignedView) -> bool {
    claims_anew(s, a) || s.states[a.inner.endpoint_id].inner.exposed_ports != a.inner.exposed_ports
}

/// An announcement is taken in exactly if it verifies and is news: it then replaces what was
/// known of its author, who was heard of now; it is reported if it says something else
/// than before, and the view is unsettled if it claims something else. Otherwise nothing
/// changes at all. A bad signature is refused, whatever the announcement says.
pub proof fn news_that_verifies_is_taken_in(s: MeshView, a: SignedView, now: WallMs)
    ensures
        ({
            let id = a.inner.endpoint_id;
            let t = s.merged(a, now);
            &&& !a.verifies() || !is_news(s, a) ==> t == s
            &&& a.verifies() && is_news(s, a) ==> {
                &&& t.states == s.states.insert(id, a)
                &&& forall|other: EndpointId| #[trigger]
                    t.peers.contains_key(other) <==> s.peers.contains_key(other) || other == id
                &&& forall|other: EndpointId| other != id ==> #[trigger] t.peers[other] == s.peers[other]
                &&& t.peers[id].last_fresh_ms == now
                &&& t.peers[id].connected <==> s.peers.contains_key(id) && s.peers[id].connected
                &&& t.events == (if says_anew(s, a) {
                    s.events.push(EventView::PeerChanged { peer: id, state: a.inner })
                } else {
                    s.events
                })
                &&& t.quiet_ticks == (if claims_anew(s, a) {
                    0
                } else {
                    s.quiet_ticks
                })
                &&& t == (MeshView {
                    states: t.states,
                    peers: t.peers,
                    events: t.events,
                    quiet_ticks: t.quiet_ticks,
                    ..s
                })
            }
            &&& s.merge_answer(a) == (if !a.verifies() {
                Err::<bool, MeshError>(MeshError::BadSignature)
            } else {
                Ok(is_news(s, a) && says_anew(s, a))
            })
        }),
{
}

/// Announcements that are merged one after the other are refused exactly if one of them has
/// a bad signature.
pub proof fn one_bad_signature_is_refused(s: MeshView, list: Seq<SignedView>, now: WallMs)
    ensures
        s.merge_all_answer(list, now) is Ok <==> forall|i: int| 0 <= i < list.len() ==> (#[trigger] list[i]).verifies(),
        s.merge_all_answer(list, now) matches Err(e) ==> e == MeshError::BadSignature,
    decreases list.len(),
{
    if list.len() > 0 {
        let rest = list.drop_last();
        one_bad_signature_is_refused(s, rest, now);
        assert(list[list.len() - 1] == list.last());
        assert(forall|i: int| 0 <= i < rest.len() ==> #[trigger] rest[i] == list[i]);
        if forall|i: int| 0 <= i < list.len() ==> (#[trigger] list[i]).verifies() {
            assert forall|i: int| 0 <= i < rest.len() implies (#[trigger] rest[i]).verifies() by {
                assert(rest[i] == list[i]);
            }
        }
        if s.merge_all_answer(list, now) is Ok {
            assert forall|i: int| 0 <= i < list.len() implies (#[trigger] list[i]).verifies() by {
                if i < rest.len() {
                    assert(rest[i] == list[i]);
                }
            }
        }
    }
}

/// The announcement stands in the list.
pub open spec fn is_listed(list: Seq<SignedView>, a: SignedView) -> bool {
    exists|i: int| 0 <= i < list.len() && #[trigger] list[i] == a
}

/// Merging announcements invents nothing: what is known of a node afterwards was known before
/// or stands in the list and verifies. Nobody is forgotten, the node's own announcement
/// stays, and nothing but announcements, when peers were heard of, reports and the quiet
/// time changes.
pub proof fn merging_invents_nothing(s: MeshView, list: Seq<SignedView>, now: WallMs)
    ensures
        ({
            let t = s.merged_all(list, now);
            &&& forall|id: EndpointId| #[trigger]
                t.states.contains_key(id) ==> s.states.contains_key(id) && t.states[id] == s.states[id] || is_listed(
                    list,
                    t.states[id],
                ) && t.states[id].verifies() && t.states[id].inner.endpoint_id == id && id != s.eid
            &&& forall|id: EndpointId| #[trigger] s.states.contains_key(id) ==> t.states.contains_key(id)
            &&& s.states.contains_key(s.eid) ==> t.states[s.eid] == s.states[s.eid]
            &&& forall|id: EndpointId| #[trigger] s.peers.contains_key(id) ==> t.peers.contains_key(id)
            &&& forall|id: EndpointId| #[trigger]
                t.peers.contains_key(id) ==> {
                    &&& t.peers[id].connected <==> s.peers.contains_key(id) && s.peers[id].connected
                    &&& t.peers[id].last_fresh_ms == now || s.peers.contains_key(id) && t.peers[id].last_fresh_ms
                        == s.peers[id].last_fresh_ms
                    &&& s.peers.contains_key(id) || t.states.contains_key(id) && is_listed(list, t.states[id])
                }
            &&& goes_on(s.events, t.events)
            &&& forall|i: int| s.events.len() <= i < t.events.len() ==> #[trigger] t.events[i] is PeerChanged
            &&& t.quiet_ticks == s.quiet_ticks || t.quiet_ticks == 0
            &&& t == (MeshView {
                states: t.states,
                peers: t.peers,
                events: t.events,
                quiet_ticks: t.quiet_ticks,
                ..s
            })
        }),
    decreases list.len(),
{
    if list.len() > 0 {
        let rest = list.drop_last();
        merging_invents_nothing(s, rest, now);
        let m = s.merged_all(rest, now);
        let t = s.merged_all(list, now);
        let a = list.last();
        news_that_verifies_is_taken_in(m, a, now);
        assert(list[list.len() - 1] == a);
        assert(is_listed(list, a));
        assert forall|x: SignedView| is_listed(rest, x) implies #[trigger] is_listed(list, x) by {
            let i = choose|i: int| 0 <= i < rest.len() && #[trigger] rest[i] == x;
            assert(list[i] == x);
        }
        assert forall|id: EndpointId| #[trigger] t.states.contains_key(id) implies s.states.contains_key(id)
            && t.states[id] == s.states[id] || is_listed(list, t.states[id]) && t.states[id].verifies()
            && t.states[id].inner.endpoint_id == id && id != s.eid by {
            if id != a.inner.endpoint_id || t == m {
                assert(m.states.contains_key(id));
            }
        }
        assert forall|id: EndpointId| #[trigger] t.peers.contains_key(id) implies {
            &&& t.peers[id].connected <==> s.peers.contains_key(id) && s.peers[id].connected
            &&& t.peers[id].last_fresh_ms == now || s.peers.contains_key(id) && t.peers[id].last_fresh_ms
                == s.peers[id].last_fresh_ms
            &&& s.peers.contains_key(id) || t.states.contains_key(id) && is_listed(list, t.states[id])
        } by {
            if id != a.inner.endpoint_id || t == m {
                assert(m.peers.contains_key(id));
            }
        }
    }
}

/// Up to the first bad signature everything is merged, and nothing behind it.
pub proof fn merging_stops_at_a_bad_signature(s: MeshView, list: Seq<SignedView>, now: WallMs, i: int)
    requires
        0 <= i < list.len(),
        !list[i].verifies(),
        forall|j: int| 0 <= j < i ==> (#[trigger] list[j]).verifies(),
    ensures
        s.merged_all(list, now) == s.merged_all(list.take(i), now),
        s.merge_all_answer(list.take(i), now) is Ok,
        s.merge_all_answer(list, now) is Err,
{
    let before = list.take(i);
    let with = list.take(i + 1);
    one_bad_signature_is_refused(s, before, now);
    one_bad_signature_is_refused(s, with, now);
    assert(with.drop_last() =~= before);
    assert(with.last() == list[i]);
    assert(with[i] == list[i]);
    news_that_verifies_is_taken_in(s.merged_all(before, now), list[i], now);
    s.lemma_merge_stops(list, i + 1, now);
}

/// No two announcements in the list are of the same author.
pub open spec fn one_per_author(list: Seq<SignedView>) -> bool {
    forall|i: int, j: int|
        0 <= i < j < list.len() ==> (#[trigger] list[i]).inner.endpoint_id != (#[trigger] list[j]).inner.endpoint_id
}

/// What is known of a node that no announcement in the list is of.
proof fn lemma_unlisted(s: MeshView, list: Seq<SignedView>, now: WallMs, id: EndpointId)
    requires
        forall|i: int| 0 <= i < list.len() ==> (#[trigger] list[i]).inner.endpoint_id != id,
    ensures
        s.merged_all(list, now).states.contains_key(id) <==> s.states.contains_key(id),
        s.merged_all(list, now).states[id] == s.states[id],
        s.merged_all(list, now).peers.contains_key(id) <==> s.peers.contains_key(id),
        s.merged_all(list, now).peers[id] == s.peers[id],
        s.merged_all(list, now).eid == s.eid,
    decreases list.len(),
{
    if list.len() > 0 {
        let rest = list.drop_last();
        assert forall|i: int| 0 <= i < rest.len() implies (#[trigger] rest[i]).inner.endpoint_id != id by {
            assert(rest[i] == list[i]);
        }
        lemma_unlisted(s, rest, now, id);
        assert(list[list.len() - 1] == list.last());
        news_that_verifies_is_taken_in(s.merged_all(rest, now), list.last(), now);
    }
}

/// Announcements of different authors that all verify are each taken in if they are news, and
/// change nothing if not. The view changes exactly if one of them is news that says something
/// else than before, and each of those is reported.
pub proof fn each_author_is_heard(s: MeshView, list: Seq<SignedView>, now: WallMs)
    requires
        one_per_author(list),
        forall|i: int| 0 <= i < list.len() ==> (#[trigger] list[i]).verifies(),
    ensures
        ({
            let t = s.merged_all(list, now);
            &&& forall|i: int|
                0 <= i < list.len() && is_news(s, #[trigger] list[i]) ==> {
                    let id = list[i].inner.endpoint_id;
                    &&& t.states.contains_key(id) && t.states[id] == list[i]
                    &&& t.peers.contains_key(id) && t.peers[id].last_fresh_ms == now
                    &&& says_anew(s, list[i]) ==> t.events.contains(
                        EventView::PeerChanged { peer: id, state: list[i].inner },
                    )
                    &&& claims_anew(s, list[i]) ==> t.quiet_ticks == 0
                }
            &&& forall|i: int|
                0 <= i < list.len() && !is_news(s, #[trigger] list[i]) ==> {
                    let id = list[i].inner.endpoint_id;
                    &&& t.states.contains_key(id) <==> s.states.contains_key(id)
                    &&& t.states[id] == s.states[id]
                    &&& t.peers.contains_key(id) <==> s.peers.contains_key(id)
                    &&& t.peers[id] == s.peers[id]
                }
            &&& s.merge_all_answer(list, now) == Ok::<bool, MeshError>(
                exists|i: int| 0 <= i < list.len() && is_news(s, #[trigger] list[i]) && says_anew(s, list[i]),
            )
        }),
    decreases list.len(),
{
    if list.len() > 0 {
        let rest = list.drop_last();
        let a = list.last();
        let n = list.len() - 1;
        assert(list[n] == a);
        assert(forall|i: int| 0 <= i < rest.len() ==> #[trigger] rest[i] == list[i]);
        assert(one_per_author(rest)) by {
            assert forall|i: int, j: int| 0 <= i < j < rest.len() implies (#[trigger] rest[i]).inner.endpoint_id
                != (#[trigger] rest[j]).inner.endpoint_id by {
                assert(rest[i] == list[i] && rest[j] == list[j]);
            }
        }
        assert forall|i: int| 0 <= i < rest.len() implies (#[trigger] rest[i]).verifies() by {
            assert(rest[i] == list[i]);
        }
        each_author_is_heard(s, rest, now);
        let m = s.merged_all(rest, now);
        let t = s.merged_all(list, now);
        let author = a.inner.endpoint_id;
        assert forall|i: int| 0 <= i < rest.len() implies (#[trigger] rest[i]).inner.endpoint_id != author by {
            assert(rest[i] == list[i]);
        }
        lemma_unlisted(s, rest, now, author);
        news_that_verifies_is_taken_in(m, a, now);
        assert(is_news(m, a) == is_news(s, a));
        assert(says_anew(m, a) == says_anew(s, a));
        assert(claims_anew(m, a) == claims_anew(s, a));
        assert forall|e: EventView| m.events.contains(e) implies #[trigger] t.events.contains(e) by {
            let i = choose|i: int| 0 <= i < m.events.len() && m.events[i] == e;
            assert(t.events[i] == e);
        }
        if is_news(s, a) && says_anew(s, a) {
            assert(t.events.last() == (EventView::PeerChanged { peer: author, state: a.inner }));
            assert(t.events.contains(EventView::PeerChanged { peer: author, state: a.inner }));
        }
        assert forall|i: int| 0 <= i < list.len() && is_news(s, #[trigger] list[i]) implies {
            let id = list[i].inner.endpoint_id;
            &&& t.states.contains_key(id) && t.states[id] == list[i]
            &&& t.peers.contains_key(id) && t.peers[id].last_fresh_ms == now
            &&& says_anew(s, list[i]) ==> t.events.contains(EventView::PeerChanged { peer: id, state: list[i].inner })
            &&& claims_anew(s, list[i]) ==> t.quiet_ticks == 0
        } by {
            if i < n {
                assert(rest[i] == list[i]);
            }
        }
        assert forall|i: int| 0 <= i < list.len() && !is_news(s, #[trigger] list[i]) implies {
            let id = list[i].inner.endpoint_id;
            &&& t.states.contains_key(id) <==> s.states.contains_key(id)
            &&& t.states[id] == s.states[id]
            &&& t.peers.contains_key(id) <==> s.peers.contains_key(id)
            &&& t.peers[id] == s.peers[id]
        } by {
            if i < n {
                assert(rest[i] == list[i]);
            }
        }
        if exists|i: int| 0 <= i < rest.len() && is_news(s, #[trigger] rest[i]) && says_anew(s, rest[i]) {
            let i = choose|i: int| 0 <= i < rest.len() && is_news(s, #[trigger] rest[i]) && says_anew(s, rest[i]);
            assert(list[i] == rest[i]);
        }
        if exists|i: int| 0 <= i < list.len() && is_news(s, #[trigger] list[i]) && says_anew(s, list[i]) {
            let i = choose|i: int| 0 <= i < list.len() && is_news(s, #[trigger] list[i]) && says_anew(s, list[i]);
            if i < n {
                assert(rest[i] == list[i]);
            }
        }
    }
}

/// A frame is read exactly if its bytes are a frame and all authors in it are public keys. The
/// announcements in it then say what its plain values say, in their order.
pub proof fn frames_are_read_whole(bytes: Seq<u8>)
    ensures
        ({
            let read = crate::mesh::frame_states(bytes);
            match crate::wire::frame_decoding(bytes) {
                Err(e) => read == Err::<Seq<SignedView>, crate::wire::CodecError>(e),
                Ok(plain) => {
                    let all_keys = forall|i: int|
                        0 <= i < plain.len() ==> crate::keys::valid_public_key((#[trigger] plain[i]).0.0);
                    &&& read is Ok <==> all_keys
                    &&& read matches Err(e) ==> e == crate::wire::CodecError::Custom
                    &&& read matches Ok(list) ==> list.len() == plain.len() && forall|i: int|
                        0 <= i < list.len() ==> says(#[trigger] list[i], plain[i])
                },
            }
        }),
{
}

/// Bytes that cannot be read change nothing, and the sender gets to know why.
pub proof fn unreadable_frames_change_nothing(s: MeshView, from: EndpointId, bytes: Seq<u8>, now: WallMs)
    requires
        crate::mesh::frame_states(bytes) is Err,
    ensures
        s.framed(from, bytes, now) == s,
        s.frame_answer(bytes, now) == Err::<(), MeshError>(
            MeshError::Codec(crate::mesh::frame_states(bytes)->Err_0),
        ),
{
}

/// A frame with a bad signature is refused: what stands before it is taken in, but claims are
/// not settled, no address is taken, and the sender is not counted as heard of for it.
pub proof fn spoiled_frames_are_refused(s: MeshView, from: EndpointId, bytes: Seq<u8>, now: WallMs, i: int)
    requires
        crate::mesh::frame_states(bytes) is Ok,
        0 <= i < crate::mesh::frame_states(bytes)->Ok_0.len(),
        !crate::mesh::frame_states(bytes)->Ok_0[i].verifies(),
    ensures
        s.frame_answer(bytes, now) == Err::<(), MeshError>(MeshError::BadSignature),
        s.framed(from, bytes, now) == s.merged_all(crate::mesh::frame_states(bytes)->Ok_0, now),
        s.framed(from, bytes, now).outbound == s.outbound,
        s.framed(from, bytes, now).tun == s.tun,
{
    let list = crate::mesh::frame_states(bytes)->Ok_0;
    one_bad_signature_is_refused(s, list, now);
    merging_invents_nothing(s, list, now);
}

/// What taking an address, now or for a lost one, does to the node's announcement.
pub open spec fn only_moved(s: MeshView, t: MeshView, now: WallMs) -> bool {
    let (before, after) = (s.states[s.eid].inner, t.states[s.eid].inner);
    if after.version == before.version {
        &&& t.states[s.eid] == s.states[s.eid]
        &&& t.outbound == s.outbound
    } else {
        &&& follows(before.version, now, after.version)
        &&& after.exposed_ports == before.exposed_ports
        &&& after.ip_claim matches IpClaim::Claimed(c) && c.claimed_at_ms == now && c.ip == crate::mesh::candidate_of(
            s.eid,
            c.k,
        )
        &&& one_round(t.outbound, s.outbound.len() as int, t.outbound.len() as int, t.peers, t.frame())
        &&& goes_on(s.outbound, t.outbound)
    }
}

proof fn lemma_taken_moves(s: MeshView, start: u64, now: WallMs)
    requires
        s.inv(),
        s.room(1, now),
    ensures
        s.taken(start, now) == s || s.taken(start, now).states[s.eid].inner.version != s.states[s.eid].inner.version,
        only_moved(s, s.taken(start, now), now),
        s.taken(start, now).peers == s.peers,
        s.taken(start, now).eid == s.eid,
        s.taken(start, now).config == s.config,
        s.taken(start, now).quiet_ticks == s.quiet_ticks,
        forall|id: EndpointId| #[trigger]
            s.taken(start, now).states.contains_key(id) <==> s.states.contains_key(id),
        forall|id: EndpointId| id != s.eid ==> #[trigger] s.taken(start, now).states[id] == s.states[id],
{
    if crate::mesh::next_free(s.eid, s.occupied(), start) is Some {
        let k = crate::mesh::next_free(s.eid, s.occupied(), start).unwrap();
        crate::mesh_effects::lemma_free_is_unclaimed(s, start, k);
        crate::mesh_effects::first_unclaimed_candidate_is_taken(s, start, k, now);
    }
}

proof fn lemma_frame_parts(s: MeshView, from: EndpointId, bytes: Seq<u8>, now: WallMs) -> (r: MeshView)
    requires
        s.inv(),
        s.room(1, now),
        s.frame_answer(bytes, now) is Ok,
    ensures
        ({
            let list = crate::mesh::frame_states(bytes)->Ok_0;
            let m = s.merged_all(list, now);
            &&& r.inv()
            &&& r.room(1, now)
            &&& r == (MeshView { peers: r.peers, ..m })
            &&& r.peers.dom() =~= m.peers.dom()
            &&& forall|id: EndpointId| id != from ==> #[trigger] r.peers[id] == m.peers[id]
            &&& m.peers.contains_key(from) ==> r.peers[from].last_fresh_ms == now && r.peers[from].connected
                == m.peers[from].connected
            &&& r.states[s.eid] == s.states[s.eid]
            &&& r.eid == s.eid && r.config == s.config && r.tun == s.tun && r.outbound == s.outbound
            &&& s.framed(from, bytes, now) == (if s.merge_all_answer(list, now)->Ok_0 {
                r.resolved(now).maybe_claimed(now)
            } else {
                r
            })
        }),
{
    crate::mesh_inv::frame_authors_valid(bytes);
    let list = crate::mesh::frame_states(bytes)->Ok_0;
    crate::mesh_inv::merged_all_keeps(s, list, now);
    let m = s.merged_all(list, now);
    let r = m.refreshed(from, now);
    assert(r.peers.dom() =~= m.peers.dom());
    r
}

proof fn lemma_resolved_moves(r: MeshView, now: WallMs)
    requires
        r.inv(),
        r.room(1, now),
    ensures
        ({
            let t = r.resolved(now).maybe_claimed(now);
            &&& t.eid == r.eid
            &&& t.peers == r.peers
            &&& t.quiet_ticks == r.quiet_ticks
            &&& t.config == r.config
            &&& only_moved(r, t, now)
            &&& forall|id: EndpointId| #[trigger] t.states.contains_key(id) <==> r.states.contains_key(id)
            &&& forall|id: EndpointId|
                id != r.eid ==> #[trigger] t.states[id] == crate::mesh_conflicts::all_settled(r).states[id]
        }),
{
    let u = crate::mesh_conflicts::all_settled(r);
    crate::mesh_inv::settled_keeps(r, r.claimants(), r.claimants().len());
    crate::mesh_conflicts::only_losers_move(r, now);
    lemma_taken_moves(u, crate::mesh_laws::next_index(r), now);
    let d = r.resolved(now);
    crate::mesh_inv::resolved_keeps(r, now);
    crate::mesh_inv::resolved_room(r, now);
    crate::mesh_effects::device_follows_the_claim(d);
    if d.states[r.eid].inner.ip_claim is Unclaimed {
        assert(d == u);
        lemma_taken_moves(d, 0, now);
    } else {
        crate::mesh_effects::lemma_same_frame(d, d.tun_synced());
    }
}

/// A frame that is taken in counts as a sign of life of its sender, if the sender is known. It
/// makes nobody connected or disconnected, and for nobody else than the sender and the
/// authors of news does it change when they were last heard of.
pub proof fn senders_are_heard(s: MeshView, from: EndpointId, bytes: Seq<u8>, now: WallMs)
    requires
        s.inv(),
        s.room(1, now),
        s.frame_answer(bytes, now) is Ok,
    ensures
        ({
            let t = s.framed(from, bytes, now);
            let m = s.merged_all(crate::mesh::frame_states(bytes)->Ok_0, now);
            &&& s.peers.contains_key(from) ==> t.peers.contains_key(from) && t.peers[from].last_fresh_ms == now
            &&& forall|id: EndpointId| #[trigger] t.peers.contains_key(id) <==> m.peers.contains_key(id)
            &&& forall|id: EndpointId| id != from ==> #[trigger] t.peers[id] == m.peers[id]
            &&& forall|id: EndpointId| #[trigger]
                t.peers.contains_key(id) ==> (t.peers[id].connected <==> s.peers.contains_key(id)
                    && s.peers[id].connected)
        }),
{
    let list = crate::mesh::frame_states(bytes)->Ok_0;
    let r = lemma_frame_parts(s, from, bytes, now);
    lemma_resolved_moves(r, now);
    merging_invents_nothing(s, list, now);
    let t = s.framed(from, bytes, now);
    let m = s.merged_all(list, now);
    assert(t.peers == r.peers);
    assert forall|id: EndpointId| #[trigger] t.peers.contains_key(id) <==> m.peers.contains_key(id) by {
        assert(r.peers.dom().contains(id) <==> m.peers.dom().contains(id));
    }
}

/// Taking in a frame changes the node's own announcement only to take an address: its ports
/// stay, and every connected peer is told at once. Without that it sends nothing.
pub proof fn frames_move_only_the_address(s: MeshView, from: EndpointId, bytes: Seq<u8>, now: WallMs)
    requires
        s.inv(),
        s.room(1, now),
        s.frame_answer(bytes, now) is Ok,
    ensures
        only_moved(s, s.framed(from, bytes, now), now),
{
    let r = lemma_frame_parts(s, from, bytes, now);
    lemma_resolved_moves(r, now);
}

/// A frame that changes the view settles all claims that the node knows then: whoever wins an
/// address is seen to keep it, every other node is seen without it, and the rest of what is
/// known of other nodes is what the frame brought.
pub proof fn frames_settle_claims(s: MeshView, from: EndpointId, bytes: Seq<u8>, now: WallMs, id: EndpointId)
    requires
        s.inv(),
        s.room(1, now),
        s.frame_answer(bytes, now) is Ok,
        s.merge_all_answer(crate::mesh::frame_states(bytes)->Ok_0, now) == Ok::<bool, MeshError>(true),
        id != s.eid,
        s.merged_all(crate::mesh::frame_states(bytes)->Ok_0, now).states.contains_key(id),
    ensures
        ({
            let m = s.merged_all(crate::mesh::frame_states(bytes)->Ok_0, now);
            let t = s.framed(from, bytes, now);
            let (known, seen) = (m.states[id], t.states[id]);
            &&& t.states.contains_key(id)
            &&& seen.inner.version == known.inner.version
            &&& seen.inner.exposed_ports == known.inner.exposed_ports
            &&& seen.signature == known.signature
            &&& seen.inner.ip_claim == (if known.inner.ip_claim is Claimed && winner_of(
                m,
                known.inner.ip_claim->Claimed_0.ip,
            ) != id {
                IpClaim::Unclaimed
            } else {
                known.inner.ip_claim
            })
        }),
{
    let m = s.merged_all(crate::mesh::frame_states(bytes)->Ok_0, now);
    let r = lemma_frame_parts(s, from, bytes, now);
    lemma_resolved_moves(r, now);
    crate::mesh_laws::settling_leaves_winners(r, id);
    assert(r.claimants() =~= m.claimants());
}

/// A node without an address takes one on a frame exactly if the frame changed the view,
/// enough peers are there, the view has been quiet for long enough nevertheless, and one of
/// its candidates is not claimed by another node.
pub proof fn frames_claim_when_ready(
    s: MeshView,
    from: EndpointId,
    bytes: Seq<u8>,
    now: WallMs,
    there: Set<EndpointId>,
)
    requires
        s.inv(),
        s.room(1, now),
        s.frame_answer(bytes, now) is Ok,
        s.states[s.eid].inner.ip_claim is Unclaimed,
        forall|id: EndpointId| #[trigger]
            there.contains(id) <==> ({
                let peers = s.framed(from, bytes, now).peers;
                peers.contains_key(id) && id != s.eid && (peers[id].connected || now - peers[id].last_fresh_ms
                    < s.config.disconnect_timeout && s.config.disconnect_timeout > 0)
            }),
    ensures
        ({
            let t = s.framed(from, bytes, now);
            let changed = s.merge_all_answer(crate::mesh::frame_states(bytes)->Ok_0, now) == Ok::<bool, MeshError>(true);
            let ready = there.len() >= s.config.min_viable_network && t.quiet_ticks >= s.config.settle_ticks;
            t.states[s.eid].inner.ip_claim is Claimed <==> changed && ready && exists|k: u64| first_unclaimed(t, 0, k)
        }),
{
    let t = s.framed(from, bytes, now);
    let r = lemma_frame_parts(s, from, bytes, now);
    lemma_resolved_moves(r, now);
    crate::mesh_conflicts::only_losers_move(r, now);
    let d = crate::mesh_conflicts::all_settled(r);
    crate::mesh_inv::settled_keeps(r, r.claimants(), r.claimants().len());
    if s.merge_all_answer(crate::mesh::frame_states(bytes)->Ok_0, now) == Ok::<bool, MeshError>(true) {
        assert(t == d.maybe_claimed(now));
        assert(d.live_peers(now) =~= there) by {
            assert forall|id: EndpointId| d.live_peers(now).contains(id) <==> there.contains(id) by {
                crate::mesh_effects::who_is_there(d, now, id);
            }
        }
        assert forall|ip: u16| crate::mesh_effects::claimed_elsewhere(t, ip) <==> crate::mesh_effects::claimed_elsewhere(
            d,
            ip,
        ) by {
            if crate::mesh_effects::claimed_elsewhere(d, ip) {
                let id = choose|id: EndpointId|
                    #![trigger d.states.contains_key(id)]
                    d.states.contains_key(id) && id != d.eid && (d.states[id].inner.ip_claim matches IpClaim::Claimed(c)
                        && c.ip == ip);
                assert(t.states.contains_key(id));
            }
            if crate::mesh_effects::claimed_elsewhere(t, ip) {
                let id = choose|id: EndpointId|
                    #![trigger t.states.contains_key(id)]
                    t.states.contains_key(id) && id != t.eid && (t.states[id].inner.ip_claim matches IpClaim::Claimed(c)
                        && c.ip == ip);
                assert(d.states.contains_key(id));
            }
        }
        if d.ready(now) {
            if exists|k: u64| first_unclaimed(t, 0, k) {
                let k = choose|k: u64| first_unclaimed(t, 0, k);
                assert(first_unclaimed(d, 0, k));
                crate::mesh_effects::first_unclaimed_candidate_is_taken(d, 0, k, now);
            } else if crate::mesh::next_free(d.eid, d.occupied(), 0) is Some {
                let k = crate::mesh::next_free(d.eid, d.occupied(), 0).unwrap();
                crate::mesh_effects::lemma_free_is_unclaimed(d, 0, k);
                assert(first_unclaimed(t, 0, k));
            }
        }
    }
}

} // verus!
