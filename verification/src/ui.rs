//! What the user interface shows of the network.
use vstd::prelude::*;
use crate::id::EndpointId;
use crate::ipv4::Ipv4Addr;
use crate::keys::{parse_key, KeyError};
use crate::text::push_hex;

verus! {

/// The state of a peer.
#[derive(Clone, Copy, Debug, PartialEq, Eq, Structural)]
pub enum Status {
    Active,
    Pending,
    Disconnected,
}

/// What is shown of a peer.
#[derive(Debug, PartialEq, Eq)]
pub struct PeerInfo {
    pub node_id: String,
    pub ip: String,
    /// currently always Active; placeholder for future states
    pub status: Status,
}

/// What is shown of this node.
#[derive(Debug, PartialEq, Eq)]
pub struct MyInfo {
    pub node_id: String,
    pub ip: Option<String>,
    pub leader: bool,
}

/// There is no network.
#[derive(Clone, Copy, Debug, PartialEq, Eq, Structural)]
pub struct NotConnected;

impl NotConnected {
    /// The text of the error.
    pub fn to_text(&self) -> (r: &'static str)
        ensures
            r@ == "not_connected"@,
    {
        "not_connected"
    }
}

/// The text of an identity.
pub fn id_text(id: &EndpointId) -> (r: String)
    ensures
        r@ == crate::text::hex(id.bytes@),
{
    let mut text = String::new();
    push_hex(&mut text, &id.bytes);
    assert(text@ =~= crate::text::hex(id.bytes@));
    text
}

/// Why a peer is not kicked.
#[derive(Clone, Copy, Debug, PartialEq, Eq, Structural)]
pub enum KickError {
    NotConnected,
    /// The text is no identity.
    Identity(KeyError),
}

impl KickError {
    /// The text of the error.
    pub fn to_text(&self) -> (r: &'static str)
        ensures
            r@ == (match *self {
                KickError::NotConnected => "not_connected"@,
                KickError::Identity(e) => crate::keys::key_error_text(e),
            }),
    {
        match self {
            KickError::NotConnected => "not_connected",
            KickError::Identity(e) => e.to_text(),
        }
    }
}

/// The peer that a text names, once there is a network to kick it from. The text that is
/// shown of a peer names that peer.
pub fn kick_peer(connected: bool, node_id: &str) -> (r: Result<EndpointId, KickError>)
    ensures
        r == (if !connected {
            Err::<EndpointId, KickError>(KickError::NotConnected)
        } else {
            match crate::keys::key_of_text(node_id@) {
                Ok(bytes) => Ok(EndpointId { bytes }),
                Err(e) => Err(KickError::Identity(e)),
            }
        }),
        forall|id: EndpointId|
            connected && #[trigger] crate::keys::valid_public_key(id.bytes) && node_id@ == crate::text::hex(id.bytes@)
                ==> r == Ok::<EndpointId, KickError>(id),
{
    if !connected {
        return Err(KickError::NotConnected);
    }
    match parse_key(node_id) {
        Ok(bytes) => Ok(EndpointId { bytes }),
        Err(e) => Err(KickError::Identity(e)),
    }
}

/// The mathematical value of [`PeerInfo`].
#[verifier::ext_equal]
pub struct PeerInfoView {
    pub node_id: Seq<char>,
    pub ip: Seq<char>,
    pub status: Status,
}

impl View for PeerInfo {
    type V = PeerInfoView;

    open spec fn view(&self) -> PeerInfoView {
        PeerInfoView { node_id: self.node_id@, ip: self.ip@, status: self.status }
    }
}

/// What is shown of a node with an address.
pub open spec fn shown(peer: (EndpointId, Ipv4Addr)) -> PeerInfoView {
    PeerInfoView {
        node_id: crate::text::hex(peer.0.bytes@),
        ip: crate::ipv4::dotted(peer.1),
        status: Status::Active,
    }
}

/// What is shown of this node: its identity, its address if it has one, and whether it is
/// the leader.
pub fn my_info(own: &EndpointId, ip: Option<Ipv4Addr>, leader: Option<EndpointId>) -> (r: MyInfo)
    ensures
        r.node_id@ == crate::text::hex(own.bytes@),
        r.ip is Some <==> ip is Some,
        r.ip matches Some(text) ==> text@ == crate::ipv4::dotted(ip.unwrap()),
        r.leader <==> leader == Some(*own),
{
    MyInfo {
        node_id: id_text(own),
        ip: match ip {
            Some(ip) => Some(ip.to_text()),
            None => None,
        },
        leader: match leader {
            Some(l) => l == *own,
            None => false,
        },
    }
}

/// The order of texts: the first byte that differs decides, and a text comes before its
/// continuations.
pub open spec fn text_less(a: Seq<u8>, b: Seq<u8>) -> bool {
    crate::id::lex_less(a, b) || (a.len() < b.len() && a =~= b.take(a.len() as int))
}

fn text_before(a: &[u8], b: &[u8]) -> (r: bool)
    ensures
        r == text_less(a@, b@),
{
    let mut i: usize = 0;
    while i < a.len() && i < b.len()
        invariant
            i <= a@.len(),
            i <= b@.len(),
            forall|j: int| 0 <= j < i ==> a@[j] == b@[j],
        decreases a@.len() - i,
    {
        if a[i] != b[i] {
            proof {
                assert(crate::id::first_difference(a@, b@, i as int));
                assert forall|k: int| #[trigger] crate::id::first_difference(a@, b@, k) implies k == i by {
                    if k < i {
                        assert(a@[k] == b@[k]);
                    }
                }
                if a@.len() < b@.len() && a@ =~= b@.take(a@.len() as int) {
                    assert(a@[i as int] == b@.take(a@.len() as int)[i as int]);
                }
            }
            return a[i] < b[i];
        }
        i = i + 1;
    }
    proof {
        if a@.len() < b@.len() {
            assert(a@ =~= b@.take(a@.len() as int));
        }
    }
    a.len() < b.len()
}

/// The bytes by which a peer is sorted: those of the text of its address.
pub open spec fn sort_key(peer: PeerInfoView) -> Seq<u8> {
    crate::secrets::utf8(peer.ip)
}

/// `x` in its place: behind all that it does not come before, counted from the right.
pub open spec fn sorted_in(list: Seq<PeerInfoView>, x: PeerInfoView) -> Seq<PeerInfoView>
    decreases list.len(),
{
    if list.len() == 0 || !text_less(sort_key(x), sort_key(list.last())) {
        list.push(x)
    } else {
        sorted_in(list.drop_last(), x).push(list.last())
    }
}

/// The peers as they are shown, sorted by the texts of their addresses.
pub open spec fn listing(peers: Seq<(EndpointId, Ipv4Addr)>) -> Seq<PeerInfoView>
    decreases peers.len(),
{
    if peers.len() == 0 {
        Seq::empty()
    } else {
        sorted_in(listing(peers.drop_last()), shown(peers.last()))
    }
}

/// The values of a list.
pub open spec fn views(list: Seq<PeerInfo>) -> Seq<PeerInfoView> {
    list.map_values(|p: PeerInfo| p@)
}

fn sort_in(list: &mut Vec<PeerInfo>, x: PeerInfo)
    ensures
        views(final(list)@) == sorted_in(views(old(list)@), x@),
    decreases old(list)@.len(),
{
    let n: usize = list.len();
    let ghost before = list@;
    if n == 0 || !text_before(x.ip.as_str().as_bytes(), list[n - 1].ip.as_str().as_bytes()) {
        list.push(x);
        assert(views(list@) =~= views(before).push(x@));
    } else {
        let last = list.pop();
        assert(views(list@) =~= views(before).drop_last());
        sort_in(list, x);
        let ghost between = list@;
        if let Some(last) = last {
            list.push(last);
            assert(views(list@) =~= views(between).push(views(before).last()));
        }
    }
}

/// The peers as they are shown, sorted by the texts of their addresses. Without a network
/// there is nothing to show.
pub fn list_peers(network: Option<&[(EndpointId, Ipv4Addr)]>) -> (r: Result<Vec<PeerInfo>, NotConnected>)
    ensures
        r is Ok <==> network is Some,
        r matches Ok(list) ==> views(list@) == listing(network.unwrap()@),
{
    let peers = match network {
        Some(peers) => peers,
        None => {
            return Err(NotConnected);
        },
    };
    let mut list: Vec<PeerInfo> = Vec::new();
    let mut i: usize = 0;
    assert(peers@.take(0) =~= Seq::empty());
    assert(views(list@) =~= Seq::empty());
    while i < peers.len()
        invariant
            i <= peers@.len(),
            views(list@) == listing(peers@.take(i as int)),
        decreases peers@.len() - i,
    {
        let (id, ip) = peers[i];
        let info = PeerInfo { node_id: id_text(&id), ip: ip.to_text(), status: Status::Active };
        assert(info@ =~= shown(peers@[i as int]));
        sort_in(&mut list, info);
        assert(peers@.take(i + 1).drop_last() =~= peers@.take(i as int));
        i = i + 1;
    }
    assert(peers@.take(i as int) =~= peers@);
    Ok(list)
}

proof fn lemma_sorted_in(list: Seq<PeerInfoView>, x: PeerInfoView)
    ensures
        sorted_in(list, x).to_multiset() == list.to_multiset().insert(x),
        sorted_in(list, x).len() == list.len() + 1,
    decreases list.len(),
{
    broadcast use vstd::seq_lib::group_to_multiset_ensures;

    if !(list.len() == 0 || !text_less(sort_key(x), sort_key(list.last()))) {
        lemma_sorted_in(list.drop_last(), x);
        assert(list =~= list.drop_last().push(list.last()));
        assert(list.to_multiset().insert(x) =~= list.drop_last().to_multiset().insert(x).insert(list.last()));
    }
}

/// Every node of the network is shown exactly once.
pub proof fn everyone_is_shown(peers: Seq<(EndpointId, Ipv4Addr)>)
    ensures
        listing(peers).to_multiset() == peers.map_values(|p: (EndpointId, Ipv4Addr)| shown(p)).to_multiset(),
    decreases peers.len(),
{
    broadcast use vstd::seq_lib::group_to_multiset_ensures;

    let f = |p: (EndpointId, Ipv4Addr)| shown(p);
    if peers.len() == 0 {
        assert(peers.map_values(f) =~= Seq::empty());
    } else {
        everyone_is_shown(peers.drop_last());
        lemma_sorted_in(listing(peers.drop_last()), shown(peers.last()));
        assert(peers.map_values(f) =~= peers.drop_last().map_values(f).push(shown(peers.last())));
    }
}

proof fn lemma_text_transitive(a: Seq<u8>, b: Seq<u8>, c: Seq<u8>)
    requires
        text_less(a, b),
        text_less(b, c),
    ensures
        text_less(a, c),
{
    if crate::id::lex_less(a, b) {
        let i = choose|i: int| #[trigger] crate::id::first_difference(a, b, i) && a[i] < b[i];
        if crate::id::lex_less(b, c) {
            let j = choose|j: int| #[trigger] crate::id::first_difference(b, c, j) && b[j] < c[j];
            let k = if i < j {
                i
            } else {
                j
            };
            assert(crate::id::first_difference(a, c, k) && a[k] < c[k]);
        } else {
            assert(forall|j: int| 0 <= j < b.len() ==> b[j] == c.take(b.len() as int)[j]);
            assert(crate::id::first_difference(a, c, i) && a[i] < c[i]);
        }
    } else {
        assert(forall|j: int| 0 <= j < a.len() ==> a[j] == b.take(a.len() as int)[j]);
        if crate::id::lex_less(b, c) {
            let j = choose|j: int| #[trigger] crate::id::first_difference(b, c, j) && b[j] < c[j];
            if j < a.len() {
                assert(crate::id::first_difference(a, c, j) && a[j] < c[j]);
            } else {
                assert(a =~= c.take(a.len() as int));
            }
        } else {
            assert(forall|j: int| 0 <= j < b.len() ==> b[j] == c.take(b.len() as int)[j]);
            assert(a =~= c.take(a.len() as int));
        }
    }
}

proof fn lemma_text_total(a: Seq<u8>, b: Seq<u8>, from: int)
    requires
        0 <= from <= a.len(),
        from <= b.len(),
        forall|j: int| 0 <= j < from ==> a[j] == b[j],
    ensures
        a == b || text_less(a, b) || text_less(b, a),
    decreases a.len() - from,
{
    if from == a.len() {
        if a.len() < b.len() {
            assert(a =~= b.take(a.len() as int));
        } else {
            assert(a =~= b);
        }
    } else if from == b.len() {
        assert(b =~= a.take(b.len() as int));
    } else if a[from] == b[from] {
        lemma_text_total(a, b, from + 1);
    } else {
        assert(crate::id::first_difference(a, b, from));
        assert(crate::id::first_difference(b, a, from));
    }
}

/// No peer comes before one that stands above it.
pub open spec fn in_order(list: Seq<PeerInfoView>) -> bool {
    forall|i: int, j: int|
        0 <= i < j < list.len() ==> !text_less(sort_key(#[trigger] list[j]), sort_key(#[trigger] list[i]))
}

proof fn lemma_sorted_in_order(list: Seq<PeerInfoView>, x: PeerInfoView)
    requires
        in_order(list),
    ensures
        in_order(sorted_in(list, x)),
        forall|i: int|
            0 <= i < sorted_in(list, x).len() ==> #[trigger] sorted_in(list, x)[i] == x || list.contains(
                sorted_in(list, x)[i],
            ),
    decreases list.len(),
{
    let t = sorted_in(list, x);
    if list.len() == 0 || !text_less(sort_key(x), sort_key(list.last())) {
        assert forall|i: int| 0 <= i < t.len() implies #[trigger] t[i] == x || list.contains(t[i]) by {
            if i < list.len() {
                assert(list[i] == t[i]);
            }
        }
        assert forall|i: int, j: int| 0 <= i < j < t.len() implies !text_less(
            sort_key(#[trigger] t[j]),
            sort_key(#[trigger] t[i]),
        ) by {
            if j == list.len() {
                let l = sort_key(list.last());
                let s = sort_key(list[i]);
                if text_less(sort_key(x), s) {
                    lemma_text_total(s, l, 0);
                    if i < list.len() - 1 {
                        assert(!text_less(sort_key(list[list.len() - 1]), sort_key(list[i])));
                    }
                    if text_less(s, l) {
                        lemma_text_transitive(sort_key(x), s, l);
                    }
                }
            } else {
                assert(!text_less(sort_key(list[j]), sort_key(list[i])));
            }
        }
    } else {
        let rest = list.drop_last();
        let l = list.last();
        lemma_sorted_in_order(rest, x);
        let r = sorted_in(rest, x);
        assert forall|i: int| 0 <= i < t.len() implies #[trigger] t[i] == x || list.contains(t[i]) by {
            if i < r.len() {
                assert(t[i] == r[i]);
                if r[i] != x {
                    let k = choose|k: int| 0 <= k < rest.len() && rest[k] == r[i];
                    assert(list[k] == t[i]);
                }
            } else {
                assert(list[list.len() - 1] == t[i]);
            }
        }
        assert forall|i: int, j: int| 0 <= i < j < t.len() implies !text_less(
            sort_key(#[trigger] t[j]),
            sort_key(#[trigger] t[i]),
        ) by {
            if j == r.len() {
                assert(t[j] == l && t[i] == r[i]);
                if r[i] == x {
                    if text_less(sort_key(l), sort_key(x)) {
                        lemma_text_transitive(sort_key(l), sort_key(x), sort_key(l));
                        lemma_text_irreflexive(sort_key(l));
                    }
                } else {
                    let k = choose|k: int| 0 <= k < rest.len() && rest[k] == r[i];
                    assert(!text_less(sort_key(list[list.len() - 1]), sort_key(list[k])));
                }
            } else {
                assert(!text_less(sort_key(r[j]), sort_key(r[i])));
            }
        }
    }
}

proof fn lemma_text_irreflexive(a: Seq<u8>)
    ensures
        !text_less(a, a),
{
}

/// The peers are shown in the order of the texts of their addresses.
pub proof fn peers_are_in_order(peers: Seq<(EndpointId, Ipv4Addr)>)
    ensures
        in_order(listing(peers)),
    decreases peers.len(),
{
    if peers.len() > 0 {
        peers_are_in_order(peers.drop_last());
        lemma_sorted_in_order(listing(peers.drop_last()), shown(peers.last()));
    }
}

/// A peer is shown as active, with its identity and its address.
pub proof fn peers_are_shown_as_they_are(id: EndpointId, ip: Ipv4Addr)
    ensures
        shown((id, ip)).node_id == crate::text::hex(id.bytes@),
        shown((id, ip)).ip == crate::ipv4::dotted(ip),
        shown((id, ip)).status == Status::Active,
        sort_key(shown((id, ip))) == vstd::utf8::encode_utf8(crate::ipv4::dotted(ip)),
{
}

/// Of two texts the one whose first differing byte is lower comes first, and a text comes
/// before its continuations.
pub proof fn lower_bytes_come_first(a: Seq<u8>, b: Seq<u8>, i: int)
    requires
        0 <= i <= a.len(),
        i < b.len(),
        forall|j: int| 0 <= j < i ==> a[j] == b[j],
        i == a.len() || a[i] < b[i],
    ensures
        text_less(a, b),
        !text_less(b, a),
{
    if i == a.len() {
        assert(a =~= b.take(a.len() as int));
    } else {
        assert(crate::id::first_difference(a, b, i));
    }
    if text_less(b, a) {
        lemma_text_transitive(a, b, a);
        lemma_text_irreflexive(a);
    }
}

} // verus!
