//! Addresses by way of a shared document: every node writes down which address it
//! would like and, after a while, which one it has.
use vstd::prelude::*;
use vstd::string::StringExecFns;
use crate::hashes::sha256_of;
use crate::id::{lex_before, EndpointId};
use crate::id_map::IdMap;
use crate::ipv4::Ipv4Addr;
use crate::keys::{is_public_key, SecretKey};
use crate::text::push_hex;
use crate::wire::{decode_holder, encode_holder};

verus! {

/// How long a candidate waits before the address is its own, in milliseconds.
pub const ACQUIRE_MS: u64 = 5_000;

/// The time between two steps towards an address, in milliseconds.
pub const STEP_MS: u64 = 500;

/// The time between two looks for peers of the document, in milliseconds.
pub const SYNC_MS: u64 = 100;

/// The peers of the document could not be asked for.
#[derive(Clone, Copy, Debug, PartialEq, Eq, Structural)]
pub struct SyncFailed;

/// Whether a router still waits for the document: it is ready once it is known to have a
/// peer. `peers` tells how many there are, if that is known.
pub fn waits_for_sync(peers: Result<Option<usize>, SyncFailed>) -> (r: bool)
    ensures
        r == !(peers matches Ok(Some(n)) && n > 0),
{
    match peers {
        Ok(Some(n)) => n == 0,
        Ok(None) => true,
        Err(_) => true,
    }
}

/// Why something about addresses was refused.
#[derive(Clone, Copy, Debug, PartialEq, Eq, Structural)]
pub enum RouterError {
    EndpointMissing,
    GossipMissing,
    DocsMissing,
    AlreadyAssigned,
    NoCandidates,
    NotChosen,
    CandidateExists,
    UnknownIp,
    UnknownEndpoint,
    NoMoreIps,
}

/// A node has an address.
#[derive(Clone, Copy, Debug, PartialEq, Eq)]
pub struct IpAssignment {
    pub ip: Ipv4Addr,
    pub endpoint_id: EndpointId,
}

/// A node would like an address.
#[derive(Clone, Copy, Debug, PartialEq, Eq)]
pub struct IpCandidate {
    pub ip: Ipv4Addr,
    pub endpoint_id: EndpointId,
}

/// How far a node has come towards an address.
#[derive(Clone, Copy, Debug, PartialEq, Eq)]
pub enum RouterIp {
    NoIp,
    /// The candidate, and when it was written down, in milliseconds.
    AquiringIp(IpCandidate, u64),
    AssignedIp(Ipv4Addr),
}

/// The settings of a router.
pub struct Builder {
    entry_name: String,
    secret_key: SecretKey,
    creator_mode: bool,
    password: String,
}

impl Builder {
    /// The name of the network.
    pub closed spec fn spec_name(&self) -> Seq<char> {
        self.entry_name@
    }

    /// The password of the network.
    pub closed spec fn spec_password(&self) -> Seq<char> {
        self.password@
    }

    /// The key of the node.
    pub closed spec fn spec_key(&self) -> SecretKey {
        self.secret_key
    }

    /// Whether the node creates the network.
    pub closed spec fn spec_creator(&self) -> bool {
        self.creator_mode
    }

    /// No name, no password, a key made by chance, and not the creator.
    pub fn new() -> (r: Self)
        ensures
            r.spec_name() == Seq::<char>::empty(),
            r.spec_password() == Seq::<char>::empty(),
            !r.spec_creator(),
    {
        let r = Builder {
            entry_name: String::new(),
            secret_key: SecretKey::generate(),
            creator_mode: false,
            password: String::new(),
        };
        assert(r.entry_name@ =~= Seq::<char>::empty());
        assert(r.password@ =~= Seq::<char>::empty());
        r
    }

    /// Sets the name of the network.
    pub fn entry_name(self, entry_name: &str) -> (r: Self)
        ensures
            r.spec_name() == entry_name@,
            r.spec_password() == self.spec_password(),
            r.spec_key() == self.spec_key(),
            r.spec_creator() == self.spec_creator(),
    {
        Builder { entry_name: entry_name.to_owned(), ..self }
    }

    /// Sets the key of the node.
    pub fn secret_key(self, secret_key: SecretKey) -> (r: Self)
        ensures
            r.spec_name() == self.spec_name(),
            r.spec_password() == self.spec_password(),
            r.spec_key() == secret_key,
            r.spec_creator() == self.spec_creator(),
    {
        Builder { secret_key, ..self }
    }

    /// The node creates the network.
    pub fn creator_mode(self) -> (r: Self)
        ensures
            r.spec_name() == self.spec_name(),
            r.spec_password() == self.spec_password(),
            r.spec_key() == self.spec_key(),
            r.spec_creator(),
    {
        Builder { creator_mode: true, ..self }
    }

    /// Sets the password of the network.
    pub fn password(self, password: &str) -> (r: Self)
        ensures
            r.spec_name() == self.spec_name(),
            r.spec_password() == password@,
            r.spec_key() == self.spec_key(),
            r.spec_creator() == self.spec_creator(),
    {
        Builder { password: password.to_owned(), ..self }
    }

    /// Whether a node that joins waits for others: the creator does not.
    pub fn waits_for_others(&self) -> (r: bool)
        ensures
            r == !self.spec_creator(),
    {
        !self.creator_mode
    }

    /// A router needs an endpoint, gossip and documents. The first one that is missing is
    /// reported.
    pub fn check(&self, endpoint: bool, gossip: bool, docs: bool) -> (r: Result<(), RouterError>)
        ensures
            r == (if !endpoint {
                Err::<(), RouterError>(RouterError::EndpointMissing)
            } else if !gossip {
                Err(RouterError::GossipMissing)
            } else if !docs {
                Err(RouterError::DocsMissing)
            } else {
                Ok(())
            }),
    {
        if !endpoint {
            return Err(RouterError::EndpointMissing);
        }
        if !gossip {
            return Err(RouterError::GossipMissing);
        }
        if !docs {
            return Err(RouterError::DocsMissing);
        }
        Ok(())
    }

    /// The topic of the network's documents.
    pub fn topic(&self) -> (r: [u8; 32])
        ensures
            r@ == crate::hashes::sha512_digest(
                crate::secrets::document_message(self.spec_name(), self.spec_password()),
            )@.take(32),
    {
        crate::secrets::document_topic(self.entry_name.as_str(), self.password.as_str())
    }

    /// The text of the topic of the network's documents.
    pub fn topic_text(&self) -> (r: String)
        ensures
            r@ == crate::hashes::z32_text(
                crate::hashes::sha512_digest(
                    crate::secrets::document_message(self.spec_name(), self.spec_password()),
                )@.take(32),
            ),
    {
        crate::secrets::document_topic_text(self.entry_name.as_str(), self.password.as_str())
    }
}

/// The key of an assignment.
pub open spec fn assigned_key(ip: Ipv4Addr) -> Seq<char> {
    "/assigned/ip/"@ + crate::ipv4::dotted(ip)
}

/// What the keys of the candidates for an address start with.
pub open spec fn candidates_key(ip: Ipv4Addr) -> Seq<char> {
    "/candidates/ip/"@ + crate::ipv4::dotted(ip) + "/"@
}

/// The key of a candidate.
pub open spec fn candidate_key(ip: Ipv4Addr, id: EndpointId) -> Seq<char> {
    candidates_key(ip) + crate::text::hex(id.bytes@)
}

/// The key of an assignment.
pub fn key_ip_assigned(ip: Ipv4Addr) -> (r: String)
    ensures
        r@ == assigned_key(ip),
{
    let mut text = key_ip_assigned_prefix();
    let dotted = ip.to_text();
    text.append(dotted.as_str());
    text
}

/// What the keys of all assignments start with.
pub fn key_ip_assigned_prefix() -> (r: String)
    ensures
        r@ == "/assigned/ip/"@,
{
    "/assigned/ip/".to_owned()
}

/// The key of a candidate.
pub fn key_ip_candidate(ip: Ipv4Addr, endpoint_id: EndpointId) -> (r: String)
    ensures
        r@ == candidate_key(ip, endpoint_id),
{
    let mut text = key_prefix_ip_candidates(ip);
    push_hex(&mut text, &endpoint_id.bytes);
    text
}

/// What the keys of all candidates start with.
pub fn key_ip_candidate_prefix() -> (r: String)
    ensures
        r@ == "/candidates/ip/"@,
{
    "/candidates/ip/".to_owned()
}

/// What the keys of the candidates for an address start with.
pub fn key_prefix_ip_candidates(ip: Ipv4Addr) -> (r: String)
    ensures
        r@ == candidates_key(ip),
{
    let mut text = key_ip_candidate_prefix();
    let dotted = ip.to_text();
    text.append(dotted.as_str());
    text.append("/");
    text
}

/// The keys stand under their prefixes, so that a search by prefix finds them.
pub proof fn keys_stand_under_their_prefixes(ip: Ipv4Addr, id: EndpointId)
    ensures
        "/assigned/ip/"@.is_prefix_of(assigned_key(ip)),
        "/candidates/ip/"@.is_prefix_of(candidates_key(ip)),
        candidates_key(ip).is_prefix_of(candidate_key(ip, id)),
        "/candidates/ip/"@.is_prefix_of(candidate_key(ip, id)),
{
    assert("/assigned/ip/"@ =~= assigned_key(ip).subrange(0, "/assigned/ip/"@.len() as int));
    assert("/candidates/ip/"@ =~= candidates_key(ip).subrange(0, "/candidates/ip/"@.len() as int));
    assert(candidates_key(ip) =~= candidate_key(ip, id).subrange(0, candidates_key(ip).len() as int));
    assert("/candidates/ip/"@ =~= candidate_key(ip, id).subrange(0, "/candidates/ip/"@.len() as int));
}

/// The address and the node that a value of the document holds, if it does.
pub open spec fn holder_of(bytes: Seq<u8>) -> Option<(Ipv4Addr, EndpointId)> {
    match crate::wire::holder_decoding(bytes) {
        Some(h) => if crate::keys::valid_public_key(h.1) {
            Some((crate::packet::address_at(h.0, 0), EndpointId { bytes: h.1 }))
        } else {
            None
        },
        None => None,
    }
}

/// The addresses and the nodes of those values of the document that hold one.
pub open spec fn holders_of(values: Seq<Seq<u8>>) -> Seq<(Ipv4Addr, EndpointId)>
    decreases values.len(),
{
    if values.len() == 0 {
        Seq::empty()
    } else {
        let rest = holders_of(values.drop_last());
        match holder_of(values.last()) {
            Some(h) => rest.push(h),
            None => rest,
        }
    }
}

fn write_holder(ip: Ipv4Addr, id: EndpointId) -> (r: Vec<u8>)
    ensures
        r@ == crate::wire::holder_encoding(seq![ip.a, ip.b, ip.c, ip.d], id.bytes),
        crate::keys::valid_public_key(id.bytes) ==> holder_of(r@) == Some((ip, id)),
{
    let octets = ip.octets();
    let r = encode_holder(&(octets, id.bytes));
    proof {
        assert(octets@ =~= seq![ip.a, ip.b, ip.c, ip.d]);
        assert(r@.take(4) =~= octets@);
        assert(r@.subrange(4, 36) =~= id.bytes@);
        crate::wire::lemma_array_of(id.bytes);
    }
    r
}

fn read_holder(bytes: &[u8]) -> (r: Option<(Ipv4Addr, EndpointId)>)
    ensures
        r == holder_of(bytes@),
{
    match decode_holder(bytes) {
        Some(h) => {
            proof {
                crate::wire::lemma_array_of(h.1);
            }
            if is_public_key(&h.1) {
                Some((Ipv4Addr { a: h.0[0], b: h.0[1], c: h.0[2], d: h.0[3] }, EndpointId { bytes: h.1 }))
            } else {
                None
            }
        },
        None => None,
    }
}

/// The contents of several values.
pub open spec fn contents_of(values: Seq<Vec<u8>>) -> Seq<Seq<u8>> {
    values.map_values(|v: Vec<u8>| v@)
}

/// The assignments of some values.
pub open spec fn assignments_of(values: Seq<Seq<u8>>) -> Seq<IpAssignment> {
    holders_of(values).map_values(|h: (Ipv4Addr, EndpointId)| IpAssignment { ip: h.0, endpoint_id: h.1 })
}

/// The candidates of some values.
pub open spec fn candidates_of(values: Seq<Seq<u8>>) -> Seq<IpCandidate> {
    holders_of(values).map_values(|h: (Ipv4Addr, EndpointId)| IpCandidate { ip: h.0, endpoint_id: h.1 })
}

/// Reads the assignments among some values. What is none is passed over.
pub fn read_all_ip_assignments(values: &Vec<Vec<u8>>) -> (r: Vec<IpAssignment>)
    ensures
        r@ == assignments_of(contents_of(values@)),
{
    let ghost all = contents_of(values@);
    let mut r: Vec<IpAssignment> = Vec::new();
    let mut i: usize = 0;
    assert(all.take(0) =~= Seq::empty());
    assert(assignments_of(all.take(0)) =~= Seq::empty());
    while i < values.len()
        invariant
            i <= values@.len(),
            all == contents_of(values@),
            r@ == assignments_of(all.take(i as int)),
        decreases values@.len() - i,
    {
        assert(all.take(i + 1).drop_last() =~= all.take(i as int));
        if let Some(h) = read_holder(values[i].as_slice()) {
            r.push(IpAssignment { ip: h.0, endpoint_id: h.1 });
        }
        i = i + 1;
        assert(r@ =~= assignments_of(all.take(i as int)));
    }
    assert(all.take(i as int) =~= all);
    r
}

/// Reads the candidates among some values. What is none is passed over.
pub fn read_all_ip_candidates(values: &Vec<Vec<u8>>) -> (r: Vec<IpCandidate>)
    ensures
        r@ == candidates_of(contents_of(values@)),
{
    let ghost all = contents_of(values@);
    let mut r: Vec<IpCandidate> = Vec::new();
    let mut i: usize = 0;
    assert(all.take(0) =~= Seq::empty());
    assert(candidates_of(all.take(0)) =~= Seq::empty());
    while i < values.len()
        invariant
            i <= values@.len(),
            all == contents_of(values@),
            r@ == candidates_of(all.take(i as int)),
        decreases values@.len() - i,
    {
        assert(all.take(i + 1).drop_last() =~= all.take(i as int));
        if let Some(h) = read_holder(values[i].as_slice()) {
            r.push(IpCandidate { ip: h.0, endpoint_id: h.1 });
        }
        i = i + 1;
        assert(r@ =~= candidates_of(all.take(i as int)));
    }
    assert(all.take(i as int) =~= all);
    r
}

/// What ranks a candidate for an address.
pub open spec fn lot(ip: Ipv4Addr, id: EndpointId) -> Seq<u8> {
    crate::hashes::sha256_digest(id.bytes@ + crate::secrets::utf8(crate::ipv4::dotted(ip)))@
}

/// The candidate with the lowest lot: the first of several.
pub open spec fn chosen(ip: Ipv4Addr, candidates: Seq<IpCandidate>) -> IpCandidate
    recommends
        candidates.len() > 0,
    decreases candidates.len(),
{
    if candidates.len() <= 1 {
        candidates.last()
    } else {
        let best = chosen(ip, candidates.drop_last());
        if crate::id::lex_less(lot(ip, candidates.last().endpoint_id), lot(ip, best.endpoint_id)) {
            candidates.last()
        } else {
            best
        }
    }
}

fn draw_lot(ip: Ipv4Addr, id: &EndpointId) -> (r: [u8; 32])
    ensures
        r@ == lot(ip, *id),
{
    let text = ip.to_text();
    let mut bytes: Vec<u8> = Vec::new();
    bytes.extend_from_slice(&id.bytes);
    bytes.extend_from_slice(text.as_str().as_bytes());
    assert(bytes@ =~= id.bytes@ + crate::secrets::utf8(crate::ipv4::dotted(ip)));
    sha256_of(bytes.as_slice())
}

fn choose_candidate(ip: Ipv4Addr, candidates: &Vec<IpCandidate>) -> (r: IpCandidate)
    requires
        candidates@.len() > 0,
    ensures
        r == chosen(ip, candidates@),
{
    let mut best = candidates[0];
    let mut lowest = draw_lot(ip, &best.endpoint_id);
    let mut i: usize = 1;
    assert(candidates@.take(1).last() == candidates@[0]);
    while i < candidates.len()
        invariant
            1 <= i <= candidates@.len(),
            best == chosen(ip, candidates@.take(i as int)),
            lowest@ == lot(ip, best.endpoint_id),
        decreases candidates@.len() - i,
    {
        let x = candidates[i];
        let drawn = draw_lot(ip, &x.endpoint_id);
        assert(candidates@.take(i + 1).drop_last() =~= candidates@.take(i as int));
        if lex_before(&drawn, &lowest) {
            best = x;
            lowest = drawn;
        }
        i = i + 1;
    }
    assert(candidates@.take(i as int) =~= candidates@);
    best
}

/// Decides whether `endpoint_id` may take `ip` now: the address must be free, there must
/// be candidates for it, and the node must be the chosen one. Returns what is to be
/// written down; the candidates for the address are deleted afterwards.
pub fn write_ip_assignment(
    assigned: bool,
    candidates: &Vec<IpCandidate>,
    ip: Ipv4Addr,
    endpoint_id: EndpointId,
) -> (r: Result<Vec<u8>, RouterError>)
    ensures
        r is Ok <==> !assigned && candidates@.len() > 0 && chosen(ip, candidates@).endpoint_id == endpoint_id,
        r matches Ok(data) ==> data@ == crate::wire::holder_encoding(
            seq![ip.a, ip.b, ip.c, ip.d],
            endpoint_id.bytes,
        ) && (crate::keys::valid_public_key(endpoint_id.bytes) ==> holder_of(data@) == Some((ip, endpoint_id))),
        r matches Err(e) ==> e == (if assigned {
            RouterError::AlreadyAssigned
        } else if candidates@.len() == 0 {
            RouterError::NoCandidates
        } else {
            RouterError::NotChosen
        }),
{
    if assigned {
        return Err(RouterError::AlreadyAssigned);
    }
    if candidates.len() == 0 {
        return Err(RouterError::NoCandidates);
    }
    let best = choose_candidate(ip, candidates);
    if best.endpoint_id != endpoint_id {
        return Err(RouterError::NotChosen);
    }
    Ok(write_holder(ip, endpoint_id))
}

/// Someone else is a candidate.
pub open spec fn contested(candidates: Seq<IpCandidate>, id: EndpointId) -> bool {
    exists|i: int| 0 <= i < candidates.len() && (#[trigger] candidates[i]).endpoint_id != id
}

/// Decides whether `endpoint_id` may become a candidate for `ip`: the address must be free
/// and nobody else a candidate. Returns the candidate and what is to be written
/// down.
pub fn write_ip_candidate(
    assigned: bool,
    candidates: &Vec<IpCandidate>,
    ip: Ipv4Addr,
    endpoint_id: EndpointId,
) -> (r: Result<(IpCandidate, Vec<u8>), RouterError>)
    ensures
        r is Ok <==> !assigned && !contested(candidates@, endpoint_id),
        r matches Ok(c) ==> c.0 == (IpCandidate { ip, endpoint_id }) && c.1@ == crate::wire::holder_encoding(
            seq![ip.a, ip.b, ip.c, ip.d],
            endpoint_id.bytes,
        ) && (crate::keys::valid_public_key(endpoint_id.bytes) ==> holder_of(c.1@) == Some((ip, endpoint_id))),
        r matches Err(e) ==> e == (if assigned {
            RouterError::AlreadyAssigned
        } else {
            RouterError::CandidateExists
        }),
{
    if assigned {
        return Err(RouterError::AlreadyAssigned);
    }
    let mut i: usize = 0;
    while i < candidates.len()
        invariant
            i <= candidates@.len(),
            !assigned,
            forall|j: int| 0 <= j < i ==> (#[trigger] candidates@[j]).endpoint_id == endpoint_id,
        decreases candidates@.len() - i,
    {
        if candidates[i].endpoint_id != endpoint_id {
            assert(candidates@[i as int].endpoint_id != endpoint_id);
            return Err(RouterError::CandidateExists);
        }
        i = i + 1;
    }
    Ok((IpCandidate { ip, endpoint_id }, write_holder(ip, endpoint_id)))
}

/// `i` is the first assignment of an address.
pub open spec fn first_with_ip(assignments: Seq<IpAssignment>, ip: Ipv4Addr, i: int) -> bool {
    &&& 0 <= i < assignments.len()
    &&& assignments[i].ip == ip
    &&& forall|j: int| 0 <= j < i ==> (#[trigger] assignments[j]).ip != ip
}

/// `i` is the first assignment to a node.
pub open spec fn first_with_id(assignments: Seq<IpAssignment>, id: EndpointId, i: int) -> bool {
    &&& 0 <= i < assignments.len()
    &&& assignments[i].endpoint_id == id
    &&& forall|j: int| 0 <= j < i ==> (#[trigger] assignments[j]).endpoint_id != id
}

/// The node that an address is assigned to, by the first assignment of it.
pub fn get_endpoint_id_from_ip(assignments: &Vec<IpAssignment>, ip: Ipv4Addr) -> (r: Result<EndpointId, RouterError>)
    ensures
        r matches Ok(id) ==> exists|i: int| #[trigger]
            first_with_ip(assignments@, ip, i) && assignments@[i].endpoint_id == id,
        r is Err ==> forall|i: int| 0 <= i < assignments@.len() ==> (#[trigger] assignments@[i]).ip != ip,
        r matches Err(e) ==> e == RouterError::UnknownIp,
{
    let mut i: usize = 0;
    while i < assignments.len()
        invariant
            i <= assignments@.len(),
            forall|j: int| 0 <= j < i ==> (#[trigger] assignments@[j]).ip != ip,
        decreases assignments@.len() - i,
    {
        if assignments[i].ip == ip {
            assert(first_with_ip(assignments@, ip, i as int));
            return Ok(assignments[i].endpoint_id);
        }
        i = i + 1;
    }
    Err(RouterError::UnknownIp)
}

/// The address that is assigned to a node, by the first assignment to it.
pub fn get_ip_from_endpoint_id(assignments: &Vec<IpAssignment>, id: EndpointId) -> (r: Result<Ipv4Addr, RouterError>)
    ensures
        r matches Ok(ip) ==> exists|i: int| #[trigger]
            first_with_id(assignments@, id, i) && assignments@[i].ip == ip,
        r is Err ==> forall|i: int| 0 <= i < assignments@.len() ==> (#[trigger] assignments@[i]).endpoint_id != id,
        r matches Err(e) ==> e == RouterError::UnknownEndpoint,
{
    let mut i: usize = 0;
    while i < assignments.len()
        invariant
            i <= assignments@.len(),
            forall|j: int| 0 <= j < i ==> (#[trigger] assignments@[j]).endpoint_id != id,
        decreases assignments@.len() - i,
    {
        if assignments[i].endpoint_id == id {
            assert(first_with_id(assignments@, id, i as int));
            return Ok(assignments[i].ip);
        }
        i = i + 1;
    }
    Err(RouterError::UnknownEndpoint)
}

/// Who has which address by the assignments. A later one counts more.
pub open spec fn assigned_map(assignments: Seq<IpAssignment>) -> Map<EndpointId, Option<Ipv4Addr>>
    decreases assignments.len(),
{
    if assignments.len() == 0 {
        Map::empty()
    } else {
        assigned_map(assignments.drop_last()).insert(
            assignments.last().endpoint_id,
            Some(assignments.last().ip),
        )
    }
}

/// The candidates that have no address yet, added without one.
pub open spec fn with_candidates(
    map: Map<EndpointId, Option<Ipv4Addr>>,
    candidates: Seq<IpCandidate>,
) -> Map<EndpointId, Option<Ipv4Addr>>
    decreases candidates.len(),
{
    if candidates.len() == 0 {
        map
    } else {
        let rest = with_candidates(map, candidates.drop_last());
        let id = candidates.last().endpoint_id;
        if rest.contains_key(id) {
            rest
        } else {
            rest.insert(id, None)
        }
    }
}

/// The other nodes with their addresses, and with none for those that only wait for one.
pub fn get_peers(
    assignments: &Vec<IpAssignment>,
    candidates: &Vec<IpCandidate>,
    own: EndpointId,
) -> (r: Vec<(EndpointId, Option<Ipv4Addr>)>)
    ensures
        ({
            let map = with_candidates(assigned_map(assignments@), candidates@).remove(own);
            r@ == crate::id::listed(map.dom()).map_values(|id: EndpointId| (id, map[id]))
        }),
{
    let mut map: IdMap<Option<Ipv4Addr>> = IdMap::new();
    let mut i: usize = 0;
    assert(assignments@.take(0) =~= Seq::empty());
    while i < assignments.len()
        invariant
            map.wf(),
            i <= assignments@.len(),
            map@ == assigned_map(assignments@.take(i as int)),
        decreases assignments@.len() - i,
    {
        assert(assignments@.take(i + 1).drop_last() =~= assignments@.take(i as int));
        map.insert(assignments[i].endpoint_id, Some(assignments[i].ip));
        i = i + 1;
    }
    assert(assignments@.take(i as int) =~= assignments@);
    let ghost base = map@;
    let mut j: usize = 0;
    assert(candidates@.take(0) =~= Seq::empty());
    while j < candidates.len()
        invariant
            map.wf(),
            j <= candidates@.len(),
            map@ == with_candidates(base, candidates@.take(j as int)),
        decreases candidates@.len() - j,
    {
        assert(candidates@.take(j + 1).drop_last() =~= candidates@.take(j as int));
        let id = candidates[j].endpoint_id;
        if map.get(&id).is_none() {
            map.insert(id, None);
        }
        j = j + 1;
    }
    assert(candidates@.take(j as int) =~= candidates@);
    map.remove(&own);
    let ghost all = map@;
    let mut r: Vec<(EndpointId, Option<Ipv4Addr>)> = Vec::new();
    let mut k: usize = 0;
    while k < map.len()
        invariant
            map.wf(),
            all == map@,
            k <= map.keys().len(),
            r@ == map.keys().take(k as int).map_values(|id: EndpointId| (id, all[id])),
        decreases map.keys().len() - k,
    {
        r.push((map.key_at(k), *map.value_at(k)));
        k = k + 1;
        assert(r@ =~= map.keys().take(k as int).map_values(|id: EndpointId| (id, all[id])));
    }
    proof {
        map.lemma_keys();
        assert(map.keys().take(k as int) =~= map.keys());
    }
    r
}

/// The host bits of an address.
pub open spec fn host(ip: Ipv4Addr) -> int {
    ip.c * 256 + ip.d
}

/// The highest host bits of some addresses, and those of 172.22.0.2 if there is none.
pub open spec fn highest(ips: Seq<Ipv4Addr>) -> int
    decreases ips.len(),
{
    if ips.len() == 0 {
        2
    } else if ips.len() == 1 {
        host(ips[0])
    } else {
        let rest = highest(ips.drop_last());
        if host(ips.last()) >= rest {
            host(ips.last())
        } else {
            rest
        }
    }
}

/// All addresses that are assigned or wanted.
pub open spec fn all_ips(assignments: Seq<IpAssignment>, candidates: Seq<IpCandidate>) -> Seq<Ipv4Addr> {
    assignments.map_values(|a: IpAssignment| a.ip) + candidates.map_values(|c: IpCandidate| c.ip)
}

/// The address 172.22 with host bits.
pub open spec fn address_of(host: int) -> Ipv4Addr {
    Ipv4Addr { a: 172, b: 22, c: (host / 256) as u8, d: (host % 256) as u8 }
}

/// The last address of the usable hosts 172.22.0.1 to 172.22.0.254.
pub const LAST_HOST: u32 = 254;

/// Whether an address is one of the usable hosts.
pub open spec fn is_usable(ip: Ipv4Addr) -> bool {
    ip.a == 172 && ip.b == 22 && ip.c == 0 && 1 <= ip.d <= LAST_HOST
}

/// The next address: one above the highest that is assigned or wanted. After the last
/// usable host there is none.
pub fn get_next_ip(
    all_assigned: &Vec<IpAssignment>,
    all_candidates: &Vec<IpCandidate>,
) -> (r: Result<Ipv4Addr, RouterError>)
    ensures
        ({
            let top = highest(all_ips(all_assigned@, all_candidates@));
            r == (if top < LAST_HOST {
                Ok::<Ipv4Addr, RouterError>(address_of(top + 1))
            } else {
                Err(RouterError::NoMoreIps)
            })
        }),
        r is Ok <==> highest(all_ips(all_assigned@, all_candidates@)) < 254,
        r matches Ok(ip) ==> ip.a == 172 && ip.b == 22 && ip.c * 256 + ip.d == highest(
            all_ips(all_assigned@, all_candidates@),
        ) + 1,
{
    let ghost all = all_ips(all_assigned@, all_candidates@);
    let mut top: u32 = 2;
    let mut i: usize = 0;
    assert(all.take(0) =~= Seq::empty());
    while i < all_assigned.len()
        invariant
            i <= all_assigned@.len(),
            all == all_ips(all_assigned@, all_candidates@),
            top == highest(all.take(i as int)),
            top <= 65_535,
        decreases all_assigned@.len() - i,
    {
        let ip = all_assigned[i].ip;
        let h: u32 = (ip.c as u32) * 256 + (ip.d as u32);
        proof {
            assert(all.take(i + 1).drop_last() =~= all.take(i as int));
            assert(all.take(i + 1).last() == ip);
        }
        if i == 0 || h >= top {
            top = h;
        }
        i = i + 1;
    }
    let n: usize = all_assigned.len();
    let mut j: usize = 0;
    while j < all_candidates.len()
        invariant
            j <= all_candidates@.len(),
            n == all_assigned@.len(),
            all == all_ips(all_assigned@, all_candidates@),
            top == highest(all.take(n + j)),
            top <= 65_535,
        decreases all_candidates@.len() - j,
    {
        let ip = all_candidates[j].ip;
        let h: u32 = (ip.c as u32) * 256 + (ip.d as u32);
        proof {
            assert(all.take(n + j + 1).drop_last() =~= all.take(n + j));
            assert(all.take(n + j + 1).last() == ip);
        }
        if (n == 0 && j == 0) || h >= top {
            top = h;
        }
        j = j + 1;
    }
    assert(all.take(n + j) =~= all);
    if top >= LAST_HOST {
        return Err(RouterError::NoMoreIps);
    }
    let next: u32 = top + 1;
    Ok(Ipv4Addr { a: 172, b: 22, c: (next / 256) as u8, d: (next % 256) as u8 })
}

proof fn lemma_highest(ips: Seq<Ipv4Addr>, i: int)
    requires
        0 <= i < ips.len(),
    ensures
        host(ips[i]) <= highest(ips),
    decreases ips.len(),
{
    if ips.len() > 1 && i < ips.len() - 1 {
        lemma_highest(ips.drop_last(), i);
    }
}

/// The next address is neither assigned nor wanted.
pub proof fn next_ip_is_new(assignments: Seq<IpAssignment>, candidates: Seq<IpCandidate>)
    requires
        highest(all_ips(assignments, candidates)) < LAST_HOST,
    ensures
        !all_ips(assignments, candidates).contains(
            address_of(highest(all_ips(assignments, candidates)) + 1),
        ),
        highest(all_ips(assignments, candidates)) >= 0,
{
    let ips = all_ips(assignments, candidates);
    let top = highest(ips);
    if ips.len() > 0 {
        lemma_highest(ips, 0);
    }
    let next = address_of(top + 1);
    assert(host(next) == top + 1);
    if ips.contains(next) {
        let i = choose|i: int| 0 <= i < ips.len() && ips[i] == next;
        lemma_highest(ips, i);
    }
}

/// The next address is a usable host.
pub proof fn next_ip_is_usable(assignments: Seq<IpAssignment>, candidates: Seq<IpCandidate>)
    requires
        highest(all_ips(assignments, candidates)) < LAST_HOST,
    ensures
        is_usable(address_of(highest(all_ips(assignments, candidates)) + 1)),
{
    next_ip_is_new(assignments, candidates);
}

/// The chosen candidate is one of them, and no other has a lower lot.
pub proof fn lowest_lot_is_chosen(ip: Ipv4Addr, candidates: Seq<IpCandidate>)
    requires
        candidates.len() > 0,
    ensures
        candidates.contains(chosen(ip, candidates)),
        forall|i: int|
            0 <= i < candidates.len() ==> !crate::id::lex_less(
                lot(ip, (#[trigger] candidates[i]).endpoint_id),
                lot(ip, chosen(ip, candidates).endpoint_id),
            ),
    decreases candidates.len(),
{
    let last = candidates.last();
    let l = lot(ip, last.endpoint_id);
    assert(candidates[candidates.len() - 1] == last);
    lemma_lex_irreflexive(l);
    if candidates.len() > 1 {
        let rest = candidates.drop_last();
        lowest_lot_is_chosen(ip, rest);
        let best = chosen(ip, rest);
        let b = lot(ip, best.endpoint_id);
        let k = choose|k: int| 0 <= k < rest.len() && rest[k] == best;
        assert(candidates[k] == best);
        assert forall|i: int| 0 <= i < candidates.len() implies !crate::id::lex_less(
            lot(ip, (#[trigger] candidates[i]).endpoint_id),
            lot(ip, chosen(ip, candidates).endpoint_id),
        ) by {
            if i < rest.len() {
                let x = lot(ip, candidates[i].endpoint_id);
                assert(rest[i] == candidates[i]);
                if crate::id::lex_less(l, b) && crate::id::lex_less(x, l) {
                    lemma_lex_transitive(x, l, b);
                }
            }
        }
    }
}

/// Nodes that see the same candidates choose the same one, in whatever order they see
/// them, unless two candidates have the same lot.
pub proof fn same_candidates_same_choice(ip: Ipv4Addr, a: Seq<IpCandidate>, b: Seq<IpCandidate>)
    requires
        a.len() > 0,
        b.len() > 0,
        forall|c: IpCandidate| #[trigger] a.contains(c) <==> b.contains(c),
        forall|c: IpCandidate, d: IpCandidate|
            #![trigger a.contains(c), a.contains(d)]
            a.contains(c) && a.contains(d) && lot(ip, c.endpoint_id) == lot(ip, d.endpoint_id) ==> c == d,
    ensures
        chosen(ip, a) == chosen(ip, b),
{
    lowest_lot_is_chosen(ip, a);
    lowest_lot_is_chosen(ip, b);
    let x = chosen(ip, a);
    let y = chosen(ip, b);
    assert(b.contains(x) && a.contains(y));
    let i = choose|i: int| 0 <= i < b.len() && b[i] == x;
    let j = choose|j: int| 0 <= j < a.len() && a[j] == y;
    if lot(ip, x.endpoint_id) != lot(ip, y.endpoint_id) {
        crate::id::lemma_lex_total(lot(ip, x.endpoint_id), lot(ip, y.endpoint_id));
        assert(!crate::id::lex_less(lot(ip, b[i].endpoint_id), lot(ip, y.endpoint_id)));
        assert(!crate::id::lex_less(lot(ip, a[j].endpoint_id), lot(ip, x.endpoint_id)));
    }
}

proof fn lemma_lex_irreflexive(a: Seq<u8>)
    ensures
        !crate::id::lex_less(a, a),
{
}

proof fn lemma_lex_transitive(a: Seq<u8>, b: Seq<u8>, c: Seq<u8>)
    requires
        a.len() == b.len(),
        b.len() == c.len(),
        crate::id::lex_less(a, b),
        crate::id::lex_less(b, c),
    ensures
        crate::id::lex_less(a, c),
{
    let i = choose|i: int| #[trigger] crate::id::first_difference(a, b, i) && a[i] < b[i];
    let j = choose|j: int| #[trigger] crate::id::first_difference(b, c, j) && b[j] < c[j];
    let k = if i < j {
        i
    } else {
        j
    };
    assert(crate::id::first_difference(a, c, k) && a[k] < c[k]);
}

/// What a node does next towards an address.
#[derive(Clone, Copy, Debug, PartialEq, Eq)]
pub enum RouterStep {
    /// Become a candidate for the next address.
    Acquire,
    /// Wait: others may still become candidates.
    Wait,
    /// Try to take the address for good.
    Assign(IpCandidate),
    /// There is an address.
    Done(Ipv4Addr),
}

/// A node on its way to an address.
#[derive(Clone, Copy, Debug)]
pub struct RouterActor {
    pub endpoint_id: EndpointId,
    pub my_ip: RouterIp,
}

impl RouterActor {
    /// What a node does next at time `now`.
    pub open spec fn spec_step(self, now_ms: u64) -> RouterStep {
        match self.my_ip {
            RouterIp::NoIp => RouterStep::Acquire,
            RouterIp::AquiringIp(c, start) => if now_ms > start && now_ms - start > ACQUIRE_MS {
                RouterStep::Assign(c)
            } else {
                RouterStep::Wait
            },
            RouterIp::AssignedIp(ip) => RouterStep::Done(ip),
        }
    }

    /// A node without an address.
    pub fn new(endpoint_id: EndpointId) -> (r: Self)
        ensures
            r == (RouterActor { endpoint_id, my_ip: RouterIp::NoIp }),
    {
        RouterActor { endpoint_id, my_ip: RouterIp::NoIp }
    }

    /// How far the node has come.
    pub fn get_ip_state(&self) -> (r: RouterIp)
        ensures
            r == self.my_ip,
    {
        self.my_ip
    }

    /// The identity of the node.
    pub fn get_node_id(&self) -> (r: EndpointId)
        ensures
            r == self.endpoint_id,
    {
        self.endpoint_id
    }

    /// What the node does next at time `now_ms`.
    pub fn advance_ip_state(&self, now_ms: u64) -> (r: RouterStep)
        ensures
            r == self.spec_step(now_ms),
    {
        match self.my_ip {
            RouterIp::NoIp => RouterStep::Acquire,
            RouterIp::AquiringIp(c, start) => {
                if now_ms.saturating_sub(start) > ACQUIRE_MS {
                    RouterStep::Assign(c)
                } else {
                    RouterStep::Wait
                }
            },
            RouterIp::AssignedIp(ip) => RouterStep::Done(ip),
        }
    }

    /// The node has become a candidate at time `now_ms`.
    pub fn acquired(&mut self, candidate: IpCandidate, now_ms: u64)
        requires
            old(self).my_ip is NoIp,
        ensures
            *final(self) == (RouterActor { my_ip: RouterIp::AquiringIp(candidate, now_ms), ..*old(self) }),
    {
        self.my_ip = RouterIp::AquiringIp(candidate, now_ms);
    }

    /// Takes in whether the address of the candidate could be taken. If not, the node
    /// starts again.
    pub fn assigned(&mut self, taken: bool)
        ensures
            *final(self) == (RouterActor {
                my_ip: match old(self).my_ip {
                    RouterIp::AquiringIp(c, _) => if taken {
                        RouterIp::AssignedIp(c.ip)
                    } else {
                        RouterIp::NoIp
                    },
                    other => other,
                },
                ..*old(self)
            }),
    {
        if let RouterIp::AquiringIp(c, _) = self.my_ip {
            if taken {
                self.my_ip = RouterIp::AssignedIp(c.ip);
            } else {
                self.my_ip = RouterIp::NoIp;
            }
        }
    }
}

/// A node that has an address keeps it.
pub proof fn assigned_addresses_stay(r: RouterActor, now_ms: u64)
    requires
        r.my_ip is AssignedIp,
    ensures
        r.spec_step(now_ms) == RouterStep::Done(r.my_ip->AssignedIp_0),
{
}

} // verus!
