//! What a node announces of itself: its version, its address claim, its ports.
use vstd::prelude::*;
use vstd::string::StringExecFns;
use crate::id::EndpointId;
use crate::ipv4::{build_ip, Ipv4Addr};
use crate::keys::{check_signature, sign_message, SecretKey, Signature};
use crate::wire::{encode_node, CodecError, NodeParts, SignedParts};

verus! {

/// Wall clock time in milliseconds.
pub type WallMs = u64;

/// Why the mesh refused something.
#[derive(Clone, Copy, Debug, PartialEq, Eq, Structural)]
pub enum MeshError {
    /// The bytes are no frame.
    Codec(CodecError),
    /// An announcement is not signed by its author.
    BadSignature,
    /// There is no address left to claim.
    IpSpaceExhausted,
}

/// The text of an error.
pub open spec fn mesh_error_text(e: MeshError) -> Seq<char> {
    match e {
        MeshError::Codec(c) => "codec: "@ + crate::wire::codec_text(c),
        MeshError::BadSignature => "bad signature"@,
        MeshError::IpSpaceExhausted => "ip space exhausted"@,
    }
}

impl MeshError {
    /// The text of the error.
    pub fn to_text(&self) -> (r: String)
        ensures
            r@ == mesh_error_text(*self),
    {
        let mut text = String::new();
        match self {
            MeshError::Codec(c) => {
                text.append("codec: ");
                text.append(c.to_text());
            },
            MeshError::BadSignature => {
                text.append("bad signature");
            },
            MeshError::IpSpaceExhausted => {
                text.append("ip space exhausted");
            },
        }
        assert(text@ =~= mesh_error_text(*self));
        text
    }
}

/// The version of an announcement.
#[derive(Clone, Copy, Debug, PartialEq, Eq, Structural, PartialOrd, Ord)]
pub struct Version {
    pub wall_ms: WallMs,
    pub counter: u64,
}

impl Version {
    /// Whether this version is older than `other`.
    pub open spec fn older(self, other: Self) -> bool {
        self.wall_ms < other.wall_ms || self.wall_ms == other.wall_ms && self.counter < other.counter
    }

    /// The version that follows this one at time `now_ms`.
    pub open spec fn bumped(self, now_ms: WallMs) -> Self {
        if now_ms > self.wall_ms {
            Version { wall_ms: now_ms, counter: 0 }
        } else {
            Version { wall_ms: self.wall_ms, counter: (self.counter + 1) as u64 }
        }
    }

    /// Whether this version is older than `other`.
    pub fn is_older(&self, other: &Self) -> (r: bool)
        ensures
            r == self.older(*other),
    {
        self.wall_ms < other.wall_ms || (self.wall_ms == other.wall_ms && self.counter < other.counter)
    }

    /// The next version. It never goes backwards, even if the clock does.
    pub fn bump(self, now_ms: WallMs) -> (r: Self)
        requires
            self.counter < u64::MAX || now_ms > self.wall_ms,
        ensures
            r == self.bumped(now_ms),
            self.older(r),
            now_ms <= r.wall_ms,
    {
        if now_ms > self.wall_ms {
            Version { wall_ms: now_ms, counter: 0 }
        } else {
            Version { wall_ms: self.wall_ms, counter: self.counter + 1 }
        }
    }
}

/// A claim to an address.
#[derive(Clone, Copy, Debug, PartialEq, Eq, Structural, Hash)]
pub struct Claim {
    /// host bits within the /16
    pub ip: u16,
    /// which candidate index of our personal sequence this ip is
    pub k: u64,
    /// first claim
    pub claimed_at_ms: WallMs,
}

/// Whether a node claims an address, and which.
#[derive(Clone, Copy, Debug, PartialEq, Eq, Structural)]
pub enum IpClaim {
    Unclaimed,
    Claimed(Claim),
}

impl IpClaim {
    /// The claim, if there is one.
    pub open spec fn spec_claim(self) -> Option<Claim> {
        match self {
            IpClaim::Unclaimed => None,
            IpClaim::Claimed(c) => Some(c),
        }
    }

    /// The host bits that are claimed, if any are.
    pub open spec fn spec_ip(self) -> Option<u16> {
        match self {
            IpClaim::Unclaimed => None,
            IpClaim::Claimed(c) => Some(c.ip),
        }
    }

    /// The address that is claimed under a prefix, if one is.
    pub open spec fn spec_ipv4(self, net_prefix: u16) -> Option<Ipv4Addr> {
        match self {
            IpClaim::Unclaimed => None,
            IpClaim::Claimed(c) => Some(crate::ipv4::ip_of(net_prefix, c.ip)),
        }
    }

    /// The claim, if there is one.
    pub fn claim(&self) -> (r: Option<&Claim>)
        ensures
            r is Some <==> self.spec_claim() is Some,
            r matches Some(c) ==> Some(*c) == self.spec_claim(),
    {
        match self {
            IpClaim::Unclaimed => None,
            IpClaim::Claimed(c) => Some(c),
        }
    }

    /// The host bits that are claimed, if any are.
    pub fn ip(&self) -> (r: Option<u16>)
        ensures
            r == self.spec_ip(),
    {
        match self {
            IpClaim::Unclaimed => None,
            IpClaim::Claimed(c) => Some(c.ip),
        }
    }

    /// The address that is claimed under a prefix, if one is.
    pub fn to_ipv4(&self, net_prefix: u16) -> (r: Option<Ipv4Addr>)
        ensures
            r == self.spec_ipv4(net_prefix),
    {
        match self.ip() {
            None => None,
            Some(ip) => Some(build_ip(net_prefix, ip)),
        }
    }
}

/// The ports that a node lets others reach.
#[derive(Debug, Eq)]
pub enum Ports {
    Any,
    List(Vec<u16>),
}

/// The mathematical value of [`Ports`].
#[verifier::ext_equal]
pub enum PortsView {
    Any,
    List(Seq<u16>),
}

impl View for Ports {
    type V = PortsView;

    open spec fn view(&self) -> PortsView {
        match self {
            Ports::Any => PortsView::Any,
            Ports::List(v) => PortsView::List(v@),
        }
    }
}

/// Copies a list of ports.
fn copy_ports(list: &Vec<u16>) -> (r: Vec<u16>)
    ensures
        r@ == list@,
{
    let mut r: Vec<u16> = Vec::new();
    let mut i: usize = 0;
    while i < list.len()
        invariant
            i <= list@.len(),
            r@ == list@.take(i as int),
        decreases list@.len() - i,
    {
        r.push(list[i]);
        i = i + 1;
        assert(r@ =~= list@.take(i as int));
    }
    assert(list@.take(i as int) =~= list@);
    r
}

impl Clone for Ports {
    fn clone(&self) -> (r: Self)
        ensures
            r@ == self@,
    {
        match self {
            Ports::Any => Ports::Any,
            Ports::List(v) => Ports::List(copy_ports(v)),
        }
    }
}

impl PartialEq for Ports {
    fn eq(&self, other: &Self) -> (r: bool) {
        match (self, other) {
            (Ports::Any, Ports::Any) => true,
            (Ports::List(a), Ports::List(b)) => {
                if a.len() != b.len() {
                    return false;
                }
                let mut i: usize = 0;
                while i < a.len()
                    invariant
                        i <= a@.len(),
                        a@.len() == b@.len(),
                        forall|j: int| 0 <= j < i ==> a@[j] == b@[j],
                        self@ == PortsView::List(a@),
                        other@ == PortsView::List(b@),
                    decreases a@.len() - i,
                {
                    if a[i] != b[i] {
                        assert(a@[i as int] != b@[i as int]);
                        return false;
                    }
                    i = i + 1;
                }
                assert(a@ =~= b@);
                true
            },
            _ => false,
        }
    }
}

impl vstd::std_specs::cmp::PartialEqSpecImpl for Ports {
    open spec fn obeys_eq_spec() -> bool {
        true
    }

    open spec fn eq_spec(&self, other: &Self) -> bool {
        self@ == other@
    }
}

/// What a node announces of itself.
#[derive(Debug, PartialEq, Eq)]
pub struct NodeState {
    pub endpoint_id: EndpointId,
    pub version: Version,
    pub ip_claim: IpClaim,
    pub exposed_ports: Ports,
}

/// The mathematical value of [`NodeState`].
#[verifier::ext_equal]
pub struct NodeView {
    pub endpoint_id: EndpointId,
    pub version: Version,
    pub ip_claim: IpClaim,
    pub exposed_ports: PortsView,
}

impl View for NodeState {
    type V = NodeView;

    open spec fn view(&self) -> NodeView {
        NodeView {
            endpoint_id: self.endpoint_id,
            version: self.version,
            ip_claim: self.ip_claim,
            exposed_ports: self.exposed_ports@,
        }
    }
}

impl Clone for NodeState {
    fn clone(&self) -> (r: Self)
        ensures
            r@ == self@,
    {
        NodeState {
            endpoint_id: self.endpoint_id,
            version: self.version,
            ip_claim: self.ip_claim,
            exposed_ports: self.exposed_ports.clone(),
        }
    }
}

impl NodeView {
    /// The announcement as plain values.
    pub open spec fn contents(self) -> crate::wire::NodeContents {
        (
            self.endpoint_id.bytes,
            (self.version.wall_ms, self.version.counter),
            match self.ip_claim {
                IpClaim::Unclaimed => Ok(()),
                IpClaim::Claimed(c) => Err((c.ip, c.k, c.claimed_at_ms)),
            },
            match self.exposed_ports {
                PortsView::Any => Ok(()),
                PortsView::List(s) => Err(s),
            },
        )
    }

    /// The bytes that the author signs.
    pub open spec fn signed_bytes(self) -> Seq<u8> {
        crate::wire::node_encoding(self.contents())
    }

    /// The announcement with the signature that `key` makes of it.
    pub open spec fn signed_by(self, key: SecretKey) -> SignedView {
        let halves = crate::keys::signature_of(key.bytes, self.signed_bytes());
        SignedView { inner: self, signature: Signature { r: halves.0, s: halves.1 } }
    }
}

impl NodeState {
    fn to_parts(&self) -> (r: NodeParts)
        ensures
            crate::wire::node_contents(r) == self@.contents(),
    {
        (
            self.endpoint_id.bytes,
            (self.version.wall_ms, self.version.counter),
            match &self.ip_claim {
                IpClaim::Unclaimed => Ok(()),
                IpClaim::Claimed(c) => Err((c.ip, c.k, c.claimed_at_ms)),
            },
            match &self.exposed_ports {
                Ports::Any => Ok(()),
                Ports::List(v) => Err(copy_ports(v)),
            },
        )
    }

    fn from_parts(parts: &NodeParts) -> (r: Self)
        ensures
            r@.contents() == crate::wire::node_contents(*parts),
    {
        assert(parts.2 matches Ok(u) ==> u == ());
        assert(parts.3 matches Ok(u) ==> u == ());
        NodeState {
            endpoint_id: EndpointId { bytes: parts.0 },
            version: Version { wall_ms: parts.1.0, counter: parts.1.1 },
            ip_claim: match &parts.2 {
                Ok(_) => IpClaim::Unclaimed,
                Err(claim) => IpClaim::Claimed(Claim { ip: claim.0, k: claim.1, claimed_at_ms: claim.2 }),
            },
            exposed_ports: match &parts.3 {
                Ok(_) => Ports::Any,
                Err(list) => Ports::List(copy_ports(list)),
            },
        }
    }

    /// Signs the announcement.
    pub fn sign(self, sk: &SecretKey) -> (r: SignedNodeState)
        ensures
            r@ == self@.signed_by(*sk),
            r@.inner == self@,
            self@.endpoint_id == sk.id() && r@.signature.r@ != crate::keys::neutral_point() ==> r@.verifies(),
    {
        let bin = encode_node(&self.to_parts());
        let signature = sign_message(&sk.bytes, &bin);
        SignedNodeState { inner: self, signature }
    }
}

/// An announcement with its author's signature.
#[derive(Debug, PartialEq, Eq)]
pub struct SignedNodeState {
    pub(crate) inner: NodeState,
    pub(crate) signature: Signature,
}

/// The mathematical value of [`SignedNodeState`].
#[verifier::ext_equal]
pub struct SignedView {
    pub inner: NodeView,
    pub signature: Signature,
}

impl View for SignedNodeState {
    type V = SignedView;

    closed spec fn view(&self) -> SignedView {
        SignedView { inner: self.inner@, signature: self.signature }
    }
}

impl Clone for SignedNodeState {
    fn clone(&self) -> (r: Self)
        ensures
            r@ == self@,
    {
        SignedNodeState { inner: self.inner.clone(), signature: self.signature }
    }
}

impl SignedView {
    /// The author's key accepts the signature of the announcement.
    pub open spec fn verifies(self) -> bool {
        crate::keys::signature_holds(
            self.inner.endpoint_id.bytes,
            self.inner.signed_bytes(),
            self.signature.r,
            self.signature.s,
        )
    }

    /// The announcement with another claim under the same signature.
    pub open spec fn with_claim(self, ip_claim: IpClaim) -> Self {
        SignedView { inner: NodeView { ip_claim, ..self.inner }, ..self }
    }

    /// The author signed the announcement as it is, or as it was before its claim was
    /// dropped.
    pub open spec fn genuine(self) -> bool {
        self.verifies() || self.inner.ip_claim is Unclaimed && exists|c: Claim| #[trigger]
            self.with_claim(IpClaim::Claimed(c)).verifies()
    }

    /// The signed announcement as plain values.
    pub open spec fn contents(self) -> crate::wire::SignedContents {
        (self.inner.contents(), (self.signature.r, self.signature.s))
    }
}

impl SignedNodeState {
    /// The announcement.
    pub fn get(&self) -> (r: &NodeState)
        ensures
            r@ == self@.inner,
    {
        &self.inner
    }

    /// Passes the announcement on if its author signed it.
    pub fn verify(self) -> (r: Result<Self, MeshError>)
        ensures
            r is Ok <==> self@.verifies(),
            r matches Ok(s) ==> s@ == self@ && crate::keys::valid_public_key(self@.inner.endpoint_id.bytes),
            r matches Err(e) ==> e == MeshError::BadSignature,
    {
        let bin = encode_node(&self.inner.to_parts());
        if check_signature(&self.inner.endpoint_id.bytes, &bin, &self.signature) {
            Ok(self)
        } else {
            Err(MeshError::BadSignature)
        }
    }

    /// Forgets the address that is claimed.
    pub(crate) fn drop_claim(&mut self)
        ensures
            final(self)@ == (SignedView {
                inner: NodeView { ip_claim: IpClaim::Unclaimed, ..old(self)@.inner },
                ..old(self)@
            }),
    {
        self.inner.ip_claim = IpClaim::Unclaimed;
    }

    pub(crate) fn to_parts(&self) -> (r: SignedParts)
        ensures
            crate::wire::signed_contents(r) == self@.contents(),
    {
        (self.inner.to_parts(), (self.signature.r, self.signature.s))
    }

    pub(crate) fn from_parts(parts: &SignedParts) -> (r: Self)
        ensures
            r@.contents() == crate::wire::signed_contents(*parts),
    {
        SignedNodeState {
            inner: NodeState::from_parts(&parts.0),
            signature: Signature { r: parts.1.0, s: parts.1.1 },
        }
    }
}

/// Plain values determine the signed announcement they come from.
pub proof fn lemma_contents_injective(a: SignedView, b: SignedView)
    requires
        a.contents() == b.contents(),
    ensures
        a == b,
{
}

/// A claim is read as it is: there is one exactly if the node claims an address, its host bits
/// are those of the claim, and with the prefix before them they are the address.
pub proof fn claims_are_read_as_they_are(claim: Claim, net_prefix: u16)
    ensures
        IpClaim::Claimed(claim).spec_claim() == Some(claim),
        IpClaim::Claimed(claim).spec_ip() == Some(claim.ip),
        IpClaim::Claimed(claim).spec_ipv4(net_prefix) matches Some(ip) && ip.a * 256 + ip.b == net_prefix && ip.c * 256
            + ip.d == claim.ip,
        IpClaim::Unclaimed.spec_claim() is None,
        IpClaim::Unclaimed.spec_ip() is None,
        IpClaim::Unclaimed.spec_ipv4(net_prefix) is None,
{
}

/// A node's identity is the public key of its secret key.
pub proof fn identities_are_public_keys(key: SecretKey)
    ensures
        key.id().bytes == crate::keys::public_key_of(key.bytes),
{
}

} // verus!
