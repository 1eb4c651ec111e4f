//! What goes over the wire, as plain tuples, and its binary form.
//!
//! The binary form is postcard's. An enum whose first variant is empty and whose
//! second holds one value has the form of a `Result` with `Ok(())` for the first.
use vstd::prelude::*;

verus! {

/// Why bytes could not be read. Postcard refuses numbers, lists, arrays and variants for no
/// other reason.
#[derive(Clone, Copy, Debug, PartialEq, Eq, Structural)]
pub enum CodecError {
    /// The bytes end too early.
    UnexpectedEnd,
    /// A number does not end.
    BadVarint,
    /// A value is not one that may stand there.
    Custom,
}

/// The text of an error.
pub open spec fn codec_text(e: CodecError) -> Seq<char> {
    match e {
        CodecError::UnexpectedEnd => "Hit the end of buffer, expected more data"@,
        CodecError::BadVarint => "Found a varint that didn't terminate. Is the usize too big for this platform?"@,
        CodecError::Custom => "Serde Deserialization Error"@,
    }
}

impl CodecError {
    /// The text of the error.
    pub fn to_text(&self) -> (r: &'static str)
        ensures
            r@ == codec_text(*self),
    {
        match self {
            CodecError::UnexpectedEnd => "Hit the end of buffer, expected more data",
            CodecError::BadVarint => "Found a varint that didn't terminate. Is the usize too big for this platform?",
            CodecError::Custom => "Serde Deserialization Error",
        }
    }
}

/// A node's announcement: identity, version, address claim, exposed ports.
pub type NodeParts = ([u8; 32], (u64, u64), Result<(), (u16, u64, u64)>, Result<(), Vec<u16>>);

/// An announcement with its signature.
pub type SignedParts = (NodeParts, ([u8; 32], [u8; 32]));

/// A frame: the number of its kind and the announcements it carries.
pub type FrameParts = (u32, Vec<SignedParts>);

/// The contents of an announcement.
pub type NodeContents = ([u8; 32], (u64, u64), Result<(), (u16, u64, u64)>, Result<(), Seq<u16>>);

/// The contents of a signed announcement.
pub type SignedContents = (NodeContents, ([u8; 32], [u8; 32]));

/// The contents of a frame.
pub type FrameContents = (u32, Seq<SignedContents>);

/// What an announcement holds.
pub open spec fn node_contents(parts: NodeParts) -> NodeContents {
    (
        parts.0,
        parts.1,
        parts.2,
        match parts.3 {
            Ok(u) => Ok(u),
            Err(v) => Err(v@),
        },
    )
}

/// What a signed announcement holds.
pub open spec fn signed_contents(parts: SignedParts) -> SignedContents {
    (node_contents(parts.0), parts.1)
}

/// What signed announcements hold.
pub open spec fn list_contents(list: Seq<SignedParts>) -> Seq<SignedContents> {
    Seq::new(list.len(), |i: int| signed_contents(list[i]))
}

/// What a frame holds.
pub open spec fn frame_contents(parts: FrameParts) -> FrameContents {
    (parts.0, list_contents(parts.1@))
}

/// A number and the bytes behind it, or the error.
pub open spec fn kind_contents(r: Result<(u32, &[u8]), CodecError>) -> Result<(u32, Seq<u8>), CodecError> {
    match r {
        Ok(k) => Ok((k.0, k.1@)),
        Err(e) => Err(e),
    }
}

/// What signed announcements hold, or the error.
pub open spec fn states_contents(r: Result<Vec<SignedParts>, CodecError>) -> Result<Seq<SignedContents>, CodecError> {
    match r {
        Ok(list) => Ok(list_contents(list@)),
        Err(e) => Err(e),
    }
}

/// What a datagram holds, or the error.
pub open spec fn message_contents(
    r: Result<Result<Vec<u8>, Vec<u8>>, CodecError>,
) -> Result<Result<Seq<u8>, Seq<u8>>, CodecError> {
    match r {
        Ok(message) => Ok(datagram_contents(message)),
        Err(e) => Err(e),
    }
}

/// The binary form of an announcement, which is what its author signs.
pub uninterp spec fn node_encoding(contents: NodeContents) -> Seq<u8>;

/// The binary form of a frame.
pub uninterp spec fn frame_encoding(contents: FrameContents) -> Seq<u8>;

/// The number that starts at byte `i`, seven bits to a byte and the lowest first, and the
/// bytes behind it. A byte from 128 on has another one behind it, and the fifth, which is
/// the last, has four bits.
pub open spec fn varint_from(bytes: Seq<u8>, i: int) -> Result<(int, Seq<u8>), CodecError>
    decreases 5 - i,
{
    if i >= bytes.len() {
        Err(CodecError::UnexpectedEnd)
    } else if i >= 4 && bytes[i] >= 16 {
        Err(CodecError::BadVarint)
    } else if bytes[i] < 128 {
        Ok((bytes[i] as int, bytes.skip(i + 1)))
    } else {
        match varint_from(bytes, i + 1) {
            Ok(n) => Ok((bytes[i] - 128 + 128 * n.0, n.1)),
            Err(e) => Err(e),
        }
    }
}

/// The number at the front of some bytes, and the bytes behind it.
pub open spec fn kind_decoding(bytes: Seq<u8>) -> Result<(u32, Seq<u8>), CodecError> {
    match varint_from(bytes, 0) {
        Ok(n) => Ok((n.0 as u32, n.1)),
        Err(e) => Err(e),
    }
}

/// The announcements that some bytes hold.
pub uninterp spec fn states_decoding(bytes: Seq<u8>) -> Result<Seq<SignedContents>, CodecError>;

/// The announcements in a frame's bytes. The only kind of frame has the number 0.
pub open spec fn frame_decoding(bytes: Seq<u8>) -> Result<Seq<SignedContents>, CodecError> {
    match kind_decoding(bytes) {
        Err(e) => Err(e),
        Ok(k) => if k.0 == 0 {
            states_decoding(k.1)
        } else {
            Err(CodecError::Custom)
        },
    }
}

/// The authors of all announcements are public keys.
pub open spec fn authors_valid(list: Seq<SignedContents>) -> bool {
    forall|i: int| 0 <= i < list.len() ==> crate::keys::valid_public_key((#[trigger] list[i]).0.0)
}

/// The binary form of a number.
pub open spec fn varint(n: nat) -> Seq<u8>
    decreases n,
{
    if n < 128 {
        seq![n as u8]
    } else {
        seq![(128 + n % 128) as u8] + varint(n / 128)
    }
}

/// The binary form of a datagram: 0 for a packet or 1 for a message that keeps the
/// connection alive, the length, and the bytes.
pub open spec fn datagram_encoding(message: Result<Seq<u8>, Seq<u8>>) -> Seq<u8> {
    match message {
        Ok(packet) => seq![0u8] + varint(packet.len()) + packet,
        Err(frame) => seq![1u8] + varint(frame.len()) + frame,
    }
}

/// What a datagram's bytes hold.
pub uninterp spec fn datagram_decoding(bytes: Seq<u8>) -> Result<Result<Seq<u8>, Seq<u8>>, CodecError>;

/// The binary form of an address with the node it belongs to.
pub open spec fn holder_encoding(ip: Seq<u8>, id: [u8; 32]) -> Seq<u8> {
    ip + id@
}

/// The array of some bytes.
pub open spec fn array_of(bytes: Seq<u8>) -> [u8; 32] {
    choose|a: [u8; 32]| a@ == bytes
}

/// An array is the array of its bytes.
pub proof fn lemma_array_of(a: [u8; 32])
    ensures
        array_of(a@) == a,
{
    let b = array_of(a@);
    assert(b@ == a@);
    crate::id::lemma_same_bytes(
        crate::id::EndpointId { bytes: b },
        crate::id::EndpointId { bytes: a },
    );
}

/// The address and the node at the front of some bytes, if the bytes are enough.
pub open spec fn holder_decoding(bytes: Seq<u8>) -> Option<(Seq<u8>, [u8; 32])> {
    if bytes.len() >= 36 {
        Some((bytes.take(4), array_of(bytes.subrange(4, 36))))
    } else {
        None
    }
}

/// The contents of a datagram.
pub open spec fn datagram_contents(message: Result<Vec<u8>, Vec<u8>>) -> Result<Seq<u8>, Seq<u8>> {
    match message {
        Ok(v) => Ok(v@),
        Err(v) => Err(v@),
    }
}

/// Calls `postcard::to_stdvec` on an announcement, which does not fail on such a
/// value. The bytes are a function of the contents.
#[verifier::external_body]
pub(crate) fn encode_node(parts: &NodeParts) -> (r: Vec<u8>)
    ensures
        r@ == node_encoding(node_contents(*parts)),
{
    postcard::to_stdvec(parts).expect("encode state")
}

/// Calls `postcard::to_stdvec` on a frame, which does not fail on such a value. The
/// bytes are a function of the contents, and reading them gives the contents
/// back if the frame is of the one kind and its authors are public keys.
#[verifier::external_body]
pub(crate) fn encode_frame(parts: &FrameParts) -> (r: Vec<u8>)
    ensures
        r@ == frame_encoding(frame_contents(*parts)),
        parts.0 == 0 && authors_valid(frame_contents(*parts).1) ==> frame_decoding(r@) == states_contents(
            Ok(parts.1),
        ),
{
    postcard::to_stdvec(parts).expect("encode sync")
}

/// Calls `postcard::take_from_bytes` for a number, which it takes from the front.
#[verifier::external_body]
pub(crate) fn take_kind(bytes: &[u8]) -> (r: Result<(u32, &[u8]), CodecError>)
    ensures
        kind_contents(r) == kind_decoding(bytes@),
{
    match postcard::take_from_bytes(bytes) {
        Ok(k) => Ok(k),
        Err(postcard::Error::DeserializeUnexpectedEnd) => Err(CodecError::UnexpectedEnd),
        Err(postcard::Error::DeserializeBadVarint) => Err(CodecError::BadVarint),
        Err(_) => Err(CodecError::Custom),
    }
}

/// Calls `postcard::from_bytes` for a list of announcements whose authors are public keys
/// of iroh. What comes back is a function of the bytes, and the authors are public
/// keys.
#[verifier::external_body]
pub(crate) fn decode_states(bytes: &[u8]) -> (r: Result<Vec<SignedParts>, CodecError>)
    ensures
        states_contents(r) == states_decoding(bytes@),
        r matches Ok(list) ==> authors_valid(list_contents(list@)),
{
    match postcard::from_bytes::<Vec<((iroh::PublicKey, _, _, _), _)>>(bytes) {
        Ok(list) => Ok(list.into_iter().map(|s| ((*s.0.0.as_bytes(), s.0.1, s.0.2, s.0.3), s.1)).collect()),
        Err(postcard::Error::DeserializeUnexpectedEnd) => Err(CodecError::UnexpectedEnd),
        Err(postcard::Error::DeserializeBadVarint) => Err(CodecError::BadVarint),
        Err(_) => Err(CodecError::Custom),
    }
}

/// Calls `postcard::to_stdvec` on a datagram, which does not fail on such a value. It
/// writes the variant, the length and the bytes, and reading them gives the
/// contents back.
#[verifier::external_body]
pub(crate) fn encode_datagram(message: &Result<Vec<u8>, Vec<u8>>) -> (r: Vec<u8>)
    ensures
        r@ == datagram_encoding(datagram_contents(*message)),
        datagram_decoding(r@) == message_contents(Ok(*message)),
{
    postcard::to_stdvec(message).expect("encode datagram")
}

/// Calls `postcard::from_bytes` for a datagram. What comes back is a function of
/// the bytes.
#[verifier::external_body]
pub(crate) fn decode_datagram(bytes: &[u8]) -> (r: Result<Result<Vec<u8>, Vec<u8>>, CodecError>)
    ensures
        message_contents(r) == datagram_decoding(bytes@),
{
    match postcard::from_bytes(bytes) {
        Ok(message) => Ok(message),
        Err(postcard::Error::DeserializeUnexpectedEnd) => Err(CodecError::UnexpectedEnd),
        Err(postcard::Error::DeserializeBadVarint) => Err(CodecError::BadVarint),
        Err(_) => Err(CodecError::Custom),
    }
}

/// Calls `postcard::to_stdvec` on an address and a node, which does not fail on such
/// a value. The bytes of the two stand one after the other.
#[verifier::external_body]
pub(crate) fn encode_holder(holder: &([u8; 4], [u8; 32])) -> (r: Vec<u8>)
    ensures
        r@ == holder.0@ + holder.1@,
{
    postcard::to_stdvec(holder).expect("encode holder")
}

/// Calls `postcard::from_bytes` for an address and a node. It takes their bytes from the
/// front, and fails only where the bytes are too few.
#[verifier::external_body]
pub(crate) fn decode_holder(bytes: &[u8]) -> (r: Option<([u8; 4], [u8; 32])>)
    ensures
        r is Some <==> bytes@.len() >= 36,
        r matches Some(holder) ==> holder.0@ == bytes@.take(4) && holder.1@ == bytes@.subrange(4, 36),
{
    postcard::from_bytes(bytes).ok()
}

} // verus!
