//! The messages between two nodes and the datagrams that carry them.
use vstd::prelude::*;
use vstd::string::StringExecFns;
use crate::text::push_decimal;
use crate::tun::{copy_bytes, Ipv4Pkg};
use crate::wire::{decode_datagram, encode_datagram};

verus! {

/// The byte that every datagram starts with.
pub const DATAGRAM_PREFIX: u8 = 0x43;

/// A message between two nodes: a packet, or a sign of life that carries the
/// sender's latest frame.
#[derive(Debug, PartialEq, Eq)]
pub enum DirectMessage {
    IpPacket(Ipv4Pkg),
    IDontLikeWarnings(Vec<u8>),
}

impl View for DirectMessage {
    type V = Result<Seq<u8>, Seq<u8>>;

    /// `Ok` for a packet, `Err` for a sign of life.
    open spec fn view(&self) -> Result<Seq<u8>, Seq<u8>> {
        match self {
            DirectMessage::IpPacket(pkg) => Ok(pkg@),
            DirectMessage::IDontLikeWarnings(frame) => Err(frame@),
        }
    }
}

impl Clone for DirectMessage {
    fn clone(&self) -> (r: Self)
        ensures
            r@ == self@,
    {
        match self {
            DirectMessage::IpPacket(pkg) => DirectMessage::IpPacket(pkg.clone()),
            DirectMessage::IDontLikeWarnings(frame) => DirectMessage::IDontLikeWarnings(
                copy_bytes(frame.as_slice()),
            ),
        }
    }
}

impl DirectMessage {
    /// The name of the kind of message.
    pub fn kind_name(&self) -> (r: &'static str)
        ensures
            r@ == (match self@ {
                Ok(_) => "ip"@,
                Err(_) => "keepalive"@,
            }),
    {
        match self {
            DirectMessage::IpPacket(_) => "ip",
            DirectMessage::IDontLikeWarnings(_) => "keepalive",
        }
    }

    /// The number of bytes of the packet, and zero for a sign of life.
    pub fn payload_len(&self) -> (r: usize)
        ensures
            r == (match self@ {
                Ok(packet) => packet.len(),
                Err(_) => 0,
            }),
    {
        match self {
            DirectMessage::IpPacket(pkg) => pkg.as_slice().len(),
            DirectMessage::IDontLikeWarnings(_) => 0,
        }
    }
}

/// Why a datagram gave no message.
#[derive(Debug, PartialEq, Eq)]
pub enum ReadError {
    /// No datagram could be read.
    Datagram(String),
    /// The datagram is not meant for us.
    Multiplex(String),
    /// The datagram holds no message.
    Deserialize(String),
}

/// The text of an error.
pub open spec fn error_text(e: ReadError) -> Seq<char> {
    "Read error: "@ + (match e {
        ReadError::Datagram(e) => e@,
        ReadError::Multiplex(e) => e@,
        ReadError::Deserialize(e) => e@,
    })
}

impl ReadError {
    /// The text of the error.
    pub fn to_text(&self) -> (r: String)
        ensures
            r@ == error_text(*self),
    {
        let mut text = String::new();
        text.append("Read error: ");
        match self {
            ReadError::Datagram(e) => {
                text.append(e.as_str());
            },
            ReadError::Multiplex(e) => {
                text.append(e.as_str());
            },
            ReadError::Deserialize(e) => {
                text.append(e.as_str());
            },
        }
        assert(text@ =~= error_text(*self));
        text
    }
}

/// The datagram of a message.
pub open spec fn datagram_of(message: Result<Seq<u8>, Seq<u8>>) -> Seq<u8> {
    seq![DATAGRAM_PREFIX] + crate::wire::datagram_encoding(message)
}

/// A datagram is one of ours: something follows our prefix.
pub open spec fn is_ours(datagram: Seq<u8>) -> bool {
    datagram.len() > 1 && datagram[0] == DATAGRAM_PREFIX
}

/// The message of a datagram, if it has one.
pub open spec fn message_of(datagram: Seq<u8>) -> Option<Result<Seq<u8>, Seq<u8>>> {
    if is_ours(datagram) {
        match crate::wire::datagram_decoding(datagram.skip(1)) {
            Ok(message) => Some(message),
            Err(_) => None,
        }
    } else {
        None
    }
}

/// The text for a datagram of ours that holds no message.
pub open spec fn not_deserialized(datagram: Seq<u8>) -> Seq<char> {
    "failed to deserialize message: "@ + crate::wire::codec_text(
        crate::wire::datagram_decoding(datagram.skip(1))->Err_0,
    )
}

/// Puts a message into a datagram. Whoever reads it finds the message.
pub fn to_datagram(msg: &DirectMessage) -> (r: Vec<u8>)
    ensures
        r@ == datagram_of(msg@),
        message_of(r@) == Some(msg@),
{
    let parts: Result<Vec<u8>, Vec<u8>> = match msg {
        DirectMessage::IpPacket(pkg) => Ok(copy_bytes(pkg.as_slice())),
        DirectMessage::IDontLikeWarnings(frame) => Err(copy_bytes(frame.as_slice())),
    };
    let bytes = encode_datagram(&parts);
    let mut buf: Vec<u8> = Vec::new();
    buf.push(DATAGRAM_PREFIX);
    buf.extend_from_slice(bytes.as_slice());
    proof {
        assert(buf@ =~= datagram_of(msg@));
        assert(buf@.skip(1) =~= bytes@);
    }
    buf
}

/// The text for a datagram of another protocol.
pub open spec fn not_meant_for_us(datagram: Seq<u8>) -> Seq<char> {
    "not meant for us: len="@ + crate::text::decimal(datagram.len()) + " prefix="@ + (if datagram.len() > 0 {
        "Some("@ + crate::text::decimal(datagram[0] as nat) + ")"@
    } else {
        "None"@
    })
}

/// Reads the message of a datagram, and tells the datagram's length.
pub fn read_datagram(buf: &[u8]) -> (r: Result<(DirectMessage, usize), ReadError>)
    ensures
        r is Ok <==> message_of(buf@) is Some,
        r matches Ok(m) ==> message_of(buf@) == Some(m.0@) && m.1 == buf@.len(),
        r matches Err(e) ==> if is_ours(buf@) {
            e matches ReadError::Deserialize(text) && text@ == not_deserialized(buf@)
        } else {
            e matches ReadError::Multiplex(text) && text@ == not_meant_for_us(buf@)
        },
{
    let n: usize = buf.len();
    if n > 1 && buf[0] == DATAGRAM_PREFIX {
        let rest = vstd::slice::slice_subrange(buf, 1, n);
        assert(rest@ =~= buf@.skip(1));
        match decode_datagram(rest) {
            Ok(Ok(packet)) => Ok((DirectMessage::IpPacket(Ipv4Pkg::unchecked(packet)), n)),
            Ok(Err(frame)) => Ok((DirectMessage::IDontLikeWarnings(frame), n)),
            Err(e) => {
                let mut text = String::new();
                text.append("failed to deserialize message: ");
                text.append(e.to_text());
                assert(text@ =~= not_deserialized(buf@));
                Err(ReadError::Deserialize(text))
            },
        }
    } else {
        let mut text = String::new();
        text.append("not meant for us: len=");
        push_decimal(&mut text, n as u128);
        text.append(" prefix=");
        if n > 0 {
            text.append("Some(");
            push_decimal(&mut text, buf[0] as u128);
            text.append(")");
        } else {
            text.append("None");
        }
        assert(text@ =~= not_meant_for_us(buf@));
        Err(ReadError::Multiplex(text))
    }
}

} // verus!
