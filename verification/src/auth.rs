//! The handshake with which two nodes show each other that they know the secret of
//! the network.
use vstd::prelude::*;
use crate::direct_connect::same_bytes;
use crate::hashes::sha512_of;
use crate::id::EndpointId;

verus! {

/// How long the handshake of the other side may take, in milliseconds.
pub const HANDSHAKE_TIMEOUT_MS: u64 = 10_000;

/// What the other side is told when its handshake is wrong.
pub const HANDSHAKE_FAILED: u32 = 403;

/// What came of waiting for the handshake of the other side.
#[derive(Clone, Copy, Debug)]
pub enum Received {
    Bytes([u8; 64]),
    Failed,
    TimedOut,
}

/// Why a handshake did not come about.
#[derive(Clone, Copy, Debug, PartialEq, Eq, Structural)]
pub enum HandshakeError {
    ReadFailed,
    TimedOut,
    /// The other side does not know the secret: the connection is closed.
    Mismatch,
}

/// What `from` sends to `to`.
pub open spec fn handshake_of(network_secret: Seq<u8>, from: EndpointId, to: EndpointId) -> Seq<u8> {
    crate::hashes::sha512_digest(network_secret + from.bytes@ + to.bytes@)@
}

/// Whether we accept what the other side sent.
pub open spec fn accepts(network_secret: Seq<u8>, ours: EndpointId, theirs: EndpointId, received: Seq<u8>) -> bool {
    received == handshake_of(network_secret, theirs, ours)
}

fn handshake(network_secret: &[u8; 64], from: &EndpointId, to: &EndpointId) -> (r: [u8; 64])
    ensures
        r@ == handshake_of(network_secret@, *from, *to),
{
    let mut message: Vec<u8> = Vec::new();
    message.extend_from_slice(network_secret);
    message.extend_from_slice(&from.bytes);
    message.extend_from_slice(&to.bytes);
    assert(message@ =~= network_secret@ + from.bytes@ + to.bytes@);
    sha512_of(message.as_slice())
}

/// The handshake that we send.
pub fn our_handshake(
    network_secret: &[u8; 64],
    our_endpoint_id: &EndpointId,
    their_endpoint_id: &EndpointId,
) -> (r: [u8; 64])
    ensures
        r@ == handshake_of(network_secret@, *our_endpoint_id, *their_endpoint_id),
{
    handshake(network_secret, our_endpoint_id, their_endpoint_id)
}

/// Judges what the other side sent.
pub fn check_handshake(
    network_secret: &[u8; 64],
    our_endpoint_id: &EndpointId,
    their_endpoint_id: &EndpointId,
    received: Received,
) -> (r: Result<(), HandshakeError>)
    ensures
        r == (match received {
            Received::Bytes(b) => if accepts(network_secret@, *our_endpoint_id, *their_endpoint_id, b@) {
                Ok::<(), HandshakeError>(())
            } else {
                Err(HandshakeError::Mismatch)
            },
            Received::Failed => Err(HandshakeError::ReadFailed),
            Received::TimedOut => Err(HandshakeError::TimedOut),
        }),
{
    match received {
        Received::Bytes(b) => {
            let expected = handshake(network_secret, their_endpoint_id, our_endpoint_id);
            if same_bytes(&b, &expected) {
                Ok(())
            } else {
                Err(HandshakeError::Mismatch)
            }
        },
        Received::Failed => Err(HandshakeError::ReadFailed),
        Received::TimedOut => Err(HandshakeError::TimedOut),
    }
}

/// Two nodes that know the same secret accept each other: what `a` sends to `b` is what
/// `b` waits for, whoever opened the connection.
pub proof fn one_secret_suffices(network_secret: Seq<u8>, a: EndpointId, b: EndpointId)
    ensures
        accepts(network_secret, b, a, handshake_of(network_secret, a, b)),
        accepts(network_secret, a, b, handshake_of(network_secret, b, a)),
{
}

} // verus!
