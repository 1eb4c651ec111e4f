//! A node on its own: what it is set up with, and what its loop does with a packet.
use vstd::prelude::*;
use crate::direct_message::DirectMessage;
use crate::keys::SecretKey;
use crate::tun::Ipv4Pkg;

pub use crate::router::Builder;

verus! {

/// Sets up a node for a network.
pub fn configure(name: &str, password: &str, creator_mode: bool, secret: SecretKey) -> (r: Builder)
    ensures
        r.spec_name() == name@,
        r.spec_password() == password@,
        r.spec_creator() == creator_mode,
        r.spec_key() == secret,
{
    let builder = Builder::new().entry_name(name).password(password);
    let builder = if creator_mode {
        builder.creator_mode()
    } else {
        builder
    };
    builder.secret_key(secret)
}

/// What the loop does with a packet of the device.
#[derive(Clone, Copy, Debug, PartialEq, Eq, Structural)]
pub enum DeviceAction {
    /// Nobody has the address.
    Drop,
    /// The packet was routed.
    Nothing,
    /// The packet could not be routed: a new connection is opened.
    Reconnect,
}

/// What the loop does with a packet of the device: whether someone has its address, and
/// whether routing it succeeded.
pub fn after_device_packet(known: bool, routed: bool) -> (r: DeviceAction)
    ensures
        r == (if !known {
            DeviceAction::Drop
        } else if routed {
            DeviceAction::Nothing
        } else {
            DeviceAction::Reconnect
        }),
{
    if !known {
        DeviceAction::Drop
    } else if routed {
        DeviceAction::Nothing
    } else {
        DeviceAction::Reconnect
    }
}

/// The packet of a message from a peer, which goes to the device.
pub fn to_device(message: DirectMessage) -> (r: Option<Ipv4Pkg>)
    ensures
        r is Some <==> message@ is Ok,
        r matches Some(pkg) ==> message@ == Ok::<Seq<u8>, Seq<u8>>(pkg@),
{
    match message {
        DirectMessage::IpPacket(pkg) => Some(pkg),
        DirectMessage::IDontLikeWarnings(_) => None,
    }
}

} // verus!
