//! A device that answers for its own address and hands everything else on.
use vstd::prelude::*;
use crate::ipv4::Ipv4Addr;
use crate::packet::{ICMP, TCP, UDP};
use crate::tun::{copy_bytes, InvalidPacket};

pub use crate::tun::Ipv4Pkg;

verus! {

/// What happens to a packet that the device hands out.
#[derive(Clone, Copy, Debug, PartialEq, Eq, Structural)]
pub enum LocalAction {
    /// It is no packet, or of another protocol.
    Ignore,
    /// It goes back into the device.
    Inject,
    /// It goes to the network.
    Forward,
}

/// The address of the device with this ending.
pub fn device_ip(free_ip_ending: (u8, u8)) -> (r: Ipv4Addr)
    ensures
        r == (Ipv4Addr { a: 172, b: 22, c: free_ip_ending.0, d: free_ip_ending.1 }),
{
    Ipv4Addr::new(172, 22, free_ip_ending.0, free_ip_ending.1)
}

/// What happens to a packet that the device with address `ip` hands out.
pub open spec fn local_action(packet: Seq<u8>, ip: Ipv4Addr) -> LocalAction {
    if packet.len() < 20 || !(packet[9] == TCP || packet[9] == UDP || packet[9] == ICMP) {
        LocalAction::Ignore
    } else if crate::packet::address_at(packet, 16) == ip {
        LocalAction::Inject
    } else {
        LocalAction::Forward
    }
}

/// Decides what happens to a packet that the device with address `ip` hands out.
pub fn decide(dev_buf: &[u8], ip: Ipv4Addr) -> (r: LocalAction)
    ensures
        r == local_action(dev_buf@, ip),
{
    let pkg = match Ipv4Pkg::new(dev_buf) {
        Ok(pkg) => pkg,
        Err(_) => {
            return LocalAction::Ignore;
        },
    };
    match pkg.to_ipv4_packet() {
        Ok(h) => {
            if h.protocol != TCP && h.protocol != UDP && h.protocol != ICMP {
                LocalAction::Ignore
            } else if h.destination == ip {
                LocalAction::Inject
            } else {
                LocalAction::Forward
            }
        },
        Err(_) => LocalAction::Ignore,
    }
}

/// The bytes that are written to the device, if they are a packet.
pub fn write_to_tun(pkg: &Ipv4Pkg) -> (r: Result<Vec<u8>, InvalidPacket>)
    ensures
        r is Ok <==> pkg@.len() >= 20,
        r matches Ok(data) ==> data@ == pkg@,
{
    match pkg.to_ipv4_packet() {
        Ok(_) => Ok(copy_bytes(pkg.as_slice())),
        Err(e) => Err(e),
    }
}

/// What is no packet or of another protocol is ignored; a packet for the device itself goes back
/// into it; everything else goes to the network, whatever it carries.
pub proof fn packets_go_where_they_are_addressed(packet: Seq<u8>, ip: Ipv4Addr)
    ensures
        local_action(packet, ip) == LocalAction::Ignore <==> packet.len() < 20 || packet[9] != 1 && packet[9] != 6
            && packet[9] != 17,
        local_action(packet, ip) == LocalAction::Inject <==> packet.len() >= 20 && (packet[9] == 1 || packet[9] == 6
            || packet[9] == 17) && packet[16] == ip.a && packet[17] == ip.b && packet[18] == ip.c && packet[19] == ip.d,
{
}

} // verus!
