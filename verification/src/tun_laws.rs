//! What holds of packets, byte by byte: which ones leave the device, which ones it takes
//! in, and what is changed on the way.
use vstd::prelude::*;
use crate::ipv4::Ipv4Addr;
use crate::tun;

verus! {

/// Where the payload begins by the first byte of a packet: behind the header, which takes
/// at least 20 bytes.
pub open spec fn behind_header(packet: Seq<u8>) -> int {
    if (packet[0] % 16) * 4 > 20 {
        (packet[0] % 16) * 4
    } else {
        20
    }
}

/// The packet carries `n` bytes at least, by the length in its header and by the bytes that
/// are there.
pub open spec fn carries(packet: Seq<u8>, n: int) -> bool {
    &&& packet[2] * 256 + packet[3] - (packet[0] % 16) * 4 >= n
    &&& packet.len() - behind_header(packet) >= n
}

/// The packet is whole: no part follows, and none came before.
pub open spec fn is_whole(packet: Seq<u8>) -> bool {
    packet[6] % 64 == 0 && packet[7] == 0
}

/// The addresses of a packet, taken apart, are those in its bytes.
pub open spec fn octets_at(packet: Seq<u8>, i: int, ip: Ipv4Addr) -> bool {
    packet[i] == ip.a && packet[i + 1] == ip.b && packet[i + 2] == ip.c && packet[i + 3] == ip.d
}

/// A packet leaves exactly if it has the bytes of a header, is no broadcast, carries TCP,
/// UDP or ICMP, and is not a whole UDP datagram from one of the bound ports.
pub proof fn what_leaves(packet: Seq<u8>, bound_ports: Seq<u16>)
    ensures
        tun::outgoing(packet, bound_ports) is Some <==> {
            &&& packet.len() >= 20
            &&& packet[18] != 255 || packet[19] != 255
            &&& packet[9] == 1 || packet[9] == 6 || packet[9] == 17
            &&& !(packet[9] == 17 && is_whole(packet) && carries(packet, 8) && exists|i: int|
                0 <= i < bound_ports.len() && #[trigger] bound_ports[i] == packet[behind_header(packet)] * 256
                    + packet[behind_header(packet) + 1])
        },
{
    if packet.len() >= 20 {
        let payload = crate::packet::payload_of(packet);
        assert(is_whole(packet) <==> !tun::is_fragment(packet));
        assert(carries(packet, 8) <==> payload.len() >= 8);
        if payload.len() >= 8 {
            let at = behind_header(packet);
            assert(payload[0] == packet[at] && payload[1] == packet[at + 1]);
            let port = crate::packet::number_at(payload, 0);
            assert(port == packet[at] * 256 + packet[at + 1]);
            assert(bound_ports.contains(port) <==> exists|i: int|
                0 <= i < bound_ports.len() && #[trigger] bound_ports[i] == packet[at] * 256 + packet[at + 1]);
        }
    }
}

/// Length is no obstacle: a TCP or ICMP packet of any length from 20 bytes on that is no
/// broadcast leaves, and so does a UDP datagram while none of the bound ports is its own.
pub proof fn packets_of_every_length_leave(packet: Seq<u8>, bound_ports: Seq<u16>)
    requires
        packet.len() >= 20,
        packet[18] != 255 || packet[19] != 255,
        packet[9] == 1 || packet[9] == 6 || packet[9] == 17,
        packet[9] == 17 && packet.len() >= behind_header(packet) + 8 ==> forall|i: int|
            0 <= i < bound_ports.len() ==> #[trigger] bound_ports[i] != packet[behind_header(packet)] * 256
                + packet[behind_header(packet) + 1],
    ensures
        tun::outgoing(packet, bound_ports) is Some,
        tun::outgoing(packet, bound_ports).unwrap().len() == packet.len(),
{
    what_leaves(packet, bound_ports);
    tun::outgoing_keeps_addresses(packet, bound_ports);
}

/// What a packet carries does not decide: of two packets with the same first 20 bytes
/// that are not UDP, or are parts of larger ones, both leave or neither does.
pub proof fn headers_decide(a: Seq<u8>, b: Seq<u8>, bound_ports: Seq<u16>, others: Seq<u16>)
    requires
        a.len() >= 20,
        b.len() >= 20,
        forall|i: int| 0 <= i < 20 ==> a[i] == b[i],
        a[9] != 17 || !is_whole(a),
    ensures
        tun::outgoing(a, bound_ports) is Some <==> tun::outgoing(b, others) is Some,
{
    what_leaves(a, bound_ports);
    what_leaves(b, others);
}

/// The place of the checksum in what a packet carries, if there is one.
pub open spec fn checksum_place(packet: Seq<u8>) -> Option<int> {
    if !is_whole(packet) {
        None
    } else if packet[9] == 6 && carries(packet, 20) {
        Some(behind_header(packet) + 16)
    } else if packet[9] == 17 && carries(packet, 8) {
        Some(behind_header(packet) + 6)
    } else if packet[9] == 1 && carries(packet, 4) {
        Some(behind_header(packet) + 2)
    } else {
        None
    }
}

/// On the way out nothing but the checksums is changed: every other byte stays.
pub proof fn only_checksums_change(packet: Seq<u8>, bound_ports: Seq<u16>)
    requires
        tun::outgoing(packet, bound_ports) is Some,
    ensures
        ({
            let out = tun::outgoing(packet, bound_ports).unwrap();
            &&& out.len() == packet.len()
            &&& forall|i: int|
                0 <= i < packet.len() && i != 10 && i != 11 && (checksum_place(packet) matches Some(at) ==> i != at
                    && i != at + 1) ==> #[trigger] out[i] == packet[i]
        }),
{
    what_leaves(packet, bound_ports);
    let mid = tun::header_checked(packet);
    let payload = crate::packet::payload_of(packet);
    assert(forall|i: int| 0 <= i < packet.len() && i != 10 && i != 11 ==> mid[i] == packet[i]);
    assert(crate::packet::payload_of(mid) =~= payload);
    assert(is_whole(packet) <==> !tun::is_fragment(mid));
    assert(carries(packet, 20) <==> payload.len() >= 20);
    assert(carries(packet, 8) <==> payload.len() >= 8);
    assert(carries(packet, 4) <==> payload.len() >= 4);
    assert(crate::packet::payload_start(mid) == behind_header(packet));
}

/// The device takes a packet from a peer in exactly if it has the bytes of a header, is
/// addressed to the device, and does not claim to come from it, whatever else it holds.
pub proof fn what_is_taken_in(packet: Seq<u8>, ip: Ipv4Addr)
    ensures
        tun::is_for(packet, ip) <==> packet.len() >= 20 && octets_at(packet, 16, ip) && !octets_at(packet, 12, ip),
{
}

/// Only the two addresses decide: packets that have both in common are taken in alike.
pub proof fn addresses_decide(a: Seq<u8>, b: Seq<u8>, ip: Ipv4Addr)
    requires
        a.len() >= 20,
        b.len() >= 20,
        forall|i: int| 12 <= i < 20 ==> a[i] == b[i],
    ensures
        tun::is_for(a, ip) <==> tun::is_for(b, ip),
{
    what_is_taken_in(a, ip);
    what_is_taken_in(b, ip);
}

/// What one device lets out to `ip` from another address, the device at `ip` takes in, and
/// a device with another address does not.
pub proof fn what_leaves_arrives(packet: Seq<u8>, bound_ports: Seq<u16>, ip: Ipv4Addr)
    requires
        tun::outgoing(packet, bound_ports) is Some,
    ensures
        octets_at(packet, 16, ip) && !octets_at(packet, 12, ip) ==> tun::is_for(
            tun::outgoing(packet, bound_ports).unwrap(),
            ip,
        ),
        !octets_at(packet, 16, ip) ==> !tun::is_for(tun::outgoing(packet, bound_ports).unwrap(), ip),
{
    what_leaves(packet, bound_ports);
    only_checksums_change(packet, bound_ports);
    let out = tun::outgoing(packet, bound_ports).unwrap();
    assert(checksum_place(packet) matches Some(at) ==> at >= 20);
    assert(forall|i: int| 12 <= i < 20 ==> out[i] == packet[i]);
    addresses_decide(packet, out, ip);
}

} // verus!
