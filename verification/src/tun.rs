//! The virtual network device: what its packets have to be.
use vstd::prelude::*;
use crate::ipv4::Ipv4Addr;
use crate::packet::{
    checksum_icmp, checksum_ipv4, checksum_tcp, checksum_udp, parse_ipv4, Ipv4Header, ICMP, TCP, UDP,
};

verus! {

/// What the device is told to do, with full addresses.
#[derive(Clone, Copy, Debug, PartialEq, Eq, Structural)]
pub enum TunEvent {
    Configure { ip: Ipv4Addr },
    Reconfigure { from: Ipv4Addr, to: Ipv4Addr },
    Teardown,
}

/// The bytes are no IPv4 packet.
#[derive(Clone, Copy, Debug, PartialEq, Eq, Structural)]
pub struct InvalidPacket;

/// An IPv4 packet.
#[derive(Debug, PartialEq, Eq, Hash)]
pub struct Ipv4Pkg {
    bytes: Vec<u8>,
}

impl View for Ipv4Pkg {
    type V = Seq<u8>;

    closed spec fn view(&self) -> Seq<u8> {
        self.bytes@
    }
}

/// Copies bytes.
pub(crate) fn copy_bytes(bytes: &[u8]) -> (r: Vec<u8>)
    ensures
        r@ == bytes@,
{
    let mut r: Vec<u8> = Vec::new();
    r.extend_from_slice(bytes);
    assert(r@ =~= bytes@);
    r
}

impl Clone for Ipv4Pkg {
    fn clone(&self) -> (r: Self)
        ensures
            r@ == self@,
    {
        Ipv4Pkg { bytes: copy_bytes(self.bytes.as_slice()) }
    }
}

impl Ipv4Pkg {
    /// Takes bytes that have the length of a packet at least.
    pub fn new(buf: &[u8]) -> (r: Result<Self, InvalidPacket>)
        ensures
            r is Ok <==> buf@.len() >= 20,
            r matches Ok(pkg) ==> pkg@ == buf@,
    {
        let pkg = Ipv4Pkg { bytes: copy_bytes(buf) };
        match pkg.to_ipv4_packet() {
            Ok(_) => Ok(pkg),
            Err(e) => Err(e),
        }
    }

    /// A packet as it came over the wire. It may be too short.
    pub(crate) fn unchecked(bytes: Vec<u8>) -> (r: Self)
        ensures
            r@ == bytes@,
    {
        Ipv4Pkg { bytes }
    }

    /// The fields of the packet.
    pub fn to_ipv4_packet(&self) -> (r: Result<Ipv4Header, InvalidPacket>)
        ensures
            r is Ok <==> self@.len() >= 20,
            r matches Ok(h) ==> {
                &&& h.source == crate::packet::address_at(self@, 12)
                &&& h.destination == crate::packet::address_at(self@, 16)
                &&& h.protocol == self@[9]
                &&& h.flags == self@[6] / 32
                &&& h.fragment_offset == (self@[6] % 32) * 256 + self@[7]
                &&& h.payload@ == crate::packet::payload_of(self@)
            },
    {
        match parse_ipv4(self.bytes.as_slice()) {
            Some(h) => Ok(h),
            None => Err(InvalidPacket),
        }
    }

    /// The bytes of the packet.
    pub fn as_slice(&self) -> (r: &[u8])
        ensures
            r@ == self@,
    {
        self.bytes.as_slice()
    }
}

/// A packet from a peer is for the device if it is a packet, is addressed to `ip` and
/// does not claim to come from `ip`.
pub open spec fn is_for(packet: Seq<u8>, ip: Ipv4Addr) -> bool {
    &&& packet.len() >= 20
    &&& crate::packet::address_at(packet, 16) == ip
    &&& crate::packet::address_at(packet, 12) != ip
}

/// Whether a packet from a peer goes to the device with address `ip`.
pub fn accepts_from_peer(pkg: &Ipv4Pkg, ip: Ipv4Addr) -> (r: bool)
    ensures
        r == is_for(pkg@, ip),
        r <==> {
            &&& pkg@.len() >= 20
            &&& pkg@[16] == ip.a && pkg@[17] == ip.b && pkg@[18] == ip.c && pkg@[19] == ip.d
            &&& pkg@[12] != ip.a || pkg@[13] != ip.b || pkg@[14] != ip.c || pkg@[15] != ip.d
        },
{
    match pkg.to_ipv4_packet() {
        Ok(h) => h.destination == ip && h.source != ip,
        Err(_) => false,
    }
}

/// The packet is a part of a larger one: more parts follow, or it does not begin at
/// the start.
pub open spec fn is_fragment(packet: Seq<u8>) -> bool {
    (packet[6] / 32) % 2 != 0 || (packet[6] % 32) * 256 + packet[7] > 0
}

/// Broadcast packets stay here, and so does what is neither TCP, UDP nor ICMP.
pub open spec fn may_leave(packet: Seq<u8>) -> bool {
    &&& packet.len() >= 20
    &&& !(packet[18] == 255 && packet[19] == 255)
    &&& packet[9] == TCP || packet[9] == UDP || packet[9] == ICMP
}

/// The packet was sent by one of this node's own sockets.
pub open spec fn is_own_traffic(packet: Seq<u8>, bound_ports: Seq<u16>) -> bool {
    let payload = crate::packet::payload_of(packet);
    &&& !is_fragment(packet)
    &&& packet[9] == UDP
    &&& payload.len() >= 8
    &&& bound_ports.contains(crate::packet::number_at(payload, 0))
}

/// The packet with the checksum of its header.
pub open spec fn header_checked(packet: Seq<u8>) -> Seq<u8> {
    crate::packet::with_number(packet, 10, crate::packet::ipv4_checksum(packet))
}

/// The packet with the checksum of what it carries. A fragment has none, and neither
/// has a payload that is too short to hold one.
pub open spec fn payload_checked(packet: Seq<u8>) -> Seq<u8> {
    let payload = crate::packet::payload_of(packet);
    let at = crate::packet::payload_start(packet);
    let source = packet.subrange(12, 16);
    let destination = packet.subrange(16, 20);
    if is_fragment(packet) {
        packet
    } else if packet[9] == TCP && payload.len() >= 20 {
        crate::packet::with_number(
            packet,
            at + 16,
            crate::packet::transport_checksum(payload, 16, source, destination, TCP),
        )
    } else if packet[9] == UDP && payload.len() >= 8 {
        crate::packet::with_number(
            packet,
            at + 6,
            crate::packet::transport_checksum(payload, 6, source, destination, UDP),
        )
    } else if packet[9] == ICMP && payload.len() >= 4 {
        crate::packet::with_number(packet, at + 2, crate::packet::icmp_checksum(payload))
    } else {
        packet
    }
}

/// What leaves the device for the network when it hands out `packet`, if anything
/// does.
pub open spec fn outgoing(packet: Seq<u8>, bound_ports: Seq<u16>) -> Option<Seq<u8>> {
    if !may_leave(packet) || is_own_traffic(packet, bound_ports) {
        None
    } else {
        Some(payload_checked(header_checked(packet)))
    }
}

/// Whether a port is in the list.
fn has_port(list: &[u16], port: u16) -> (r: bool)
    ensures
        r == list@.contains(port),
{
    let mut i: usize = 0;
    while i < list.len()
        invariant
            i <= list@.len(),
            forall|j: int| 0 <= j < i ==> list@[j] != port,
        decreases list@.len() - i,
    {
        if list[i] == port {
            assert(list@[i as int] == port);
            return true;
        }
        i = i + 1;
    }
    false
}

/// Where the payload of a packet begins.
fn start_of_payload(packet: &[u8]) -> (r: usize)
    requires
        packet@.len() > 0,
    ensures
        r == crate::packet::payload_start(packet@),
{
    let stated: usize = ((packet[0] % 16) as usize) * 4;
    if stated > 20 {
        stated
    } else {
        20
    }
}

/// Reads a number from the first two bytes, the higher byte first.
fn read_number(bytes: &[u8]) -> (r: u16)
    requires
        bytes@.len() >= 2,
    ensures
        r == crate::packet::number_at(bytes@, 0),
{
    256 * (bytes[0] as u16) + (bytes[1] as u16)
}

/// Writes a number into two places, the higher byte first.
fn write_number(bytes: &mut Vec<u8>, i: usize, n: u16)
    requires
        i + 1 < old(bytes)@.len(),
    ensures
        final(bytes)@ == crate::packet::with_number(old(bytes)@, i as int, n),
{
    let len: usize = bytes.len();
    assert(i + 1 < len);
    bytes[i] = (n / 256) as u8;
    bytes[i + 1] = (n % 256) as u8;
}

/// Setting the header checksum moves nothing that the rest depends on.
proof fn lemma_header_checked(packet: Seq<u8>)
    requires
        packet.len() >= 20,
    ensures
        header_checked(packet).len() == packet.len(),
        is_fragment(header_checked(packet)) == is_fragment(packet),
        header_checked(packet)[9] == packet[9],
        crate::packet::payload_start(header_checked(packet)) == crate::packet::payload_start(packet),
        crate::packet::payload_end(header_checked(packet)) == crate::packet::payload_end(packet),
        crate::packet::payload_of(header_checked(packet)) == crate::packet::payload_of(packet),
        header_checked(packet).subrange(12, 16) == packet.subrange(12, 16),
        header_checked(packet).subrange(16, 20) == packet.subrange(16, 20),
{
    let p = header_checked(packet);
    assert(forall|i: int| 0 <= i < packet.len() && i != 10 && i != 11 ==> p[i] == packet[i]);
    assert(crate::packet::payload_of(p) =~= crate::packet::payload_of(packet));
    assert(p.subrange(12, 16) =~= packet.subrange(12, 16));
    assert(p.subrange(16, 20) =~= packet.subrange(16, 20));
}

/// Prepares a packet that the device hands out: decides whether it leaves, and sets
/// its checksums.
pub fn process_outgoing(dev_buf: &[u8], bound_socket_ports: &[u16]) -> (r: Option<Ipv4Pkg>)
    ensures
        r is Some <==> outgoing(dev_buf@, bound_socket_ports@) is Some,
        r matches Some(pkg) ==> outgoing(dev_buf@, bound_socket_ports@) == Some(pkg@),
        r is Some <==> {
            let at = crate::tun_laws::behind_header(dev_buf@);
            &&& dev_buf@.len() >= 20
            &&& dev_buf@[18] != 255 || dev_buf@[19] != 255
            &&& dev_buf@[9] == 1 || dev_buf@[9] == 6 || dev_buf@[9] == 17
            &&& !(dev_buf@[9] == 17 && crate::tun_laws::is_whole(dev_buf@) && crate::tun_laws::carries(dev_buf@, 8)
                && exists|i: int|
                0 <= i < bound_socket_ports@.len() && #[trigger] bound_socket_ports@[i] == dev_buf@[at] * 256
                    + dev_buf@[at + 1])
        },
{
    proof {
        crate::tun_laws::what_leaves(dev_buf@, bound_socket_ports@);
    }
    let header = match parse_ipv4(dev_buf) {
        Some(h) => h,
        None => {
            return None;
        },
    };
    // drop broadcast packets to prevent loops (broadcast storms)
    if header.destination.c == 255 && header.destination.d == 255 {
        return None;
    }
    if header.protocol != TCP && header.protocol != UDP && header.protocol != ICMP {
        return None;
    }
    proof {
        lemma_header_checked(dev_buf@);
    }
    let mut packet = copy_bytes(dev_buf);
    write_number(&mut packet, 10, checksum_ipv4(dev_buf));

    // If offset > 0, it's a tail fragment (no L4 header).
    // If MF (MoreFragments) flag is set, it's a head fragment (checksum covers future data we don't have).
    let fragment = header.flags % 2 != 0 || header.fragment_offset > 0;
    let payload = &header.payload;
    let n: usize = payload.len();
    let source = header.source.octets();
    let destination = header.destination.octets();
    if !fragment && n > 0 {
        let at: usize = start_of_payload(dev_buf);
        proof {
            assert(source@ =~= dev_buf@.subrange(12, 16));
            assert(destination@ =~= dev_buf@.subrange(16, 20));
            assert(at + n <= packet@.len());
        }
        if header.protocol == TCP {
            if n >= 20 {
                let sum = checksum_tcp(payload.as_slice(), &source, &destination);
                write_number(&mut packet, at + 16, sum);
            }
        } else if header.protocol == UDP {
            if n >= 8 {
                let port: u16 = read_number(payload.as_slice());
                if has_port(bound_socket_ports, port) {
                    return None;
                }
                let sum = checksum_udp(payload.as_slice(), &source, &destination);
                write_number(&mut packet, at + 6, sum);
            }
        } else if n >= 4 {
            let sum = checksum_icmp(payload.as_slice());
            write_number(&mut packet, at + 2, sum);
        }
    }
    match Ipv4Pkg::new(packet.as_slice()) {
        Ok(pkg) => Some(pkg),
        Err(_) => None,
    }
}

/// The ports of the sockets that are bound to an IPv4 address, out of all sockets
/// with whether their address is one.
pub fn ipv4_ports(sockets: &[(bool, u16)]) -> (r: Vec<u16>)
    ensures
        r@ == sockets@.filter(|s: (bool, u16)| s.0).map_values(|s: (bool, u16)| s.1),
{
    let mut r: Vec<u16> = Vec::new();
    let ghost v4 = |s: (bool, u16)| s.0;
    let ghost port = |s: (bool, u16)| s.1;
    let mut i: usize = 0;
    assert(sockets@.take(0).filter(v4).map_values(port) =~= Seq::empty()) by {
        reveal(Seq::filter);
    }
    while i < sockets.len()
        invariant
            i <= sockets@.len(),
            v4 == (|s: (bool, u16)| s.0),
            port == (|s: (bool, u16)| s.1),
            r@ == sockets@.take(i as int).filter(v4).map_values(port),
        decreases sockets@.len() - i,
    {
        proof {
            assert(sockets@.take(i + 1).drop_last() =~= sockets@.take(i as int));
            reveal(Seq::filter);
        }
        let ghost so_far = sockets@.take(i as int).filter(v4);
        if sockets[i].0 {
            r.push(sockets[i].1);
            assert(r@ =~= so_far.push(sockets@[i as int]).map_values(port));
        }
        i = i + 1;
    }
    assert(sockets@.take(i as int) =~= sockets@);
    r
}

/// A packet that leaves keeps its length and its addresses, so the peer it was meant
/// for accepts it, and nobody else.
pub proof fn outgoing_keeps_addresses(packet: Seq<u8>, bound_ports: Seq<u16>)
    requires
        outgoing(packet, bound_ports) is Some,
    ensures
        outgoing(packet, bound_ports).unwrap().len() == packet.len(),
        crate::packet::address_at(outgoing(packet, bound_ports).unwrap(), 12) == crate::packet::address_at(packet, 12),
        crate::packet::address_at(outgoing(packet, bound_ports).unwrap(), 16) == crate::packet::address_at(packet, 16),
        forall|ip: Ipv4Addr| #[trigger]
            is_for(outgoing(packet, bound_ports).unwrap(), ip) <==> is_for(packet, ip),
{
    lemma_header_checked(packet);
}

/// The header of a packet checks out: its bytes sum up to a multiple of 65535.
pub open spec fn header_checks_out(packet: Seq<u8>) -> bool {
    crate::packet::byte_sum(crate::packet::header_of(packet)) % 65_535 == 0
}

/// What a packet carries checks out with its addresses, its protocol and its length.
pub open spec fn transport_checks_out(packet: Seq<u8>) -> bool {
    let payload = crate::packet::payload_of(packet);
    (crate::packet::byte_sum(packet.subrange(12, 16)) + crate::packet::byte_sum(packet.subrange(16, 20)) + packet[9]
        + payload.len() + crate::packet::byte_sum(payload)) % 65_535 == 0
}

/// The two parts of a packet after its checksums were set.
proof fn lemma_outgoing_parts(packet: Seq<u8>)
    requires
        may_leave(packet),
    ensures
        ({
            let out = payload_checked(header_checked(packet));
            let payload = crate::packet::payload_of(packet);
            let source = packet.subrange(12, 16);
            let destination = packet.subrange(16, 20);
            &&& out.len() == packet.len()
            &&& forall|i: int| 0 <= i < 20 && i != 10 && i != 11 ==> #[trigger] out[i] == packet[i]
            &&& crate::packet::header_of(out) == crate::packet::with_number(
                crate::packet::header_of(packet),
                10,
                crate::packet::ipv4_checksum(packet),
            )
            &&& crate::packet::payload_start(out) == crate::packet::payload_start(packet)
            &&& crate::packet::payload_end(out) == crate::packet::payload_end(packet)
            &&& is_fragment(out) == is_fragment(packet)
            &&& out.subrange(12, 16) == source
            &&& out.subrange(16, 20) == destination
            &&& crate::packet::payload_of(out) == (if is_fragment(packet) {
                payload
            } else if packet[9] == TCP && payload.len() >= 20 {
                crate::packet::with_number(
                    payload,
                    16,
                    crate::packet::transport_checksum(payload, 16, source, destination, TCP),
                )
            } else if packet[9] == UDP && payload.len() >= 8 {
                crate::packet::with_number(
                    payload,
                    6,
                    crate::packet::transport_checksum(payload, 6, source, destination, UDP),
                )
            } else if packet[9] == ICMP && payload.len() >= 4 {
                crate::packet::with_number(payload, 2, crate::packet::icmp_checksum(payload))
            } else {
                payload
            })
        }),
{
    lemma_header_checked(packet);
    let mid = header_checked(packet);
    let out = payload_checked(mid);
    let payload = crate::packet::payload_of(packet);
    assert(crate::packet::payload_of(mid) == payload);
    assert(forall|i: int| 0 <= i < 20 && i != 10 && i != 11 ==> #[trigger] out[i] == packet[i]);
    assert(crate::packet::header_of(out) =~= crate::packet::with_number(
        crate::packet::header_of(packet),
        10,
        crate::packet::ipv4_checksum(packet),
    ));
    assert(out.subrange(12, 16) =~= packet.subrange(12, 16));
    assert(out.subrange(16, 20) =~= packet.subrange(16, 20));
    if packet[9] == TCP {
        assert(crate::packet::payload_of(out) =~= (if is_fragment(packet) || payload.len() < 20 {
            payload
        } else {
            crate::packet::with_number(
                payload,
                16,
                crate::packet::transport_checksum(payload, 16, packet.subrange(12, 16), packet.subrange(16, 20), TCP),
            )
        }));
    } else if packet[9] == UDP {
        assert(crate::packet::payload_of(out) =~= (if is_fragment(packet) || payload.len() < 8 {
            payload
        } else {
            crate::packet::with_number(
                payload,
                6,
                crate::packet::transport_checksum(payload, 6, packet.subrange(12, 16), packet.subrange(16, 20), UDP),
            )
        }));
    } else {
        assert(crate::packet::payload_of(out) =~= (if is_fragment(packet) || payload.len() < 4 {
            payload
        } else {
            crate::packet::with_number(payload, 2, crate::packet::icmp_checksum(payload))
        }));
    }
}

/// Whatever leaves has a header that checks out, and unless it is a fragment or too short,
/// what it carries checks out too.
pub proof fn outgoing_checks_out(packet: Seq<u8>, bound_ports: Seq<u16>)
    requires
        outgoing(packet, bound_ports) is Some,
    ensures
        ({
            let out = outgoing(packet, bound_ports).unwrap();
            let payload = crate::packet::payload_of(out);
            &&& header_checks_out(out)
            &&& !is_fragment(packet) && (packet[9] == TCP && payload.len() >= 20 || packet[9] == UDP
                && payload.len() >= 8) ==> transport_checks_out(out)
            &&& !is_fragment(packet) && packet[9] == ICMP && payload.len() >= 4 ==> crate::packet::byte_sum(payload)
                % 65_535 == 0
        }),
{
    lemma_outgoing_parts(packet);
    let out = outgoing(packet, bound_ports).unwrap();
    let header = crate::packet::header_of(packet);
    crate::packet::lemma_byte_sum(header, 10, crate::packet::ipv4_checksum(packet));
    crate::packet::lemma_checksum_of(crate::packet::byte_sum(crate::packet::with_number(header, 10, 0)));
    let payload = crate::packet::payload_of(packet);
    let source = packet.subrange(12, 16);
    let destination = packet.subrange(16, 20);
    let pseudo = crate::packet::byte_sum(source) + crate::packet::byte_sum(destination);
    if !is_fragment(packet) {
        if packet[9] == TCP && payload.len() >= 20 {
            let sum = crate::packet::transport_checksum(payload, 16, source, destination, TCP);
            crate::packet::lemma_byte_sum(payload, 16, sum);
            crate::packet::lemma_checksum_of(
                pseudo + 6nat + payload.len() + crate::packet::byte_sum(
                    crate::packet::with_number(payload, 16, 0),
                ),
            );
        } else if packet[9] == UDP && payload.len() >= 8 {
            let sum = crate::packet::transport_checksum(payload, 6, source, destination, UDP);
            crate::packet::lemma_byte_sum(payload, 6, sum);
            crate::packet::lemma_checksum_of(
                pseudo + 17nat + payload.len() + crate::packet::byte_sum(
                    crate::packet::with_number(payload, 6, 0),
                ),
            );
        } else if packet[9] == ICMP && payload.len() >= 4 {
            crate::packet::lemma_byte_sum(payload, 2, crate::packet::icmp_checksum(payload));
            crate::packet::lemma_checksum_of(
                crate::packet::byte_sum(crate::packet::with_number(payload, 2, 0)),
            );
        }
    }
}

/// A packet that was prepared once is not changed by being prepared again.
pub proof fn preparing_twice_is_preparing_once(packet: Seq<u8>, bound_ports: Seq<u16>)
    requires
        outgoing(packet, bound_ports) is Some,
    ensures
        outgoing(outgoing(packet, bound_ports).unwrap(), bound_ports) == outgoing(packet, bound_ports),
{
    lemma_outgoing_parts(packet);
    let out = outgoing(packet, bound_ports).unwrap();
    let header = crate::packet::header_of(packet);
    let payload = crate::packet::payload_of(packet);
    let source = packet.subrange(12, 16);
    let destination = packet.subrange(16, 20);
    crate::packet::lemma_rewritten(header, 10, crate::packet::ipv4_checksum(packet), 0);
    assert(crate::packet::ipv4_checksum(out) == crate::packet::ipv4_checksum(packet));
    let sum = crate::packet::ipv4_checksum(packet);
    assert(out[10] == crate::packet::header_of(out)[10] && out[11] == crate::packet::header_of(out)[11]);
    assert(header_checked(out) =~= out);
    let carried = crate::packet::payload_of(out);
    assert(may_leave(out));
    assert(carried.len() == payload.len());
    if payload.len() >= 8 && packet[9] == UDP {
        assert(crate::packet::number_at(carried, 0) == crate::packet::number_at(payload, 0));
    }
    assert(!is_own_traffic(out, bound_ports));
    let at = crate::packet::payload_start(packet);
    if !is_fragment(packet) {
        if packet[9] == TCP && payload.len() >= 20 {
            let n = crate::packet::transport_checksum(payload, 16, source, destination, TCP);
            crate::packet::lemma_rewritten(payload, 16, n, 0);
            assert(out[at + 16] == carried[16] && out[at + 17] == carried[17]);
        } else if packet[9] == UDP && payload.len() >= 8 {
            let n = crate::packet::transport_checksum(payload, 6, source, destination, UDP);
            crate::packet::lemma_rewritten(payload, 6, n, 0);
            assert(out[at + 6] == carried[6] && out[at + 7] == carried[7]);
        } else if packet[9] == ICMP && payload.len() >= 4 {
            crate::packet::lemma_rewritten(payload, 2, crate::packet::icmp_checksum(payload), 0);
            assert(out[at + 2] == carried[2] && out[at + 3] == carried[3]);
        }
    }
    assert(payload_checked(out) =~= out);
}

} // verus!
