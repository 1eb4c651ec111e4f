//! IPv4 packets: the fields that matter here and the checksums.
use vstd::prelude::*;
use crate::ipv4::Ipv4Addr;

verus! {

/// The number of ICMP among the protocols of IPv4.
pub const ICMP: u8 = 1;

/// The number of TCP among the protocols of IPv4.
pub const TCP: u8 = 6;

/// The number of UDP among the protocols of IPv4.
pub const UDP: u8 = 17;

/// The fields of an IPv4 packet that decide what happens to it.
#[derive(Debug)]
pub struct Ipv4Header {
    pub source: Ipv4Addr,
    pub destination: Ipv4Addr,
    pub protocol: u8,
    pub flags: u8,
    pub fragment_offset: u16,
    pub payload: Vec<u8>,
}

/// Four bytes as an address.
pub open spec fn address_at(bytes: Seq<u8>, i: int) -> Ipv4Addr {
    Ipv4Addr { a: bytes[i], b: bytes[i + 1], c: bytes[i + 2], d: bytes[i + 3] }
}

/// Two bytes as a number, the higher one first.
pub open spec fn number_at(bytes: Seq<u8>, i: int) -> u16 {
    (256 * bytes[i] + bytes[i + 1]) as u16
}

/// `bytes` with a number in two places, the higher byte first.
pub open spec fn with_number(bytes: Seq<u8>, i: int, n: u16) -> Seq<u8> {
    bytes.update(i, (n / 256) as u8).update(i + 1, (n % 256) as u8)
}

/// The length of the header in bytes, as the packet states it.
pub open spec fn header_len(packet: Seq<u8>) -> int {
    (packet[0] % 16) * 4
}

/// Where the payload begins.
pub open spec fn payload_start(packet: Seq<u8>) -> int {
    if header_len(packet) > 20 {
        header_len(packet)
    } else {
        20
    }
}

/// Where the payload ends: where the stated total length puts it, but within the
/// packet.
pub open spec fn payload_end(packet: Seq<u8>) -> int {
    let stated = number_at(packet, 2) - header_len(packet);
    let end = payload_start(packet) + (if stated > 0 {
        stated
    } else {
        0
    });
    if end < packet.len() {
        end
    } else {
        packet.len() as int
    }
}

/// The payload of a packet.
pub open spec fn payload_of(packet: Seq<u8>) -> Seq<u8> {
    if packet.len() <= payload_start(packet) {
        Seq::empty()
    } else {
        packet.subrange(payload_start(packet), payload_end(packet))
    }
}

/// The sum of bytes taken as numbers of two bytes, the higher one first.
pub open spec fn byte_sum(bytes: Seq<u8>) -> nat
    decreases bytes.len(),
{
    if bytes.len() == 0 {
        0
    } else {
        byte_sum(bytes.drop_last()) + bytes.last() as nat * (if bytes.len() % 2 == 1 {
            256nat
        } else {
            1nat
        })
    }
}

/// What has to be added to a sum to make it a multiple of 65535: zero where the sum is a
/// positive multiple already, and 65535 where it is zero.
pub open spec fn checksum_of(sum: nat) -> u16 {
    if sum == 0 {
        65_535
    } else {
        (65_534 - (sum - 1) % 65_535) as u16
    }
}

/// The header of a packet, as far as there are bytes.
pub open spec fn header_of(packet: Seq<u8>) -> Seq<u8> {
    packet.take(
        if payload_start(packet) < packet.len() {
            payload_start(packet)
        } else {
            packet.len() as int
        },
    )
}

/// The checksum of the header of an IPv4 packet. Its own place counts as zero.
pub open spec fn ipv4_checksum(packet: Seq<u8>) -> u16 {
    checksum_of(byte_sum(with_number(header_of(packet), 10, 0)))
}

/// The checksum of what is sent between two addresses with a protocol. Its own place, at
/// `at`, counts as zero.
pub open spec fn transport_checksum(
    data: Seq<u8>,
    at: int,
    source: Seq<u8>,
    destination: Seq<u8>,
    protocol: u8,
) -> u16 {
    checksum_of(
        byte_sum(source) + byte_sum(destination) + protocol as nat + data.len() + byte_sum(with_number(data, at, 0)),
    )
}

/// The checksum of an ICMP message. Its own place counts as zero.
pub open spec fn icmp_checksum(message: Seq<u8>) -> u16 {
    checksum_of(byte_sum(with_number(message, 2, 0)))
}

/// Calls `Ipv4Packet::new` of pnet_packet and reads the fields: a packet needs at least
/// 20 bytes; the fields stand at fixed places; the payload follows the header and
/// reaches as far as the stated length and the bytes allow.
#[verifier::external_body]
pub(crate) fn parse_ipv4(packet: &[u8]) -> (r: Option<Ipv4Header>)
    ensures
        r is Some <==> packet@.len() >= 20,
        r matches Some(h) ==> {
            &&& h.source == address_at(packet@, 12)
            &&& h.destination == address_at(packet@, 16)
            &&& h.protocol == packet@[9]
            &&& h.flags == packet@[6] / 32
            &&& h.fragment_offset == (packet@[6] % 32) * 256 + packet@[7]
            &&& h.payload@ == payload_of(packet@)
        },
{
    let p = pnet_packet::ipv4::Ipv4Packet::new(packet)?;
    let s = p.get_source().octets();
    let d = p.get_destination().octets();
    Some(Ipv4Header {
        source: Ipv4Addr { a: s[0], b: s[1], c: s[2], d: s[3] },
        destination: Ipv4Addr { a: d[0], b: d[1], c: d[2], d: d[3] },
        protocol: p.get_next_level_protocol().0,
        flags: p.get_flags(),
        fragment_offset: p.get_fragment_offset(),
        payload: pnet_packet::Packet::payload(&p).to_vec(),
    })
}

/// Calls `ipv4::checksum` of pnet_packet: the checksum of the header, whose stated length
/// is kept between 20 bytes and the length of the packet.
#[verifier::external_body]
pub(crate) fn checksum_ipv4(packet: &[u8]) -> (r: u16)
    requires
        packet@.len() >= 20,
    ensures
        r == ipv4_checksum(packet@),
{
    pnet_packet::ipv4::checksum(&pnet_packet::ipv4::Ipv4Packet::new(packet).unwrap())
}

/// Calls `tcp::ipv4_checksum` of pnet_packet: the checksum of the segment, the two
/// addresses, the number of the protocol and the length.
#[verifier::external_body]
pub(crate) fn checksum_tcp(segment: &[u8], source: &[u8; 4], destination: &[u8; 4]) -> (r: u16)
    requires
        20 <= segment@.len() <= 65_535,
    ensures
        r == transport_checksum(segment@, 16, source@, destination@, TCP),
{
    let segment = pnet_packet::tcp::TcpPacket::new(segment).unwrap();
    pnet_packet::tcp::ipv4_checksum(&segment, &(*source).into(), &(*destination).into())
}

/// Calls `udp::ipv4_checksum` of pnet_packet: the checksum of the datagram, the two
/// addresses, the number of the protocol and the length.
#[verifier::external_body]
pub(crate) fn checksum_udp(datagram: &[u8], source: &[u8; 4], destination: &[u8; 4]) -> (r: u16)
    requires
        8 <= datagram@.len() <= 65_535,
    ensures
        r == transport_checksum(datagram@, 6, source@, destination@, UDP),
{
    let datagram = pnet_packet::udp::UdpPacket::new(datagram).unwrap();
    pnet_packet::udp::ipv4_checksum(&datagram, &(*source).into(), &(*destination).into())
}

/// Calls `icmp::checksum` of pnet_packet: the checksum of the message.
#[verifier::external_body]
pub(crate) fn checksum_icmp(message: &[u8]) -> (r: u16)
    requires
        4 <= message@.len() <= 65_535,
    ensures
        r == icmp_checksum(message@),
{
    pnet_packet::icmp::checksum(&pnet_packet::icmp::IcmpPacket::new(message).unwrap())
}

/// A number that is written at an even place adds itself to the sum.
pub proof fn lemma_byte_sum(bytes: Seq<u8>, at: int, n: u16)
    requires
        0 <= at,
        at + 1 < bytes.len(),
        at % 2 == 0,
    ensures
        byte_sum(with_number(bytes, at, n)) == byte_sum(with_number(bytes, at, 0)) + n,
    decreases bytes.len(),
{
    let a = with_number(bytes, at, n);
    let z = with_number(bytes, at, 0);
    if at + 2 < bytes.len() {
        lemma_byte_sum(bytes.drop_last(), at, n);
        assert(a.drop_last() =~= with_number(bytes.drop_last(), at, n));
        assert(z.drop_last() =~= with_number(bytes.drop_last(), at, 0));
        assert(a.last() == z.last());
    } else {
        let h = bytes.take(at);
        assert(a.drop_last() =~= h.push((n / 256) as u8));
        assert(z.drop_last() =~= h.push(0u8));
        assert(h.push((n / 256) as u8).drop_last() =~= h);
        assert(h.push(0u8).drop_last() =~= h);
        assert(byte_sum(a.drop_last()) == byte_sum(h) + (n / 256) * 256);
        assert(byte_sum(z.drop_last()) == byte_sum(h));
        assert(byte_sum(a) == byte_sum(a.drop_last()) + n % 256);
        assert(byte_sum(z) == byte_sum(z.drop_last()));
    }
}

/// A sum and its checksum together are a multiple of 65535.
pub proof fn lemma_checksum_of(sum: nat)
    ensures
        (sum + checksum_of(sum)) % 65_535 == 0,
{
    if sum > 0 {
        let r = (sum - 1) % 65_535;
        let q = (sum - 1) / 65_535;
        assert(sum - 1 == 65_535 * q + r);
        assert(sum + checksum_of(sum) == 65_535 * (q + 1));
        assert((65_535 * (q + 1)) % 65_535 == 0);
    }
}

/// What was at the place of a number does not matter for what is there afterwards.
pub proof fn lemma_rewritten(bytes: Seq<u8>, at: int, first: u16, second: u16)
    requires
        0 <= at,
        at + 1 < bytes.len(),
    ensures
        with_number(with_number(bytes, at, first), at, second) == with_number(bytes, at, second),
{
    assert(with_number(with_number(bytes, at, first), at, second) =~= with_number(bytes, at, second));
}

} // verus!
