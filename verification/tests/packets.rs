use iroh_lan::direct_message::{read_datagram, to_datagram, DirectMessage, ReadError};
use iroh_lan::ipv4::{build_ip, Ipv4Addr};
use iroh_lan::local_networking::{decide, device_ip, write_to_tun, LocalAction};
use iroh_lan::tun::{accepts_from_peer, ipv4_ports, process_outgoing, InvalidPacket, Ipv4Pkg};

/// A packet from 172.30.0.5 to 172.30.0.9 with wrong checksums.
fn packet(protocol: u8, flags_and_offset: u16, payload: &[u8]) -> Vec<u8> {
    let total = (20 + payload.len()) as u16;
    let mut p = vec![0x45, 0, 0, 0, 0x12, 0x34, 0, 0, 64, protocol, 0xAA, 0xBB, 172, 30, 0, 5, 172, 30, 0, 9];
    p[2..4].copy_from_slice(&total.to_be_bytes());
    p[6..8].copy_from_slice(&flags_and_offset.to_be_bytes());
    p.extend_from_slice(payload);
    p
}

fn ones_complement(data: &[u8]) -> u16 {
    let mut sum: u32 = 0;
    for c in data.chunks(2) {
        let hi = c[0] as u32;
        let lo = if c.len() > 1 { c[1] as u32 } else { 0 };
        sum += hi << 8 | lo;
    }
    while sum >> 16 != 0 {
        sum = (sum & 0xFFFF) + (sum >> 16);
    }
    !(sum as u16)
}

fn pseudo(protocol: u8, segment: &[u8]) -> Vec<u8> {
    let mut d = vec![172, 30, 0, 5, 172, 30, 0, 9, 0, protocol];
    d.extend_from_slice(&(segment.len() as u16).to_be_bytes());
    d.extend_from_slice(segment);
    d
}

#[test]
fn build_ip_joins_prefix_and_host() {
    assert_eq!(build_ip(172u16 << 8 | 30u16, 0x0105).octets(), [172, 30, 1, 5]);
    assert_eq!(build_ip(0xFFFF, 0xFFFF).to_text(), "255.255.255.255");
    assert_eq!(build_ip(0, 0).to_text(), "0.0.0.0");
    assert_eq!(Ipv4Addr::new(10, 0, 100, 9).to_text(), "10.0.100.9");
}

#[test]
fn short_bytes_are_no_packet() {
    assert_eq!(Ipv4Pkg::new(&[0u8; 19]), Err(InvalidPacket));
    let pkg = Ipv4Pkg::new(&[7u8; 20]).unwrap();
    assert_eq!(pkg.as_slice(), &[7u8; 20]);
    assert!(Ipv4Pkg::new(&[]).is_err());
}

#[test]
fn fields_of_a_packet() {
    let p = packet(17, 0x2003, &[1, 2, 3, 4, 5, 6, 7, 8, 9]);
    let h = Ipv4Pkg::new(&p).unwrap().to_ipv4_packet().unwrap();
    assert_eq!(h.source, Ipv4Addr::new(172, 30, 0, 5));
    assert_eq!(h.destination, Ipv4Addr::new(172, 30, 0, 9));
    assert_eq!(h.protocol, 17);
    assert_eq!(h.flags, 1);
    assert_eq!(h.fragment_offset, 3);
    assert_eq!(h.payload, vec![1, 2, 3, 4, 5, 6, 7, 8, 9]);
}

#[test]
fn payload_follows_the_stated_lengths() {
    // 24 bytes of header
    let mut p = packet(17, 0, &[0, 0, 0, 0, 1, 2, 3]);
    p[0] = 0x46;
    assert_eq!(Ipv4Pkg::new(&p).unwrap().to_ipv4_packet().unwrap().payload, vec![1, 2, 3]);
    // a header length below the least one
    let mut p = packet(17, 0, &[1, 2, 3]);
    p[0] = 0x44;
    p[2..4].copy_from_slice(&18u16.to_be_bytes());
    assert_eq!(Ipv4Pkg::new(&p).unwrap().to_ipv4_packet().unwrap().payload, vec![1, 2]);
    // a total length below the header length
    let mut p = packet(17, 0, &[1, 2, 3]);
    p[2..4].copy_from_slice(&10u16.to_be_bytes());
    assert!(Ipv4Pkg::new(&p).unwrap().to_ipv4_packet().unwrap().payload.is_empty());
    // a total length beyond the bytes
    let mut p = packet(17, 0, &[1, 2, 3]);
    p[2..4].copy_from_slice(&1000u16.to_be_bytes());
    assert_eq!(Ipv4Pkg::new(&p).unwrap().to_ipv4_packet().unwrap().payload, vec![1, 2, 3]);
    // a header beyond the bytes
    let mut p = packet(17, 0, &[]);
    p[0] = 0x4F;
    assert!(Ipv4Pkg::new(&p).unwrap().to_ipv4_packet().unwrap().payload.is_empty());
}

#[test]
fn header_checksum_of_a_known_packet() {
    let mut p = vec![
        0x45, 0x00, 0x00, 0x73, 0x00, 0x00, 0x40, 0x00, 0x40, 0x11, 0x00, 0x00, 0xc0, 0xa8, 0x00, 0x01, 0xc0, 0xa8,
        0x00, 0xc7,
    ];
    let out = process_outgoing(&p, &[]).unwrap();
    assert_eq!(&out.as_slice()[10..12], &[0xb8, 0x61]);
    p[10] = 0xb8;
    p[11] = 0x61;
    assert_eq!(out.as_slice(), &p[..]);
}

#[test]
fn icmp_checksum_is_set() {
    let p = packet(1, 0, &[8, 0, 0xFF, 0xFF, 0, 1, 0, 1]);
    let out = process_outgoing(&p, &[]).unwrap();
    assert_eq!(&out.as_slice()[22..24], &[0xF7, 0xFD]);
    assert_eq!(ones_complement(&out.as_slice()[..20]), 0);
    assert_eq!(ones_complement(&out.as_slice()[20..]), 0);
    assert_eq!(out.as_slice().len(), p.len());
}

#[test]
fn tcp_checksum_is_set() {
    let mut segment = vec![0u8; 20];
    segment[0..2].copy_from_slice(&1234u16.to_be_bytes());
    segment[2..4].copy_from_slice(&80u16.to_be_bytes());
    segment[12] = 0x50;
    segment.extend_from_slice(b"hello");
    let out = process_outgoing(&packet(6, 0x4000, &segment), &[1234]).unwrap();
    assert_eq!(ones_complement(&pseudo(6, &out.as_slice()[20..])), 0);
    // only the checksum differs
    let mut expected = segment.clone();
    expected[16..18].copy_from_slice(&out.as_slice()[36..38]);
    assert_eq!(&out.as_slice()[20..], &expected[..]);
}

#[test]
fn udp_checksum_is_set() {
    let datagram = vec![0x10, 0x20, 0x30, 0x40, 0, 11, 0, 0, 1, 2, 3];
    let out = process_outgoing(&packet(17, 0, &datagram), &[]).unwrap();
    assert_eq!(ones_complement(&pseudo(17, &out.as_slice()[20..])), 0);
}

#[test]
fn preparing_twice_is_preparing_once() {
    let datagram = vec![0x10, 0x20, 0x30, 0x40, 0, 11, 0, 0, 1, 2, 3];
    let once = process_outgoing(&packet(17, 0, &datagram), &[]).unwrap();
    let twice = process_outgoing(once.as_slice(), &[]).unwrap();
    assert_eq!(once, twice);
}

#[test]
fn fragments_keep_their_payload() {
    let datagram = vec![0x10, 0x20, 0x30, 0x40, 0, 11, 9, 9, 1, 2, 3];
    for bits in [0x2000u16, 0x0001, 0x2001] {
        let p = packet(17, bits, &datagram);
        let out = process_outgoing(&p, &[0x1020]).unwrap();
        assert_eq!(&out.as_slice()[20..], &datagram[..]);
        assert_eq!(ones_complement(&out.as_slice()[..20]), 0);
    }
}

#[test]
fn payloads_too_short_for_a_checksum_stay() {
    for (protocol, len) in [(6u8, 19usize), (17, 7), (1, 3)] {
        let payload = vec![0x77u8; len];
        let out = process_outgoing(&packet(protocol, 0, &payload), &[0x7777]).unwrap();
        assert_eq!(&out.as_slice()[20..], &payload[..]);
    }
}

#[test]
fn own_sockets_are_filtered() {
    let datagram = vec![0x10, 0x20, 0x30, 0x40, 0, 8, 0, 0];
    assert!(process_outgoing(&packet(17, 0, &datagram), &[1, 0x1020]).is_none());
    assert!(process_outgoing(&packet(17, 0, &datagram), &[0x3040]).is_some());
    // only UDP
    let mut segment = vec![0u8; 20];
    segment[0] = 0x10;
    segment[1] = 0x20;
    assert!(process_outgoing(&packet(6, 0, &segment), &[0x1020]).is_some());
}

#[test]
fn broadcast_and_other_protocols_do_not_leave() {
    let mut p = packet(17, 0, &[0; 8]);
    p[18] = 255;
    p[19] = 255;
    assert!(process_outgoing(&p, &[]).is_none());
    p[18] = 254;
    assert!(process_outgoing(&p, &[]).is_some());
    assert!(process_outgoing(&packet(2, 0, &[0; 8]), &[]).is_none());
    assert!(process_outgoing(&[0x45; 19], &[]).is_none());
    assert!(process_outgoing(&[], &[]).is_none());
}

#[test]
fn peers_may_only_send_to_us() {
    let pkg = Ipv4Pkg::new(&packet(17, 0, &[])).unwrap();
    assert!(accepts_from_peer(&pkg, Ipv4Addr::new(172, 30, 0, 9)));
    assert!(!accepts_from_peer(&pkg, Ipv4Addr::new(172, 30, 0, 8)));
    assert!(!accepts_from_peer(&pkg, Ipv4Addr::new(172, 30, 0, 5)));
    let mut p = packet(17, 0, &[]);
    p[15] = 9;
    let own = Ipv4Pkg::new(&p).unwrap();
    assert!(!accepts_from_peer(&own, Ipv4Addr::new(172, 30, 0, 9)));
}

#[test]
fn what_leaves_is_accepted_by_its_destination() {
    let out = process_outgoing(&packet(1, 0, &[8, 0, 0, 0]), &[]).unwrap();
    assert!(accepts_from_peer(&out, Ipv4Addr::new(172, 30, 0, 9)));
    assert!(!accepts_from_peer(&out, Ipv4Addr::new(172, 30, 0, 7)));
}

#[test]
fn ports_of_ipv4_sockets() {
    assert_eq!(ipv4_ports(&[(true, 1), (false, 2), (true, 3)]), vec![1, 3]);
    assert!(ipv4_ports(&[]).is_empty());
}

#[test]
fn local_device_decisions() {
    let ip = device_ip((0, 9));
    assert_eq!(ip, Ipv4Addr::new(172, 22, 0, 9));
    let mut p = packet(6, 0, &[]);
    p[17] = 22;
    assert_eq!(decide(&p, ip), LocalAction::Inject);
    assert_eq!(decide(&p, device_ip((0, 8))), LocalAction::Forward);
    p[9] = 50;
    assert_eq!(decide(&p, ip), LocalAction::Ignore);
    assert_eq!(decide(&p[..10], ip), LocalAction::Ignore);
    let pkg = Ipv4Pkg::new(&p).unwrap();
    assert_eq!(write_to_tun(&pkg), Ok(p));
}

#[test]
fn kinds_and_lengths_of_messages() {
    let p = packet(17, 0, &[1, 2]);
    let ip = DirectMessage::IpPacket(Ipv4Pkg::new(&p).unwrap());
    assert_eq!(ip.kind_name(), "ip");
    assert_eq!(ip.payload_len(), 22);
    let alive = DirectMessage::IDontLikeWarnings(vec![1, 2, 3]);
    assert_eq!(alive.kind_name(), "keepalive");
    assert_eq!(alive.payload_len(), 0);
    assert_eq!(alive.clone(), alive);
}

#[test]
fn datagrams_carry_messages() {
    let p = packet(17, 0, &[1, 2]);
    let ip = DirectMessage::IpPacket(Ipv4Pkg::new(&p).unwrap());
    let d = to_datagram(&ip);
    let mut expected = vec![0x43, 0, 22];
    expected.extend_from_slice(&p);
    assert_eq!(d, expected);
    assert_eq!(read_datagram(&d), Ok((ip, 25)));
    let alive = DirectMessage::IDontLikeWarnings(vec![9]);
    let d = to_datagram(&alive);
    assert_eq!(d, vec![0x43, 1, 1, 9]);
    assert_eq!(read_datagram(&d), Ok((alive, 4)));
    let long = DirectMessage::IDontLikeWarnings(vec![7; 300]);
    let d = to_datagram(&long);
    assert_eq!(&d[..5], &[0x43, 1, 0xAC, 0x02, 7]);
    assert_eq!(read_datagram(&d), Ok((long, 304)));
}

#[test]
fn datagrams_without_a_message() {
    let e = read_datagram(&[]).unwrap_err();
    assert_eq!(e, ReadError::Multiplex("not meant for us: len=0 prefix=None".to_string()));
    assert_eq!(e.to_text(), "Read error: not meant for us: len=0 prefix=None");
    let e = read_datagram(&[0x42, 1, 2]).unwrap_err();
    assert_eq!(e, ReadError::Multiplex("not meant for us: len=3 prefix=Some(66)".to_string()));
    let e = read_datagram(&[0x43]).unwrap_err();
    assert_eq!(e, ReadError::Multiplex("not meant for us: len=1 prefix=Some(67)".to_string()));
    let e = read_datagram(&[0x43, 7, 7]).unwrap_err();
    let text = format!("failed to deserialize message: {}", postcard::Error::SerdeDeCustom);
    assert_eq!(e.to_text(), format!("Read error: {text}"));
    assert_eq!(e, ReadError::Deserialize(text));
    let e = read_datagram(&[0x43, 0, 5]).unwrap_err();
    let text = format!("failed to deserialize message: {}", postcard::Error::DeserializeUnexpectedEnd);
    assert_eq!(e, ReadError::Deserialize(text));
    let e = read_datagram(&[0x43, 255, 255, 255, 255, 255, 1]).unwrap_err();
    let text = format!("failed to deserialize message: {}", postcard::Error::DeserializeBadVarint);
    assert_eq!(e, ReadError::Deserialize(text));
    let e = ReadError::Datagram("gone".to_string());
    assert_eq!(e.to_text(), "Read error: gone");
}
