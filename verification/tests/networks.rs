use iroh_lan::auth::{check_handshake, our_handshake, HandshakeError, Received};
use iroh_lan::desktop::{connect_peer, ConnectArgs};
use iroh_lan::direct_message::DirectMessage;
use iroh_lan::id::EndpointId;
use iroh_lan::ipv4::Ipv4Addr;
use iroh_lan::keys::{KeyError, SecretKey};
use iroh_lan::mesh::Config;
use iroh_lan::network::{excluded_subnet, LoggingQlogFactory, NetworkActor, TunPlan};
use iroh_lan::node::MeshError;
use iroh_lan::overlay::{Builder as OverlayBuilder, GossipEvent, OverlayAction, OverlayActor};
use iroh_lan::router::{
    get_endpoint_id_from_ip, get_ip_from_endpoint_id, get_next_ip, get_peers, key_ip_assigned,
    key_ip_assigned_prefix, key_ip_candidate, key_ip_candidate_prefix, key_prefix_ip_candidates,
    read_all_ip_assignments, read_all_ip_candidates, waits_for_sync, write_ip_assignment, write_ip_candidate, Builder,
    IpAssignment, IpCandidate, RouterActor, RouterError, RouterIp, RouterStep, SyncFailed,
};
use iroh_lan::secrets::{document_topic, document_topic_text, network_secret, record_secret, topic_hash};
use iroh_lan::standalone::{after_device_packet, configure, to_device, DeviceAction};
use iroh_lan::tun::{Ipv4Pkg, TunEvent};
use iroh_lan::ui::{id_text, kick_peer, KickError, list_peers, my_info, NotConnected, Status};
use iroh_lan::wire::CodecError;
use sha2::Digest;

fn id(n: u8) -> EndpointId {
    EndpointId { bytes: [n; 32] }
}

fn key(n: u8) -> SecretKey {
    SecretKey { bytes: [n; 32] }
}

fn ip(c: u8, d: u8) -> Ipv4Addr {
    Ipv4Addr::new(172, 22, c, d)
}

#[test]
fn network_secret_is_a_digest_of_name_and_password() {
    let mut h = sha2::Sha512::new();
    h.update("iroh-lan-network-name-home");
    h.update("iroh-lan-network-secret-p\u{e4}ss");
    let expected: [u8; 64] = h.finalize().into();
    assert_eq!(network_secret("home", "p\u{e4}ss"), expected);
    assert_ne!(network_secret("home", "other"), expected);
}

#[test]
fn topics_are_digests_of_name_and_password() {
    let mut h = blake3::Hasher::new();
    h.update(b"iroh-lan-topic");
    h.update(b"lanparty-home-pw-secret");
    assert_eq!(&topic_hash("home", "pw"), h.finalize().as_bytes());
    assert_eq!(record_secret("home", "pw"), b"lanparty-home-pw-secret".to_vec());
    let mut h = sha2::Sha512::new();
    h.update("iroh-lan-topic");
    h.update("lanparty-home-pw-secret");
    let digest = h.finalize();
    assert_eq!(&document_topic("home", "pw")[..], &digest[..32]);
    assert_eq!(document_topic_text("home", "pw"), z32::encode(&digest[..32]));
    assert_eq!(document_topic_text("home", "pw").len(), 52);
}

#[test]
fn topic_text_has_a_character_for_every_five_bits() {
    let bytes = document_topic("home", "pw");
    let alphabet: Vec<char> = "ybndrfg8ejkmcpqxot1uwisza345h769".chars().collect();
    let mut expected = String::new();
    for n in 0..52usize {
        let at = 5 * n / 8;
        let next = if at + 1 < bytes.len() { bytes[at + 1] as usize } else { 0 };
        let quintet = (256 * bytes[at] as usize + next) / (1 << (11 - 5 * n % 8)) % 32;
        expected.push(alphabet[quintet]);
    }
    assert_eq!(document_topic_text("home", "pw"), expected);
}

#[test]
fn handshake_convinces_who_knows_the_secret() {
    let secret = network_secret("home", "pw");
    let sent = our_handshake(&secret, &id(1), &id(2));
    let mut h = sha2::Sha512::new();
    h.update(secret);
    h.update([1u8; 32]);
    h.update([2u8; 32]);
    let expected: [u8; 64] = h.finalize().into();
    assert_eq!(sent, expected);
    assert_eq!(check_handshake(&secret, &id(2), &id(1), Received::Bytes(sent)), Ok(()));
    // not the other way round, and not with another secret
    assert_eq!(
        check_handshake(&secret, &id(1), &id(2), Received::Bytes(sent)),
        Err(HandshakeError::Mismatch)
    );
    let other = network_secret("home", "wrong");
    assert_eq!(
        check_handshake(&other, &id(2), &id(1), Received::Bytes(sent)),
        Err(HandshakeError::Mismatch)
    );
    assert_eq!(check_handshake(&secret, &id(2), &id(1), Received::Failed), Err(HandshakeError::ReadFailed));
    assert_eq!(check_handshake(&secret, &id(2), &id(1), Received::TimedOut), Err(HandshakeError::TimedOut));
}

#[test]
fn qlog_names() {
    let f = LoggingQlogFactory::new("/tmp".to_string(), "iroh-lan".to_string());
    assert_eq!(f.file_name(1700000000123, "abcd", "client"), "iroh-lan-1700000000123-abcd-client.qlog");
    let f = LoggingQlogFactory::new("/tmp".to_string(), String::new());
    assert_eq!(f.file_name(0, "ab", "server"), "0-ab-server.qlog");
    assert_eq!(f.dir, "/tmp");
}

#[test]
fn subnet_is_excluded() {
    assert_eq!(excluded_subnet(172u16 << 8 | 30u16), (Ipv4Addr::new(172, 30, 0, 0), 16));
}

#[test]
fn device_follows_events() {
    let mut n = NetworkActor::new(id(1));
    let a = ip(0, 5);
    let b = ip(0, 6);
    assert_eq!(n.on_tun_event(TunEvent::Configure { ip: a }), TunPlan { close: false, create: Some(a) });
    assert!(!n.tun_is_up());
    n.on_tun_created(a);
    assert!(n.tun_is_up());
    assert_eq!(n.tun_ip(), Some(a));
    assert_eq!(
        n.on_tun_event(TunEvent::Reconfigure { from: a, to: b }),
        TunPlan { close: true, create: Some(b) }
    );
    assert!(!n.tun_is_up());
    n.on_tun_created(b);
    assert_eq!(n.on_tun_event(TunEvent::Teardown), TunPlan { close: true, create: None });
    assert_eq!(n.on_tun_event(TunEvent::Teardown), TunPlan { close: false, create: None });
}

#[test]
fn packets_go_to_the_owner_of_the_address() {
    let mut n = NetworkActor::new(id(1));
    let mut bytes = vec![0u8; 20];
    bytes[16..20].copy_from_slice(&[172, 22, 0, 7]);
    let pkg = Ipv4Pkg::new(&bytes).unwrap();
    assert_eq!(n.next_hop(&pkg, None), None);
    assert_eq!(n.next_hop(&pkg, Some(id(9))), Some(id(9)));
    assert!(n.on_mapping(id(2), Some(ip(0, 7))));
    assert_eq!(n.cached(ip(0, 7)), Some(id(2)));
    assert_eq!(n.cached(ip(7, 0)), None);
    assert_eq!(n.next_hop(&pkg, Some(id(9))), Some(id(2)));
    assert!(n.on_mapping(id(3), None));
    assert!(!n.on_mapping(id(1), Some(ip(0, 7))));
    assert_eq!(n.cached(ip(0, 7)), Some(id(2)));
    // never to oneself
    let n = NetworkActor::new(id(1));
    assert_eq!(n.next_hop(&pkg, Some(id(1))), None);
}

#[test]
fn packets_reach_the_device_when_it_is_up() {
    let mut n = NetworkActor::new(id(1));
    let pkg = Ipv4Pkg::new(&[3u8; 20]).unwrap();
    assert_eq!(n.to_device(DirectMessage::IpPacket(pkg.clone())), None);
    n.on_tun_created(ip(0, 1));
    assert_eq!(n.to_device(DirectMessage::IpPacket(pkg.clone())), Some(pkg.clone()));
    assert_eq!(n.to_device(DirectMessage::IDontLikeWarnings(vec![1])), None);
    assert_eq!(to_device(DirectMessage::IpPacket(pkg.clone())), Some(pkg));
    assert_eq!(to_device(DirectMessage::IDontLikeWarnings(vec![])), None);
}

fn overlay(n: u8) -> OverlayActor {
    let config = Config { settle_ticks: 1, min_viable_network: 1, ..Config::default() };
    OverlayBuilder::new().network_name("home").password("pw").config(config).build(&key(n), Some(1000))
}

#[test]
fn overlay_topic_follows_name_and_password() {
    let b = OverlayBuilder::new().network_name("home").password("pw");
    assert_eq!(b.topic(), topic_hash("home", "pw"));
}

#[test]
fn overlays_find_each_other() {
    let mut a = overlay(1);
    let mut b = overlay(2);
    let (ida, idb) = (a.get_endpoint_id(), b.get_endpoint_id());
    assert_eq!(ida, key(1).public());
    assert_eq!(a.tick_interval(), 500);
    assert!(a.has_room(2, 0));

    let out = a.on_gossip(GossipEvent::NeighborUp(idb), 1100);
    assert_eq!(out.actions, vec![OverlayAction::Mapping(idb, None)]);
    assert_eq!(out.frames.len(), 1);
    let (r, seen) = b.on_frame(ida, &out.frames[0].1, 1200);
    assert_eq!(r, Ok(()));
    assert_eq!(seen.actions, vec![OverlayAction::Mapping(ida, None)]);

    // a settles and takes an address
    let out = a.on_tick(1500);
    let my_ip = a.get_own_state().ip_claim.to_ipv4(172u16 << 8 | 30u16).unwrap();
    assert_eq!(out.actions, vec![OverlayAction::Tun(TunEvent::Configure { ip: my_ip })]);
    let (r, seen) = b.on_frame(ida, &out.frames.last().unwrap().1, 1600);
    assert_eq!(r, Ok(()));
    assert_eq!(seen.actions, vec![OverlayAction::Mapping(ida, Some(my_ip))]);
    assert_eq!(b.get_ip_from_endpoint_id(&ida), Some(my_ip));
    assert_eq!(b.get_endpoint_id_from_ip(my_ip), Some(ida));
    assert_eq!(b.get_ip_from_endpoint_id(&idb), None);
    assert_eq!(b.get_ip_from_endpoint_id(&id(9)), None);
    assert_eq!(b.get_endpoint_id_from_ip(Ipv4Addr::new(1, 2, 3, 4)), None);
    let mut peers = b.get_peers();
    assert!(peers.contains(&(ida, Some(my_ip))));
    assert!(peers.contains(&(idb, None)));
    peers.sort_by(|x, y| x.0.bytes.cmp(&y.0.bytes));
    assert_eq!(peers, b.get_peers());

    let (r, out) = b.on_frame(ida, &[9, 9], 1700);
    assert_eq!(r, Err(MeshError::Codec(CodecError::Custom)));
    assert!(out.frames.is_empty() && out.actions.is_empty());
    let out = b.on_gossip(GossipEvent::Other, 1700);
    assert!(out.frames.is_empty() && out.actions.is_empty());
    let out = b.on_gossip(GossipEvent::NeighborDown(ida), 1700);
    assert!(out.frames.is_empty() && out.actions.is_empty());
}

#[test]
fn keys_of_the_document() {
    assert_eq!(key_ip_assigned_prefix(), "/assigned/ip/");
    assert_eq!(key_ip_candidate_prefix(), "/candidates/ip/");
    assert_eq!(key_ip_assigned(ip(0, 3)), "/assigned/ip/172.22.0.3");
    assert_eq!(key_prefix_ip_candidates(ip(1, 2)), "/candidates/ip/172.22.1.2/");
    let expected = format!("/candidates/ip/172.22.1.2/{}", "07".repeat(32));
    assert_eq!(key_ip_candidate(ip(1, 2), id(7)), expected);
    assert!(expected.starts_with(&key_prefix_ip_candidates(ip(1, 2))));
}

#[test]
fn next_ip_is_one_above_the_highest() {
    let a = |c, d| IpAssignment { ip: ip(c, d), endpoint_id: id(1) };
    let c = |x, y| IpCandidate { ip: ip(x, y), endpoint_id: id(2) };
    assert_eq!(get_next_ip(&vec![], &vec![]), Ok(ip(0, 3)));
    assert_eq!(get_next_ip(&vec![a(0, 9)], &vec![]), Ok(ip(0, 10)));
    assert_eq!(get_next_ip(&vec![a(0, 1)], &vec![]), Ok(ip(0, 2)));
    assert_eq!(get_next_ip(&vec![a(0, 0)], &vec![]), Ok(ip(0, 1)));
    assert_eq!(get_next_ip(&vec![a(0, 30), a(0, 200)], &vec![c(0, 100)]), Ok(ip(0, 201)));
    assert_eq!(get_next_ip(&vec![a(0, 9)], &vec![c(0, 253)]), Ok(ip(0, 254)));
}

#[test]
fn no_ip_beyond_the_usable_hosts() {
    let a = |c, d| IpAssignment { ip: ip(c, d), endpoint_id: id(1) };
    let c = |x, y| IpCandidate { ip: ip(x, y), endpoint_id: id(2) };
    assert_eq!(get_next_ip(&vec![a(0, 254)], &vec![]), Err(RouterError::NoMoreIps));
    assert_eq!(get_next_ip(&vec![a(0, 9)], &vec![c(0, 255)]), Err(RouterError::NoMoreIps));
    assert_eq!(get_next_ip(&vec![a(3, 0), a(0, 200)], &vec![]), Err(RouterError::NoMoreIps));
    assert_eq!(get_next_ip(&vec![a(255, 255)], &vec![c(0, 1)]), Err(RouterError::NoMoreIps));
}

#[test]
fn values_of_the_document_round_trip() {
    let me = key(1).public();
    let (candidate, data) = write_ip_candidate(false, &vec![], ip(0, 3), me).unwrap();
    assert_eq!(candidate, IpCandidate { ip: ip(0, 3), endpoint_id: me });
    let mut expected = vec![172, 22, 0, 3];
    expected.extend_from_slice(&me.bytes);
    assert_eq!(data, expected);
    let values = vec![data.clone(), vec![1, 2, 3], data];
    assert_eq!(read_all_ip_candidates(&values), vec![candidate, candidate]);
    assert_eq!(
        read_all_ip_assignments(&values[..1].to_vec()),
        vec![IpAssignment { ip: ip(0, 3), endpoint_id: me }]
    );
}

#[test]
fn candidates_must_be_uncontested() {
    let me = key(1).public();
    let mine = IpCandidate { ip: ip(0, 3), endpoint_id: me };
    let theirs = IpCandidate { ip: ip(0, 3), endpoint_id: id(2) };
    assert!(write_ip_candidate(false, &vec![mine], ip(0, 3), me).is_ok());
    assert_eq!(
        write_ip_candidate(false, &vec![mine, theirs], ip(0, 3), me),
        Err(RouterError::CandidateExists)
    );
    assert_eq!(write_ip_candidate(true, &vec![], ip(0, 3), me), Err(RouterError::AlreadyAssigned));
}

#[test]
fn lowest_lot_gets_the_address() {
    let lot = |n: u8| {
        let mut h = sha2::Sha256::new();
        h.update(key(n).public().bytes);
        h.update("172.22.0.3");
        h.finalize().to_vec()
    };
    let c = |n: u8| IpCandidate { ip: ip(0, 3), endpoint_id: key(n).public() };
    let (first, second) = if lot(1) < lot(2) { (1, 2) } else { (2, 1) };
    let all = vec![c(2), c(1)];
    let swapped = vec![c(1), c(2)];
    for list in [&all, &swapped] {
        let data = write_ip_assignment(false, list, ip(0, 3), key(first).public()).unwrap();
        assert_eq!(&data[4..], &key(first).public().bytes);
        assert_eq!(
            write_ip_assignment(false, list, ip(0, 3), key(second).public()),
            Err(RouterError::NotChosen)
        );
    }
    assert_eq!(write_ip_assignment(true, &all, ip(0, 3), id(1)), Err(RouterError::AlreadyAssigned));
    assert_eq!(write_ip_assignment(false, &vec![], ip(0, 3), id(1)), Err(RouterError::NoCandidates));
}

#[test]
fn lookups_in_the_document() {
    let list = vec![
        IpAssignment { ip: ip(0, 3), endpoint_id: id(1) },
        IpAssignment { ip: ip(0, 4), endpoint_id: id(2) },
        IpAssignment { ip: ip(0, 3), endpoint_id: id(3) },
    ];
    assert_eq!(get_endpoint_id_from_ip(&list, ip(0, 3)), Ok(id(1)));
    assert_eq!(get_endpoint_id_from_ip(&list, ip(0, 9)), Err(RouterError::UnknownIp));
    assert_eq!(get_ip_from_endpoint_id(&list, id(2)), Ok(ip(0, 4)));
    assert_eq!(get_ip_from_endpoint_id(&list, id(9)), Err(RouterError::UnknownEndpoint));
    let candidates = vec![
        IpCandidate { ip: ip(0, 5), endpoint_id: id(2) },
        IpCandidate { ip: ip(0, 5), endpoint_id: id(5) },
        IpCandidate { ip: ip(0, 5), endpoint_id: id(0) },
    ];
    assert_eq!(
        get_peers(&list, &candidates, id(1)),
        vec![(id(0), None), (id(2), Some(ip(0, 4))), (id(3), Some(ip(0, 3))), (id(5), None)]
    );
}

#[test]
fn router_moves_towards_an_address() {
    let mut r = RouterActor::new(id(1));
    assert_eq!(r.get_node_id(), id(1));
    assert_eq!(r.advance_ip_state(0), RouterStep::Acquire);
    let c = IpCandidate { ip: ip(0, 3), endpoint_id: id(1) };
    r.acquired(c, 1000);
    assert_eq!(r.get_ip_state(), RouterIp::AquiringIp(c, 1000));
    assert_eq!(r.advance_ip_state(6000), RouterStep::Wait);
    assert_eq!(r.advance_ip_state(0), RouterStep::Wait);
    assert_eq!(r.advance_ip_state(6001), RouterStep::Assign(c));
    r.assigned(false);
    assert_eq!(r.get_ip_state(), RouterIp::NoIp);
    r.acquired(c, 7000);
    r.assigned(true);
    assert_eq!(r.get_ip_state(), RouterIp::AssignedIp(ip(0, 3)));
    assert_eq!(r.advance_ip_state(99_999), RouterStep::Done(ip(0, 3)));
    r.assigned(false);
    assert_eq!(r.get_ip_state(), RouterIp::AssignedIp(ip(0, 3)));
}

#[test]
fn router_settings() {
    let b = Builder::new().entry_name("home").password("pw").secret_key(key(1));
    assert!(b.waits_for_others());
    assert_eq!(b.topic(), document_topic("home", "pw"));
    assert_eq!(b.topic_text(), document_topic_text("home", "pw"));
    assert_eq!(b.check(false, false, false), Err(RouterError::EndpointMissing));
    assert_eq!(b.check(true, false, false), Err(RouterError::GossipMissing));
    assert_eq!(b.check(true, true, false), Err(RouterError::DocsMissing));
    assert_eq!(b.check(true, true, true), Ok(()));
    assert!(!b.creator_mode().waits_for_others());
    let b = configure("home", "pw", true, key(2));
    assert!(!b.waits_for_others());
    assert_eq!(b.topic(), document_topic("home", "pw"));
    assert!(configure("home", "pw", false, key(2)).waits_for_others());
    assert_eq!(after_device_packet(false, false), DeviceAction::Drop);
    assert_eq!(after_device_packet(true, true), DeviceAction::Nothing);
    assert_eq!(after_device_packet(true, false), DeviceAction::Reconnect);
}

#[test]
fn interface_shows_the_node() {
    let me = my_info(&id(0x0F), Some(ip(0, 3)), Some(id(0x0F)));
    assert_eq!(me.node_id, "0f".repeat(32));
    assert_eq!(me.ip, Some("172.22.0.3".to_string()));
    assert!(me.leader);
    let me = my_info(&id(1), None, Some(id(2)));
    assert_eq!(me.ip, None);
    assert!(!me.leader);
    assert!(!my_info(&id(1), None, None).leader);
    let mut mixed = [0u8; 32];
    mixed[0] = 0xA5;
    let text = id_text(&EndpointId { bytes: mixed });
    assert!(text.starts_with("a500"));
    assert_eq!(text.len(), 64);
    let real = key(1).public();
    assert_eq!(id_text(&real), iroh::PublicKey::from_bytes(&real.bytes).unwrap().to_string());
}

#[test]
fn interface_lists_peers_by_the_text_of_their_address() {
    let peers = [(id(1), ip(0, 9)), (id(2), ip(0, 10)), (id(3), ip(0, 1))];
    let list = list_peers(Some(&peers)).unwrap();
    let ips: Vec<&str> = list.iter().map(|p| p.ip.as_str()).collect();
    assert_eq!(ips, vec!["172.22.0.1", "172.22.0.10", "172.22.0.9"]);
    assert!(list.iter().all(|p| p.status == Status::Active));
    assert_eq!(list[0].node_id, "03".repeat(32));
    assert_eq!(list_peers(None), Err(NotConnected));
    assert_eq!(NotConnected.to_text(), "not_connected");
}

#[test]
fn desktop_connects() {
    let p = connect_peer(ConnectArgs { target: "somewhere".to_string() });
    assert_eq!(p.id, "abc123");
    assert_eq!(p.addr, "somewhere");
    assert!(p.reachable);
}

#[test]
fn shown_peers_can_be_kicked() {
    let peer = key(5).public();
    assert_eq!(kick_peer(true, &id_text(&peer)), Ok(peer));
    assert_eq!(kick_peer(false, &id_text(&peer)), Err(KickError::NotConnected));
    assert_eq!(KickError::NotConnected.to_text(), "not_connected");
    for (text, e) in [
        ("x".repeat(64), KeyError::BadHex),
        ("?".repeat(52), KeyError::BadBase32),
        ("abc".to_string(), KeyError::BadLength),
    ] {
        assert_eq!(kick_peer(true, &text), Err(KickError::Identity(e)));
        let expected = text.parse::<iroh::PublicKey>().unwrap_err().to_string();
        assert_eq!(KickError::Identity(e).to_text(), expected);
    }
    let mut bad = [0u8; 32];
    while iroh::PublicKey::from_bytes(&bad).is_ok() {
        bad[0] += 1;
    }
    let text = id_text(&EndpointId { bytes: bad });
    assert_eq!(kick_peer(true, &text), Err(KickError::Identity(KeyError::BadKey)));
    assert_eq!(KeyError::BadKey.to_text(), text.parse::<iroh::PublicKey>().unwrap_err().to_string());
}

#[test]
fn router_waits_for_a_peer_of_the_document() {
    assert!(waits_for_sync(Err(SyncFailed)));
    assert!(waits_for_sync(Ok(None)));
    assert!(waits_for_sync(Ok(Some(0))));
    assert!(!waits_for_sync(Ok(Some(1))));
}
