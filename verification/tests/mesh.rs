use iroh_lan::claims::{claim_priority, loses_against, rank_claims};
use std::cmp::Ordering;
use iroh_lan::id::EndpointId;
use iroh_lan::keys::SecretKey;
use iroh_lan::mesh::{Config, MeshEvent, TunDirective};
use iroh_lan::node::{Claim, IpClaim, MeshError, NodeState, Ports, Version};
use iroh_lan::state::{PersistedState, State};
use iroh_lan::wire::CodecError;

fn key(n: u8) -> SecretKey {
    SecretKey { bytes: [n; 32] }
}

fn quick() -> Config {
    Config { settle_ticks: 1, min_viable_network: 1, ..Config::default() }
}

fn node(n: u8, now: u64) -> State {
    State::new(&key(n), quick(), Some(now))
}

fn claiming(n: u8, ip: u16, k: u64, at: u64, now: u64) -> State {
    let persisted = PersistedState {
        claim: Claim { ip, k, claimed_at_ms: at },
        exposed_ports: Ports::Any,
    };
    State::resume(&key(n), quick(), persisted, now)
}

/// The frame that `from` has for `to`.
fn frame(from: &mut State, to: &EndpointId, now: u64) -> Vec<u8> {
    from.on_peer_connected(*to, now);
    let mut out = from.drain_outbound();
    let (id, bytes) = out.pop().unwrap();
    assert_eq!(id, *to);
    bytes
}

#[test]
fn default_config_values() {
    let c = Config::default();
    assert_eq!(c.tick_interval, 500);
    assert_eq!(c.net_prefix, 172u16 << 8 | 30u16);
    assert_eq!(c.disconnect_timeout, 60_000);
    assert_eq!(c.settle_ticks, 20);
    assert_eq!(c.simultaneous_range, 30_000);
    assert_eq!(c.min_viable_network, 2);
}

#[test]
fn version_never_goes_backwards() {
    let v = Version { wall_ms: 100, counter: 7 };
    assert_eq!(v.bump(101), Version { wall_ms: 101, counter: 0 });
    assert_eq!(v.bump(100), Version { wall_ms: 100, counter: 8 });
    assert_eq!(v.bump(5), Version { wall_ms: 100, counter: 8 });
    assert!(v.is_older(&v.bump(5)));
    assert!(!v.is_older(&v));
    assert!(v < v.bump(5));
}

#[test]
fn ip_claim_gives_claim_and_address() {
    let c = Claim { ip: 0x0102, k: 3, claimed_at_ms: 4 };
    let claimed = IpClaim::Claimed(c);
    assert_eq!(claimed.claim(), Some(&c));
    assert_eq!(claimed.ip(), Some(0x0102));
    let ip = claimed.to_ipv4(172u16 << 8 | 30u16).unwrap();
    assert_eq!(ip.octets(), [172, 30, 1, 2]);
    assert_eq!(ip.to_text(), "172.30.1.2");
    assert_eq!(IpClaim::Unclaimed.claim(), None);
    assert_eq!(IpClaim::Unclaimed.ip(), None);
    assert_eq!(IpClaim::Unclaimed.to_ipv4(1), None);
}

#[test]
fn ports_compare_by_value() {
    assert!(Ports::Any == Ports::Any);
    assert!(Ports::List(vec![1, 2]) == Ports::List(vec![1, 2]));
    assert!(Ports::List(vec![1, 2]) != Ports::List(vec![2, 1]));
    assert!(Ports::List(vec![]) != Ports::Any);
    assert!(Ports::List(vec![5]).clone() == Ports::List(vec![5]));
}

#[test]
fn new_node_starts_unclaimed() {
    let mut s = node(1, 1000);
    assert_eq!(*s.endpoint_id(), key(1).public());
    let own = s.own();
    assert_eq!(own.endpoint_id, key(1).public());
    assert_eq!(own.version, Version { wall_ms: 1000, counter: 1 });
    assert_eq!(own.ip_claim, IpClaim::Unclaimed);
    assert!(own.exposed_ports == Ports::Any);
    assert_eq!(s.get_node_states().len(), 1);
    assert!(s.drain_events().is_empty());
    assert!(s.drain_outbound().is_empty());
}

#[test]
fn new_node_without_time_asks_the_clock() {
    let s = State::new(&key(1), Config::default(), None);
    // any time after the start of 2020, in milliseconds
    assert!(s.own().version.wall_ms > 1_577_836_800_000);
}

#[test]
fn identity_is_the_public_key() {
    let id = key(9).public();
    let expected = iroh::SecretKey::from_bytes(&[9; 32]).public();
    assert_eq!(&id.bytes, expected.as_bytes());
    assert_ne!(id.bytes, [9; 32]);
}

#[test]
fn generated_keys_differ() {
    assert_ne!(SecretKey::generate().bytes, SecretKey::generate().bytes);
}

#[test]
fn candidate_is_the_digest_within_the_subnet() {
    for k in 0..50u64 {
        let id = key(3).public();
        let mut h = blake3::Hasher::new();
        h.update(&id.bytes);
        h.update(&k.to_le_bytes());
        let d = h.finalize();
        let raw = u16::from_le_bytes([d.as_bytes()[0], d.as_bytes()[1]]);
        let c = State::candidate(&id, k);
        assert_eq!(c, 2 + raw % 65_533);
        assert!((2..=65_534).contains(&c));
    }
}

#[test]
fn frame_round_trip_tells_everything() {
    let mut a = claiming(1, 77, 2, 500, 1000);
    let mut b = node(2, 1000);
    let bytes = frame(&mut a, &key(2).public(), 1500);
    assert_eq!(bytes, a.sync_frame());
    assert_eq!(b.on_frame(key(1).public(), &bytes, 2000), Ok(()));
    let known: Vec<_> = b.get_node_states().into_iter().filter(|n| n.endpoint_id == key(1).public()).collect();
    assert_eq!(known.len(), 1);
    assert_eq!(known[0], a.own());
    let events = b.drain_events();
    assert_eq!(events.len(), 1);
    assert_eq!(events[0], MeshEvent::PeerChanged { peer: key(1).public(), state: a.own().clone() });
}

#[test]
fn merging_twice_changes_nothing() {
    let mut a = node(1, 1000);
    let mut b = node(2, 1000);
    let bytes = frame(&mut a, &key(2).public(), 1500);
    assert_eq!(b.on_frame(key(1).public(), &bytes, 2000), Ok(()));
    let _ = b.drain_events();
    assert_eq!(b.on_frame(key(1).public(), &bytes, 2100), Ok(()));
    assert!(b.drain_events().is_empty());
    assert_eq!(b.get_node_states().len(), 2);
}

#[test]
fn older_announcements_do_not_replace_newer_ones() {
    let mut a = node(1, 1000);
    let mut b = node(2, 1000);
    let old = frame(&mut a, &key(2).public(), 1500);
    a.set_exposed_ports(Ports::List(vec![80]), 5000);
    let new = a.sync_frame();
    assert_eq!(b.on_frame(key(1).public(), &new, 6000), Ok(()));
    assert_eq!(b.on_frame(key(1).public(), &old, 6000), Ok(()));
    let n = b.get_node_states().into_iter().find(|n| n.endpoint_id == key(1).public()).unwrap();
    assert_eq!(n.version.wall_ms, 5000);
    assert!(n.exposed_ports == Ports::List(vec![80]));
}

#[test]
fn merge_order_does_not_matter() {
    let mut a = node(1, 1000);
    let mut c = node(3, 1000);
    let fa = frame(&mut a, &key(2).public(), 1500);
    let fc = frame(&mut c, &key(2).public(), 1500);
    let mut x = node(2, 1000);
    let mut y = node(2, 1000);
    x.on_frame(key(1).public(), &fa, 2000).unwrap();
    x.on_frame(key(3).public(), &fc, 2000).unwrap();
    y.on_frame(key(3).public(), &fc, 2000).unwrap();
    y.on_frame(key(1).public(), &fa, 2000).unwrap();
    assert_eq!(x.get_node_states(), y.get_node_states());
    assert_eq!(x.sync_frame(), y.sync_frame());
}

#[test]
fn garbage_is_a_codec_error() {
    let mut b = node(2, 1000);
    let end = Err(MeshError::Codec(CodecError::UnexpectedEnd));
    let custom = Err(MeshError::Codec(CodecError::Custom));
    assert_eq!(b.on_frame(key(1).public(), &[], 2000), end);
    assert_eq!(b.on_frame(key(1).public(), &[0, 5, 1, 2], 2000), end);
    let endless = [255, 255, 255, 255, 255, 1];
    assert_eq!(b.on_frame(key(1).public(), &endless, 2000), Err(MeshError::Codec(CodecError::BadVarint)));
    // the kind is judged before the rest is read
    assert_eq!(b.on_frame(key(1).public(), &[1, 5, 1, 2], 2000), custom);
    // an unknown kind of frame
    let mut a = node(1, 1000);
    let mut bytes = frame(&mut a, &key(2).public(), 1500);
    bytes[0] = 1;
    assert_eq!(b.on_frame(key(1).public(), &bytes, 2000), custom);
    assert_eq!(b.get_node_states().len(), 1);
}

#[test]
fn author_that_is_no_key_is_a_codec_error() {
    let mut a = node(1, 1000);
    let mut b = node(2, 1000);
    let mut bytes = frame(&mut a, &key(2).public(), 1500);
    let mut bad = [0u8; 32];
    for n in 0..=255u8 {
        bad[0] = n;
        if iroh::PublicKey::from_bytes(&bad).is_err() {
            break;
        }
    }
    assert!(iroh::PublicKey::from_bytes(&bad).is_err());
    // kind, number of announcements, author
    assert_eq!(&bytes[2..34], &key(1).public().bytes);
    bytes[2..34].copy_from_slice(&bad);
    let custom = Err(MeshError::Codec(CodecError::Custom));
    assert_eq!(b.on_frame(key(1).public(), &bytes, 2000), custom);
    // the author is judged before the rest is read
    assert_eq!(b.on_frame(key(1).public(), &bytes[..40], 2000), custom);
    assert_eq!(b.on_frame(key(1).public(), &bytes[..20], 2000), Err(MeshError::Codec(CodecError::UnexpectedEnd)));
}

#[test]
fn forged_announcement_is_refused() {
    let mut a = node(1, 1000);
    let mut b = node(2, 1000);
    let mut bytes = frame(&mut a, &key(2).public(), 1500);
    let last = bytes.len() - 40;
    bytes[last] ^= 1;
    assert_eq!(b.on_frame(key(1).public(), &bytes, 2000), Err(MeshError::BadSignature));
    assert_eq!(b.get_node_states().len(), 1);
    assert!(b.drain_events().is_empty());
}

#[test]
fn frame_of_oneself_changes_nothing() {
    let mut a = node(1, 1000);
    let mut twin = claiming(1, 9, 0, 1000, 9000);
    let bytes = frame(&mut twin, &key(1).public(), 9000);
    assert_eq!(a.on_frame(key(1).public(), &bytes, 9000), Ok(()));
    assert_eq!(a.own().ip_claim, IpClaim::Unclaimed);
    assert_eq!(a.own().version, Version { wall_ms: 1000, counter: 1 });
}

#[test]
fn claims_once_the_network_is_settled() {
    let mut a = node(1, 1000);
    // nobody there: no claim
    a.tick(1500);
    a.tick(2000);
    assert_eq!(a.own().ip_claim, IpClaim::Unclaimed);
    a.on_peer_connected(key(2).public(), 2100);
    let _ = a.drain_outbound();
    a.tick(2500);
    let ip = State::candidate(&key(1).public(), 0);
    assert_eq!(a.own().ip_claim, IpClaim::Claimed(Claim { ip, k: 0, claimed_at_ms: 2500 }));
    assert_eq!(a.drain_events(), vec![MeshEvent::Tun(TunDirective::Configure { ip })]);
    // the claim stays
    a.tick(3000);
    assert_eq!(a.own().ip_claim, IpClaim::Claimed(Claim { ip, k: 0, claimed_at_ms: 2500 }));
    assert!(a.drain_events().is_empty());
}

#[test]
fn waits_for_quiet_ticks() {
    let mut a = State::new(&key(1), Config { settle_ticks: 3, min_viable_network: 1, ..Config::default() }, Some(0));
    a.on_peer_connected(key(2).public(), 10);
    a.tick(100);
    a.tick(200);
    assert_eq!(a.own().ip_claim, IpClaim::Unclaimed);
    a.tick(300);
    assert!(a.own().ip_claim.ip().is_some());
}

#[test]
fn tick_sends_a_frame_to_every_connected_peer() {
    let mut a = node(1, 1000);
    a.on_peer_connected(key(2).public(), 1000);
    a.on_peer_connected(key(3).public(), 1000);
    a.on_peer_disconnected(key(3).public());
    let _ = a.drain_outbound();
    let before = a.own().version;
    a.tick(1500);
    let out = a.drain_outbound();
    assert!(!out.is_empty());
    assert!(out.iter().all(|(to, _)| *to == key(2).public()));
    assert_eq!(out.last().unwrap().1, a.sync_frame());
    assert!(before.is_older(&a.own().version));
    assert!(a.drain_outbound().is_empty());
}

#[test]
fn skips_candidates_that_are_taken() {
    let first = State::candidate(&key(1).public(), 0);
    let second = State::candidate(&key(1).public(), 1);
    assert_ne!(first, second);
    let mut b = claiming(2, first, 0, 500, 1000);
    let mut a = node(1, 1000);
    let bytes = frame(&mut b, &key(1).public(), 1100);
    a.on_frame(key(2).public(), &bytes, 1100).unwrap();
    a.on_peer_connected(key(2).public(), 1100);
    a.tick(1500);
    assert_eq!(a.own().ip_claim.claim().unwrap().ip, second);
    assert_eq!(a.own().ip_claim.claim().unwrap().k, 1);
}

#[test]
fn older_claim_wins() {
    let mut old = claiming(1, 77, 9, 0, 1_000_000);
    let mut young = claiming(2, 77, 0, 500_000, 1_000_000);
    let f_old = frame(&mut old, &key(2).public(), 1_000_000);
    let f_young = frame(&mut young, &key(1).public(), 1_000_000);

    // the younger claim gives way
    young.on_frame(key(1).public(), &f_old, 1_000_100).unwrap();
    let claim = *young.own().ip_claim.claim().unwrap();
    assert_eq!(claim.k, 1);
    assert_eq!(claim.ip, State::candidate(&key(2).public(), 1));
    assert_eq!(claim.claimed_at_ms, 1_000_100);
    let events = young.drain_events();
    assert!(events.contains(&MeshEvent::ClaimResolved {
        ip: 77,
        winner: key(1).public(),
        loser: key(2).public()
    }));
    assert!(events.contains(&MeshEvent::Tun(TunDirective::Configure { ip: claim.ip })));

    // the older one keeps the address and forgets the other's claim
    old.on_frame(key(2).public(), &f_young, 1_000_100).unwrap();
    assert_eq!(old.own().ip_claim.ip(), Some(77));
    let n = old.get_node_states().into_iter().find(|n| n.endpoint_id == key(2).public()).unwrap();
    assert_eq!(n.ip_claim, IpClaim::Unclaimed);
}

#[test]
fn lower_index_wins_between_simultaneous_claims() {
    let mut a = claiming(1, 77, 1, 30_000, 50_000);
    let mut b = claiming(2, 77, 0, 60_000, 70_000);
    let f = frame(&mut b, &key(1).public(), 70_000);
    a.on_frame(key(2).public(), &f, 70_000).unwrap();
    assert_ne!(a.own().ip_claim.ip(), Some(77));
    assert_eq!(a.own().ip_claim.claim().unwrap().k, 2);
}

#[test]
fn higher_identity_wins_at_last() {
    let (low, high) = if key(1).public().is_before(&key(2).public()) { (1, 2) } else { (2, 1) };
    let mut l = claiming(low, 77, 0, 1000, 2000);
    let mut h = claiming(high, 77, 0, 1000, 2000);
    let fl = frame(&mut l, &key(high).public(), 2000);
    let fh = frame(&mut h, &key(low).public(), 2000);
    l.on_frame(key(high).public(), &fh, 2100).unwrap();
    h.on_frame(key(low).public(), &fl, 2100).unwrap();
    assert_eq!(h.own().ip_claim.ip(), Some(77));
    assert_ne!(l.own().ip_claim.ip(), Some(77));
}

#[test]
fn losing_a_running_address_renumbers_the_device() {
    let mut a = claiming(1, 77, 0, 900_000, 1_000_000);
    a.tick(1_000_500);
    assert_eq!(a.drain_events(), vec![MeshEvent::Tun(TunDirective::Configure { ip: 77 })]);
    let mut b = claiming(2, 77, 0, 0, 1_000_000);
    let f = frame(&mut b, &key(1).public(), 1_000_600);
    a.on_frame(key(2).public(), &f, 1_000_600).unwrap();
    let to = a.own().ip_claim.ip().unwrap();
    assert_ne!(to, 77);
    assert!(a.drain_events().contains(&MeshEvent::Tun(TunDirective::Reconfigure { from: 77, to })));
}

#[test]
fn conflicts_between_others_are_settled_too() {
    let mut b = claiming(2, 77, 0, 0, 1_000_000);
    let mut c = claiming(3, 77, 0, 500_000, 1_000_000);
    let mut a = node(1, 1_000_000);
    let fb = frame(&mut b, &key(1).public(), 1_000_000);
    let fc = frame(&mut c, &key(1).public(), 1_000_000);
    a.on_frame(key(2).public(), &fb, 1_000_000).unwrap();
    a.on_frame(key(3).public(), &fc, 1_000_000).unwrap();
    let claims: Vec<_> = a.get_node_states().into_iter().filter_map(|n| n.ip_claim.ip()).collect();
    assert_eq!(claims, vec![77]);
    assert_eq!(a.own().ip_claim, IpClaim::Unclaimed);
}

#[test]
fn silent_peers_are_forgotten() {
    let mut a = node(1, 1000);
    let mut b = node(2, 1000);
    let f = frame(&mut b, &key(1).public(), 1000);
    a.on_frame(key(2).public(), &f, 1000).unwrap();
    let _ = a.drain_events();
    a.tick(60_999);
    assert_eq!(a.get_node_states().len(), 2);
    a.tick(61_000);
    assert_eq!(a.get_node_states().len(), 1);
    assert!(a.drain_events().contains(&MeshEvent::PeerDisconnected { peer: key(2).public() }));
}

#[test]
fn connected_peers_are_not_forgotten() {
    let mut a = node(1, 1000);
    let mut b = node(2, 1000);
    let f = frame(&mut b, &key(1).public(), 1000);
    a.on_frame(key(2).public(), &f, 1000).unwrap();
    a.on_peer_connected(key(2).public(), 1000);
    a.tick(10_000_000);
    assert_eq!(a.get_node_states().len(), 2);
    a.on_peer_disconnected(key(2).public());
    a.tick(20_000_000);
    assert_eq!(a.get_node_states().len(), 1);
}

#[test]
fn frames_refresh_their_sender() {
    let mut a = node(1, 1000);
    let mut b = node(2, 1000);
    let f = frame(&mut b, &key(1).public(), 1000);
    a.on_frame(key(2).public(), &f, 1000).unwrap();
    a.on_frame(key(2).public(), &f, 50_000).unwrap();
    a.tick(61_000);
    assert_eq!(a.get_node_states().len(), 2);
}

#[test]
fn ports_are_announced_when_they_change() {
    let mut a = node(1, 1000);
    a.on_peer_connected(key(2).public(), 1000);
    let _ = a.drain_outbound();
    let v = a.own().version;
    a.set_exposed_ports(Ports::Any, 2000);
    assert_eq!(a.own().version, v);
    assert!(a.drain_outbound().is_empty());
    a.set_exposed_ports(Ports::List(vec![22, 80]), 2000);
    assert_eq!(a.own().version, Version { wall_ms: 2000, counter: 0 });
    assert!(a.own().exposed_ports == Ports::List(vec![22, 80]));
    assert_eq!(a.drain_outbound().len(), 1);
}

#[test]
fn persisted_claim_is_resumed() {
    let persisted = PersistedState {
        claim: Claim { ip: 300, k: 4, claimed_at_ms: 10 },
        exposed_ports: Ports::List(vec![1]),
    };
    let s = State::resume(&key(1), Config::default(), persisted, 1000);
    assert_eq!(s.own().ip_claim, IpClaim::Claimed(Claim { ip: 300, k: 4, claimed_at_ms: 10 }));
    assert!(s.own().exposed_ports == Ports::List(vec![1]));
    assert_eq!(s.own().version, Version { wall_ms: 1000, counter: 2 });
}

#[test]
fn claim_priority_orders_claims() {
    let a = key(1).public();
    let b = key(2).public();
    let c = |k: u64, at: u64| Claim { ip: 1, k, claimed_at_ms: at };
    assert_eq!(claim_priority(30, (&a, &c(9, 0)), (&b, &c(0, 31))), Ordering::Greater);
    assert_eq!(claim_priority(30, (&b, &c(0, 31)), (&a, &c(9, 0))), Ordering::Less);
    assert_eq!(claim_priority(30, (&a, &c(9, 0)), (&b, &c(0, 30))), Ordering::Less);
    assert_eq!(claim_priority(30, (&a, &c(1, 5)), (&a, &c(1, 9))), Ordering::Equal);
    let expected = a.bytes.cmp(&b.bytes);
    assert_eq!(claim_priority(30, (&a, &c(1, 5)), (&b, &c(1, 9))), expected);
}

#[test]
fn winner_of_a_ranking_beats_everyone() {
    let c = |n: u8, k: u64, at: u64| (key(n).public(), Claim { ip: 1, k, claimed_at_ms: at });
    // all made at about the same time: the lowest index wins
    let ranking = rank_claims(30, &vec![c(1, 2, 0), c(2, 0, 20), c(3, 1, 10)]);
    assert_eq!(ranking, vec![c(1, 2, 0), c(3, 1, 10), c(2, 0, 20)]);
    let winner = *ranking.last().unwrap();
    for loser in &ranking[..2] {
        assert!(loses_against(30, loser, &winner));
    }
    // all far apart: the oldest wins, wherever it stands
    let senior = c(2, 9, 100);
    assert_eq!(*rank_claims(30, &vec![c(1, 0, 200), senior, c(3, 0, 300)]).last().unwrap(), senior);
    assert_eq!(*rank_claims(30, &vec![senior, c(3, 0, 300), c(1, 0, 200)]).last().unwrap(), senior);
    assert_eq!(*rank_claims(30, &vec![c(3, 0, 300), c(1, 0, 200), senior]).last().unwrap(), senior);
}

#[test]
fn seniority_and_indices_can_contradict_each_other() {
    let c = |n: u8, k: u64, at: u64| (key(n).public(), Claim { ip: 1, k, claimed_at_ms: at });
    let (a, b, d) = (c(1, 2, 0), c(2, 1, 25), c(3, 0, 50));
    assert!(loses_against(30, &a, &b));
    assert!(loses_against(30, &b, &d));
    assert!(loses_against(30, &d, &a));
}

#[test]
fn dropped_claims_stay_dropped() {
    let mut old = claiming(1, 77, 9, 0, 1_000_000);
    let mut young = claiming(2, 77, 0, 500_000, 1_000_000);
    let f = frame(&mut young, &key(1).public(), 1_000_000);
    old.on_frame(key(2).public(), &f, 1_000_100).unwrap();
    let _ = old.drain_events();
    old.on_frame(key(2).public(), &f, 1_000_200).unwrap();
    let n = old.get_node_states().into_iter().find(|n| n.endpoint_id == key(2).public()).unwrap();
    assert_eq!(n.ip_claim, IpClaim::Unclaimed);
    assert!(old.drain_events().is_empty());
}

#[test]
fn waits_for_enough_peers() {
    let mut a = State::new(&key(1), Config { settle_ticks: 1, ..Config::default() }, Some(1000));
    a.on_peer_connected(key(2).public(), 1000);
    a.tick(1500);
    a.tick(2000);
    assert_eq!(a.own().ip_claim, IpClaim::Unclaimed);
    a.on_peer_connected(key(3).public(), 2000);
    a.tick(2500);
    assert_eq!(a.own().ip_claim.claim().unwrap().k, 0);
}

#[test]
fn codec_errors_have_texts() {
    assert_eq!(CodecError::UnexpectedEnd.to_text(), postcard::Error::DeserializeUnexpectedEnd.to_string());
    assert_eq!(CodecError::BadVarint.to_text(), postcard::Error::DeserializeBadVarint.to_string());
    assert_eq!(CodecError::Custom.to_text(), postcard::Error::SerdeDeCustom.to_string());
}

#[test]
fn mesh_errors_have_texts() {
    assert_eq!(
        MeshError::Codec(CodecError::UnexpectedEnd).to_text(),
        "codec: Hit the end of buffer, expected more data"
    );
    assert_eq!(MeshError::BadSignature.to_text(), "bad signature");
    assert_eq!(MeshError::IpSpaceExhausted.to_text(), "ip space exhausted");
}

#[test]
fn repeated_frames_are_ignored() {
    let mut old = claiming(1, 77, 9, 0, 1_000_000);
    let mut young = claiming(2, 77, 0, 500_000, 1_000_000);
    let f = frame(&mut old, &key(2).public(), 1_000_000);
    young.on_peer_connected(key(1).public(), 1_000_000);
    assert_eq!(young.on_frame(key(1).public(), &f, 1_000_100), Ok(()));
    let _ = (young.drain_events(), young.drain_outbound());
    let before: Vec<NodeState> = young.get_node_states().into_iter().cloned().collect();
    assert_eq!(young.on_frame(key(1).public(), &f, 1_000_200), Ok(()));
    let after: Vec<NodeState> = young.get_node_states().into_iter().cloned().collect();
    assert_eq!(before, after);
    assert!(young.drain_events().is_empty());
    assert!(young.drain_outbound().is_empty());
}

#[test]
fn newest_of_two_announcements_is_kept() {
    let announce = |counter: u64, port: u16| {
        NodeState {
            endpoint_id: key(2).public(),
            version: Version { wall_ms: 10, counter },
            ip_claim: IpClaim::Unclaimed,
            exposed_ports: Ports::List(vec![port]),
        }
        .sign(&key(2))
    };
    for order in [[1u64, 2], [2, 1]] {
        let mut s = node(1, 1000);
        for counter in order {
            s.merge_one(announce(counter, counter as u16), 2000).unwrap();
        }
        let kept = s.get_node_states().into_iter().find(|n| n.endpoint_id == key(2).public()).unwrap();
        assert_eq!(kept.version.counter, 2);
        assert!(kept.exposed_ports == Ports::List(vec![2]));
        assert_eq!(s.get_node_states().len(), 2);
    }
}

#[test]
fn signatures_of_others_and_altered_announcements_are_refused() {
    let mut own = node(1, 1000).own().clone();
    let signed = own.clone().sign(&key(1));
    assert_eq!(*signed.get(), own);
    assert_eq!(signed.clone().verify(), Ok(signed));
    assert_eq!(own.clone().sign(&key(2)).verify(), Err(MeshError::BadSignature));
    own.endpoint_id = key(3).public();
    assert_eq!(own.sign(&key(1)).verify(), Err(MeshError::BadSignature));
}

#[test]
fn frames_are_accepted_unless_a_claim_was_dropped() {
    let mut old = claiming(1, 77, 9, 0, 1_000_000);
    let mut young = claiming(2, 77, 0, 500_000, 1_000_000);
    let mut third = node(3, 1_000_000);
    let f = frame(&mut old, &key(3).public(), 1_000_000);
    assert_eq!(third.on_frame(key(1).public(), &f, 1_000_000), Ok(()));
    // the older node drops the claim of the younger one
    let f = frame(&mut young, &key(1).public(), 1_000_000);
    old.on_frame(key(2).public(), &f, 1_000_100).unwrap();
    let f = frame(&mut old, &key(3).public(), 1_000_100);
    assert_eq!(third.on_frame(key(1).public(), &f, 1_000_100), Err(MeshError::BadSignature));
    // the younger one announces itself anew
    let told = frame(&mut claiming(1, 77, 9, 0, 1_000_000), &key(2).public(), 1_000_000);
    young.on_frame(key(1).public(), &told, 1_000_200).unwrap();
    let f = frame(&mut young, &key(1).public(), 1_000_200);
    old.on_frame(key(2).public(), &f, 1_000_300).unwrap();
    let f = frame(&mut old, &key(3).public(), 1_000_300);
    assert_eq!(third.on_frame(key(1).public(), &f, 1_000_300), Ok(()));
}

#[test]
fn frame_kinds_are_numbers_of_seven_bits_a_byte() {
    let mut a = node(1, 1000);
    let mut b = node(2, 1000);
    let f = frame(&mut a, &key(2).public(), 1500);
    assert_eq!(f[0], 0);
    // a longer form of zero
    let mut long = vec![0x80, 0x80, 0];
    long.extend_from_slice(&f[1..]);
    assert_eq!(b.on_frame(key(1).public(), &long, 2000), Ok(()));
    for (bytes, e) in [
        (vec![0x80u8; 4], CodecError::UnexpectedEnd),
        (vec![0x80, 0x80, 0x80, 0x80, 0x10], CodecError::BadVarint),
        (vec![0x80, 0x80, 0x80, 0x80, 0x0F], CodecError::Custom),
        (vec![0x80; 5], CodecError::BadVarint),
    ] {
        assert_eq!(b.on_frame(key(1).public(), &bytes, 2000), Err(MeshError::Codec(e)));
    }
}
