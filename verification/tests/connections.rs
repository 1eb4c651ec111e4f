use iroh_lan::connection::{
    after_read_error, after_read_timeout, after_write_failure, classify_liveness, is_alive, side_label, ConnActor,
    ConnHealthWindow, ConnInfo, ConnLiveness, ConnPathSnapshot, ConnectionClosed, DatagramOutcome, FlushOutcome,
    InnerConnState, LoopAction, ReadAction, WriteOutcome, MAX_SENDER_QUEUE,
};
use iroh_lan::direct_connect::{attempt_order, routed, AcceptOutcome, DirectActor, DirectError};
use iroh_lan::direct_connect_actor_lite::{frame_len, Actor, PeerState, Route};
use iroh_lan::direct_message::{DirectMessage, ReadError};
use iroh_lan::id::EndpointId;
use iroh_lan::tun::Ipv4Pkg;

fn id(n: u8) -> EndpointId {
    EndpointId { bytes: [n; 32] }
}

fn msg(n: u32) -> DirectMessage {
    DirectMessage::IDontLikeWarnings(n.to_be_bytes().to_vec())
}

fn path(selected: bool, closed: bool) -> ConnPathSnapshot {
    ConnPathSnapshot {
        path_id: "PathId(0)".to_string(),
        remote_addr: "Ip(1.2.3.4:5)".to_string(),
        is_selected: selected,
        is_closed: closed,
        rtt_ms: Some(12),
        lost_packets: Some(3),
        black_holes_detected: Some(0),
        current_mtu: Some(1200),
        udp_tx_datagrams: Some(7),
        udp_rx_datagrams: None,
    }
}

fn info(paths: Vec<ConnPathSnapshot>, rx: u64) -> Option<ConnInfo> {
    Some(ConnInfo { stable_id: 4, paths, lost_packets: 1, udp_tx_datagrams: 2, udp_rx_datagrams: rx })
}

fn open_conn() -> ConnActor {
    let mut c = ConnActor::new(5, id(1), true);
    assert_eq!(c.begin_establish(false), Ok(()));
    c.finish_establish();
    c
}

#[test]
fn labels() {
    assert_eq!(side_label(true), "open");
    assert_eq!(side_label(false), "accept");
    assert_eq!(ConnLiveness::Usable.to_text(), "usable");
    assert_eq!(ConnLiveness::Suspect.to_text(), "suspect");
    assert_eq!(ConnLiveness::Dead.to_text(), "dead");
    assert!(is_alive(Some(ConnLiveness::Usable)));
    assert!(is_alive(Some(ConnLiveness::Suspect)));
    assert!(!is_alive(Some(ConnLiveness::Dead)));
    assert!(!is_alive(None));
}

#[test]
fn liveness_by_evidence() {
    let fresh = ConnHealthWindow::default();
    let good = path(true, false);
    let paths = vec![good.clone()];
    let open = InnerConnState::Open;
    let judge = |state, sel: Option<&ConnPathSnapshot>, rx, tx, loss, h: &ConnHealthWindow| {
        classify_liveness(state, sel, &paths, rx, tx, loss, h)
    };
    assert_eq!(judge(InnerConnState::Connecting, Some(&good), true, true, false, &fresh), ConnLiveness::Dead);
    assert_eq!(judge(InnerConnState::Closed, Some(&good), true, true, false, &fresh), ConnLiveness::Dead);
    assert_eq!(judge(open, Some(&good), true, false, false, &fresh), ConnLiveness::Usable);
    assert_eq!(judge(open, Some(&good), false, true, false, &fresh), ConnLiveness::Suspect);
    assert_eq!(judge(open, None, true, false, false, &fresh), ConnLiveness::Suspect);
    let no_paths = ConnHealthWindow { no_active_paths: true, ..fresh };
    assert_eq!(judge(open, Some(&good), true, true, false, &no_paths), ConnLiveness::Dead);
    let timeouts = ConnHealthWindow { consecutive_read_timeouts: 3, ..fresh };
    assert_eq!(judge(open, Some(&good), false, true, false, &timeouts), ConnLiveness::Suspect);
    assert_eq!(judge(open, Some(&good), false, true, true, &timeouts), ConnLiveness::Dead);
    assert_eq!(judge(open, None, false, true, true, &timeouts), ConnLiveness::Dead);
    let both = ConnHealthWindow { consecutive_write_timeouts: 3, ..timeouts };
    assert_eq!(judge(open, Some(&good), false, false, false, &both), ConnLiveness::Dead);
    assert_eq!(judge(open, Some(&good), true, false, false, &both), ConnLiveness::Usable);
    let mut hole = good.clone();
    hole.black_holes_detected = Some(1);
    assert_eq!(judge(open, Some(&hole), false, true, false, &timeouts), ConnLiveness::Dead);
    assert_eq!(judge(open, Some(&hole), false, true, false, &fresh), ConnLiveness::Suspect);
    // no open path at all
    let closed = path(true, true);
    assert_eq!(
        classify_liveness(open, Some(&closed), &[closed.clone()], true, true, false, &fresh),
        ConnLiveness::Dead
    );
    assert_eq!(classify_liveness(open, None, &[], true, true, false, &fresh), ConnLiveness::Dead);
}

#[test]
fn messages_wait_in_order() {
    let mut c = ConnActor::new(1, id(1), false);
    assert!(c.write(msg(1)).is_none());
    assert!(c.write(msg(2)).is_none());
    assert!(c.write(msg(3)).is_none());
    assert_eq!(c.begin_establish(false), Ok(()));
    assert_eq!(c.next_waiting(), Some(msg(1)));
    assert_eq!(c.flushed(FlushOutcome::Sent), Ok(()));
    assert_eq!(c.next_waiting(), Some(msg(2)));
    assert_eq!(c.flushed(FlushOutcome::Full), Ok(()));
    assert_eq!(c.next_waiting(), Some(msg(3)));
    assert_eq!(c.flushed(FlushOutcome::Sent), Ok(()));
    assert_eq!(c.next_waiting(), None);
    c.finish_establish();
    assert_eq!(c.state(), InnerConnState::Open);
    let s = c.snapshot(None, 0);
    assert_eq!(s.queue_len, 2);
    assert_eq!(s.dropped_packets, 1);
    // from now on messages go to the write task
    assert_eq!(c.write(msg(4)), Some(msg(4)));
}

#[test]
fn oldest_messages_go_when_too_many_wait() {
    let mut c = ConnActor::new(1, id(1), false);
    for n in 0..(MAX_SENDER_QUEUE as u32 + 2) {
        assert!(c.write(msg(n)).is_none());
    }
    assert_eq!(c.next_waiting(), Some(msg(2)));
    let mut left = 0;
    while c.next_waiting().is_some() {
        left += 1;
    }
    assert_eq!(left, MAX_SENDER_QUEUE - 1);
}

#[test]
fn lost_write_task_closes_the_connection() {
    let mut c = open_conn();
    assert!(!c.written(WriteOutcome::Sent));
    assert!(!c.written(WriteOutcome::Full));
    assert!(c.written(WriteOutcome::Closed(msg(7))));
    assert_eq!(c.state(), InnerConnState::Closed);
    assert!(!c.written(WriteOutcome::Closed(msg(8))));
    assert_eq!(c.next_waiting(), Some(msg(7)));
    assert_eq!(c.next_waiting(), Some(msg(8)));
    let s = c.snapshot(None, 0);
    assert_eq!((s.queue_len, s.dropped_packets), (1, 1));
    assert_eq!(s.liveness, ConnLiveness::Dead);
}

#[test]
fn closed_transport_is_not_established() {
    let mut c = ConnActor::new(1, id(1), true);
    assert_eq!(c.begin_establish(true), Err(ConnectionClosed));
    assert_eq!(c.state(), InnerConnState::Closed);
    let mut c = ConnActor::new(1, id(1), true);
    assert!(c.write(msg(1)).is_none());
    assert_eq!(c.begin_establish(false), Ok(()));
    let _ = c.next_waiting();
    assert_eq!(c.flushed(FlushOutcome::Closed), Err(ConnectionClosed));
    assert_eq!(c.state(), InnerConnState::Closed);
    assert!(!c.close());
}

#[test]
fn keepalive_only_when_open() {
    let mut c = ConnActor::new(1, id(1), true);
    assert!(c.keepalive(&[1]).is_none());
    let _ = c.begin_establish(false);
    assert!(c.keepalive(&[1]).is_none());
    c.finish_establish();
    assert_eq!(c.keepalive(&[1]), Some(DirectMessage::IDontLikeWarnings(vec![1])));
    c.keepalive_written(true);
    c.keepalive_written(false);
    c.on_dequeued();
    c.on_dequeued();
    let s = c.snapshot(None, 3);
    assert_eq!((s.queue_len, s.dropped_packets, s.idle_for_ms), (0, 1, 3));
    assert!(c.close());
    assert!(c.keepalive(&[1]).is_none());
}

#[test]
fn reads_and_writes_are_counted() {
    let mut c = open_conn();
    assert_eq!(c.on_read(DirectMessage::IDontLikeWarnings(vec![])), ReadAction::Nothing);
    assert_eq!(c.on_read(DirectMessage::IDontLikeWarnings(vec![4])), ReadAction::Frame(vec![4]));
    let ip = DirectMessage::IpPacket(Ipv4Pkg::new(&[0; 20]).unwrap());
    assert_eq!(c.on_read(ip.clone()), ReadAction::Packet(ip));
    c.on_read_timeout();
    c.on_read_timeout();
    assert!(!c.on_datagram(DatagramOutcome::Sent));
    assert!(c.on_datagram(DatagramOutcome::Failed));
    assert!(!c.on_datagram(DatagramOutcome::TimedOut));
    let s = c.snapshot(None, 0);
    assert_eq!(s.rx_count, 3);
    assert_eq!(s.tx_count, 2);
    assert_eq!(s.write_timeouts, 1);
    assert_eq!(s.consecutive_read_timeouts, 2);
    assert_eq!(s.consecutive_write_timeouts, 2);
    let _ = c.on_read(DirectMessage::IDontLikeWarnings(vec![]));
    assert!(!c.on_datagram(DatagramOutcome::Sent));
    let s = c.snapshot(None, 0);
    assert_eq!((s.consecutive_read_timeouts, s.consecutive_write_timeouts), (0, 0));
}

#[test]
fn progress_is_measured_between_looks() {
    let mut c = open_conn();
    let paths = || vec![path(false, false), path(true, false)];
    assert_eq!(c.snapshot(info(paths(), 5), 0).liveness, ConnLiveness::Usable);
    // nothing new
    assert_eq!(c.snapshot(info(paths(), 5), 0).liveness, ConnLiveness::Suspect);
    let _ = c.on_read(msg(1));
    let s = c.snapshot(info(paths(), 5), 0);
    assert_eq!(s.liveness, ConnLiveness::Usable);
    assert_eq!(s.selected_path, Some(path(true, false)));
    assert_eq!(s.paths.len(), 2);
    assert_eq!(s.quic_stable_id, Some(4));
    assert!(c.on_paths_gone());
    let s = c.snapshot(info(paths(), 9), 0);
    assert_eq!(s.liveness, ConnLiveness::Dead);
    assert!(s.no_active_paths);
}

#[test]
fn loops_decide() {
    let m = ReadError::Multiplex(String::new());
    assert_eq!(after_read_error(&m), LoopAction::Continue);
    assert_eq!(after_read_error(&ReadError::Datagram(String::new())), LoopAction::CloseAndStop);
    assert_eq!(after_read_error(&ReadError::Deserialize(String::new())), LoopAction::CloseAndStop);
    assert_eq!(after_read_timeout(None), LoopAction::Continue);
    assert_eq!(after_read_timeout(Some(ConnLiveness::Usable)), LoopAction::CloseAndStop);
    assert_eq!(after_read_timeout(Some(ConnLiveness::Dead)), LoopAction::CloseAndStop);
    assert_eq!(after_write_failure(Some(ConnLiveness::Usable)), LoopAction::Continue);
    assert_eq!(after_write_failure(Some(ConnLiveness::Suspect)), LoopAction::Continue);
    assert_eq!(after_write_failure(Some(ConnLiveness::Dead)), LoopAction::CloseAndStop);
    assert_eq!(after_write_failure(None), LoopAction::CloseAndStop);
}

#[test]
fn texts_of_snapshots() {
    let p = path(true, false);
    let text = "path_id=PathId(0) remote_addr=Ip(1.2.3.4:5) selected=true closed=false rtt_ms=12 lost_packets=3 \
                black_holes=0 mtu=1200 udp_tx_dgrams=7 udp_rx_dgrams=unknown";
    assert_eq!(p.to_text(), text);
    let mut c = ConnActor::new(42, id(0xAB), false);
    let peer = "ab".repeat(32);
    let s = c.snapshot(None, 1500);
    assert_eq!(
        s.to_text(),
        format!(
            "conn_actor_id=42 peer={peer} quic_stable_id=unknown side=accept state=Connecting liveness=dead \
             idle_for_ms=1500 rx_count=0 tx_count=0 queue_len=0 write_timeouts=0 consecutive_write_errors=0 \
             consecutive_read_timeouts=0 consecutive_write_timeouts=0 no_active_paths=false dropped_packets=0 \
             total_lost_packets=unknown total_udp_tx_dgrams=unknown total_udp_rx_dgrams=unknown \
             selected_path=[none] paths=[none]"
        )
    );
    let mut c = open_conn();
    let s = c.snapshot(info(vec![p.clone(), p.clone()], 9), 0);
    assert!(s.to_text().ends_with(&format!("selected_path=[{text}] paths=[{text} | {text}]")));
    assert!(s.to_text().contains("side=open state=Open liveness=usable"));
}

#[test]
fn first_packet_sets_the_destination_once() {
    let mut c = ConnActor::new(1, id(1), true);
    let mut p = vec![0u8; 20];
    p[16] = 9;
    assert!(c.write(DirectMessage::IpPacket(Ipv4Pkg::new(&p).unwrap())).is_none());
    assert_eq!(c.id(), 1);
    assert_eq!(c.peer(), id(1));
}

#[test]
fn attempts_are_ordered() {
    let pool = [
        (1u64, Some((ConnLiveness::Suspect, 5u128))),
        (2, Some((ConnLiveness::Usable, 90))),
        (3, Some((ConnLiveness::Dead, 0))),
        (4, Some((ConnLiveness::Usable, 10))),
        (5, None),
        (6, Some((ConnLiveness::Usable, 10))),
        (7, Some((ConnLiveness::Suspect, 1))),
    ];
    let order: Vec<u64> = attempt_order(&pool).into_iter().map(|c| c.2).collect();
    assert_eq!(order, vec![4, 6, 2, 7, 1]);
    assert!(attempt_order(&[]).is_empty());
}

#[test]
fn driver_keeps_two_connections() {
    let mut d = DirectActor::new();
    d.ensure_peer(id(1));
    d.ensure_peer(id(1));
    assert_eq!(d.get_connected_peers(), vec![id(1)]);
    assert_eq!(d.drive(id(1), &vec![], false), (vec![], false));
    assert_eq!(d.drive(id(1), &vec![], true), (vec![], true));
    assert_eq!(d.attempts(&id(1)), 1);
    assert_eq!(d.drive(id(1), &vec![], true), (vec![], true));
    // two are being opened
    assert_eq!(d.drive(id(1), &vec![], true), (vec![], false));
    d.opened(id(1), Some(77));
    assert_eq!(d.attempts(&id(1)), 0);
    assert_eq!(d.pool(&id(1)), vec![77]);
    d.opened(id(1), None);
    assert_eq!(d.drive(id(1), &vec![true], true), (vec![], true));
    d.opened(id(1), Some(78));
    assert_eq!(d.drive(id(1), &vec![true, true], true), (vec![], false));
    assert_eq!(d.drive(id(1), &vec![false, true], false), (vec![77], false));
    assert_eq!(d.pool(&id(1)), vec![78]);
    assert_eq!(d.drive(id(1), &vec![true], true), (vec![], true));
}

#[test]
fn driver_gives_up_after_many_attempts() {
    let mut d = DirectActor::new();
    d.ensure_peer(id(1));
    for n in 0..101usize {
        assert_eq!(d.attempts(&id(1)), n);
        assert_eq!(d.drive(id(1), &vec![], true), (vec![], true));
        d.opened(id(1), None);
    }
    assert_eq!(d.drive(id(1), &vec![], true), (vec![], false));
}

#[test]
fn accepted_connections_join_the_pool() {
    let mut d = DirectActor::new();
    d.begin_accept(id(2));
    assert_eq!(d.accepted(id(2), AcceptOutcome::Alive(5)), Ok(()));
    assert_eq!(d.pool(&id(2)), vec![5]);
    d.begin_accept(id(2));
    assert_eq!(d.accepted(id(2), AcceptOutcome::NotAlive), Err(DirectError::NotAlive));
    d.begin_accept(id(2));
    assert_eq!(d.accepted(id(2), AcceptOutcome::Failed), Err(DirectError::AcceptFailed));
    assert_eq!(d.pool(&id(2)), vec![5]);
    // one is there, so one more is wanted
    assert_eq!(d.drive(id(2), &vec![true], true), (vec![], true));
    assert_eq!(d.drive(id(2), &vec![true], true), (vec![], false));
}

#[test]
fn routing_to_unknown_peers() {
    let mut d = DirectActor::new();
    assert_eq!(d.begin_route(id(3)), Err(DirectError::NoActiveConnection));
    assert_eq!(d.begin_route(id(3)), Ok(()));
    assert_eq!(routed(false), Err(DirectError::NoOpenConnections));
    assert_eq!(routed(true), Ok(()));
    assert_eq!(d.get_conn_state(&id(4), &[]), Err(DirectError::UnknownPeer));
    assert_eq!(d.get_conn_state(&id(3), &[]), Ok(InnerConnState::Closed));
    assert_eq!(d.get_conn_state(&id(3), &[false, true]), Ok(InnerConnState::Open));
    d.close();
    assert!(d.get_connected_peers().is_empty());
}

#[test]
fn frames_are_kept_when_they_change() {
    let mut d = DirectActor::new();
    assert!(!d.set_frame(&[]));
    assert!(d.set_frame(&[1, 2]));
    assert!(!d.set_frame(&[1, 2]));
    assert_eq!(d.latest_frame(), &[1, 2]);
}

#[test]
fn newest_connection_takes_over() {
    let mut p = PeerState::Pending { queue: vec![msg(1), msg(2)] };
    assert_eq!(p.accept_conn(10), vec![msg(1), msg(2)]);
    assert!(p.accept_conn(11).is_empty());
    assert!(matches!(p, PeerState::Active { active_conn_id: 11, .. }));
    if let PeerState::Active { other_conns, .. } = p {
        assert_eq!(other_conns, vec![10]);
    }
}

#[test]
fn messages_wait_for_a_connection() {
    let mut a = Actor::new();
    assert!(matches!(a.route_packet(id(1), msg(1)), Route::Connect));
    assert!(matches!(a.route_packet(id(1), msg(2)), Route::Connect));
    assert_eq!(a.handle_connection(id(1), 8), vec![msg(1), msg(2)]);
    match a.route_packet(id(1), msg(3)) {
        Route::Send(conn, m) => {
            assert_eq!(conn, 8);
            assert_eq!(m, msg(3));
        }
        Route::Connect => panic!("connected already"),
    }
    assert!(a.handle_connection(id(2), 9).is_empty());
    assert!(a.reconnected(id(2)).is_empty());
    assert!(matches!(a.route_packet(id(3), msg(4)), Route::Connect));
    assert_eq!(a.reconnected(id(3)), vec![msg(4)]);
    assert!(a.reconnected(id(3)).is_empty());
    // without a connection it waits again
    assert!(matches!(a.route_packet(id(3), msg(4)), Route::Connect));
    assert_eq!(a.reconnected(id(3)), vec![msg(4)]);
}

#[test]
fn frame_lengths_are_big_endian() {
    assert_eq!(frame_len(&[0, 0, 1, 2]), 258);
    assert_eq!(frame_len(&[0xFF; 4]), u32::MAX);
}
