//! One connection to a peer: what waits to be written, how healthy it is, and what
//! its read and write loops do next.
use vstd::prelude::*;
use std::collections::VecDeque;
use crate::direct_message::{DirectMessage, ReadError};
use crate::id::EndpointId;
use crate::ipv4::Ipv4Addr;
use crate::tun::copy_bytes;

verus! {

/// The most messages that wait for a connection to open.
pub const MAX_SENDER_QUEUE: usize = 50_000;

/// How many messages the write task takes at a time.
pub const WRITE_CHANNEL_CAP: usize = 8_192;

/// The time between two signs of life, in milliseconds.
pub const KEEPALIVE_INTERVAL_MS: u64 = 2_000;

/// How long a read or a write may take, in milliseconds.
pub const IO_TIMEOUT_MS: u64 = 6_000;

/// How long a connection may take to open, in milliseconds.
pub const CONNECTING_TIMEOUT_MS: u64 = 15_000;

/// So many reads in a row that time out count as evidence.
pub const MAX_CONSECUTIVE_READ_TIMEOUTS: usize = 3;

/// So many writes in a row that time out count as evidence.
pub const MAX_CONSECUTIVE_WRITE_TIMEOUTS: usize = 3;

/// The state of a connection.
#[derive(Clone, Copy, Debug, PartialEq, Eq, Structural)]
pub enum InnerConnState {
    Connecting,
    Open,
    Closed,
}

/// How much a connection can be relied on.
#[derive(Clone, Copy, Debug, PartialEq, Eq, Structural, PartialOrd, Ord)]
pub enum ConnLiveness {
    Usable,
    Suspect,
    Dead,
}

impl ConnLiveness {
    /// The text of a liveness.
    pub open spec fn text(self) -> Seq<char> {
        match self {
            ConnLiveness::Usable => "usable"@,
            ConnLiveness::Suspect => "suspect"@,
            ConnLiveness::Dead => "dead"@,
        }
    }

    /// The text of this liveness.
    pub fn to_text(&self) -> (r: &'static str)
        ensures
            r@ == self.text(),
    {
        match self {
            ConnLiveness::Usable => "usable",
            ConnLiveness::Suspect => "suspect",
            ConnLiveness::Dead => "dead",
        }
    }
}

/// A connection whose liveness is known is alive unless it is dead.
pub fn is_alive(liveness: Option<ConnLiveness>) -> (r: bool)
    ensures
        r <==> liveness == Some(ConnLiveness::Usable) || liveness == Some(ConnLiveness::Suspect),
{
    match liveness {
        Some(ConnLiveness::Usable) => true,
        Some(ConnLiveness::Suspect) => true,
        Some(ConnLiveness::Dead) => false,
        None => false,
    }
}

/// What was seen of a connection when it was last looked at.
#[derive(Clone, Copy, Debug, PartialEq, Eq, Structural)]
pub struct ConnHealthWindow {
    pub last_rx_count: usize,
    pub last_tx_count: usize,
    pub last_udp_rx: u64,
    pub last_udp_tx: u64,
    pub last_lost: u64,
    pub consecutive_read_timeouts: usize,
    pub consecutive_write_timeouts: usize,
    pub no_active_paths: bool,
}

impl ConnHealthWindow {
    /// Nothing seen yet.
    pub open spec fn fresh() -> Self {
        ConnHealthWindow {
            last_rx_count: 0,
            last_tx_count: 0,
            last_udp_rx: 0,
            last_udp_tx: 0,
            last_lost: 0,
            consecutive_read_timeouts: 0,
            consecutive_write_timeouts: 0,
            no_active_paths: false,
        }
    }
}

impl Default for ConnHealthWindow {
    fn default() -> (r: Self)
        ensures
            r == ConnHealthWindow::fresh(),
    {
        ConnHealthWindow {
            last_rx_count: 0,
            last_tx_count: 0,
            last_udp_rx: 0,
            last_udp_tx: 0,
            last_lost: 0,
            consecutive_read_timeouts: 0,
            consecutive_write_timeouts: 0,
            no_active_paths: false,
        }
    }
}

/// One network path of a connection.
#[derive(Debug, PartialEq, Eq)]
pub struct ConnPathSnapshot {
    pub path_id: String,
    pub remote_addr: String,
    pub is_selected: bool,
    pub is_closed: bool,
    pub rtt_ms: Option<u128>,
    pub lost_packets: Option<u64>,
    pub black_holes_detected: Option<u64>,
    pub current_mtu: Option<u16>,
    pub udp_tx_datagrams: Option<u64>,
    pub udp_rx_datagrams: Option<u64>,
}

impl Clone for ConnPathSnapshot {
    fn clone(&self) -> (r: Self)
        ensures
            r == *self,
    {
        ConnPathSnapshot {
            path_id: self.path_id.clone(),
            remote_addr: self.remote_addr.clone(),
            is_selected: self.is_selected,
            is_closed: self.is_closed,
            rtt_ms: self.rtt_ms,
            lost_packets: self.lost_packets,
            black_holes_detected: self.black_holes_detected,
            current_mtu: self.current_mtu,
            udp_tx_datagrams: self.udp_tx_datagrams,
            udp_rx_datagrams: self.udp_rx_datagrams,
        }
    }
}

/// A connection as it was when it was looked at.
#[derive(Clone, Debug, PartialEq, Eq)]
pub struct ConnSnapshot {
    pub conn_actor_id: u64,
    pub peer: EndpointId,
    pub quic_stable_id: Option<usize>,
    pub side: &'static str,
    pub state: InnerConnState,
    pub liveness: ConnLiveness,
    pub idle_for_ms: u128,
    pub rx_count: usize,
    pub tx_count: usize,
    pub queue_len: usize,
    pub write_timeouts: usize,
    pub consecutive_write_errors: usize,
    pub consecutive_read_timeouts: usize,
    pub consecutive_write_timeouts: usize,
    pub no_active_paths: bool,
    pub dropped_packets: usize,
    pub total_lost_packets: Option<u64>,
    pub total_udp_tx_datagrams: Option<u64>,
    pub total_udp_rx_datagrams: Option<u64>,
    pub selected_path: Option<ConnPathSnapshot>,
    pub paths: Vec<ConnPathSnapshot>,
}

/// Which side opened the connection.
pub fn side_label(is_open_side: bool) -> (r: &'static str)
    ensures
        r@ == (if is_open_side {
            "open"@
        } else {
            "accept"@
        }),
{
    if is_open_side {
        "open"
    } else {
        "accept"
    }
}

/// One of the paths is open.
pub open spec fn has_open_path(paths: Seq<ConnPathSnapshot>) -> bool {
    exists|i: int| 0 <= i < paths.len() && !(#[trigger] paths[i]).is_closed
}

/// The selected path swallowed packets.
pub open spec fn black_hole(selected: Option<ConnPathSnapshot>) -> bool {
    selected matches Some(p) && p.black_holes_detected matches Some(n) && n > 0
}

/// What the evidence says of a connection: it is dead if it is not open or has no open
/// path; usable if something arrived over the selected path; dead if reads keep
/// timing out and something else speaks against it; suspect otherwise.
pub open spec fn liveness_of(
    state: InnerConnState,
    selected: Option<ConnPathSnapshot>,
    paths: Seq<ConnPathSnapshot>,
    rx_progress: bool,
    loss_jump: bool,
    health: ConnHealthWindow,
) -> ConnLiveness {
    if state != InnerConnState::Open || health.no_active_paths || !has_open_path(paths) {
        ConnLiveness::Dead
    } else if (selected matches Some(p) && !p.is_closed) && rx_progress {
        ConnLiveness::Usable
    } else if health.consecutive_read_timeouts >= MAX_CONSECUTIVE_READ_TIMEOUTS && !rx_progress && (black_hole(
        selected,
    ) || loss_jump || health.consecutive_write_timeouts >= MAX_CONSECUTIVE_WRITE_TIMEOUTS) {
        ConnLiveness::Dead
    } else {
        ConnLiveness::Suspect
    }
}

fn any_open_path(paths: &[ConnPathSnapshot]) -> (r: bool)
    ensures
        r == has_open_path(paths@),
{
    let mut i: usize = 0;
    while i < paths.len()
        invariant
            i <= paths@.len(),
            forall|j: int| 0 <= j < i ==> (#[trigger] paths@[j]).is_closed,
        decreases paths@.len() - i,
    {
        if !paths[i].is_closed {
            assert(!paths@[i as int].is_closed);
            return true;
        }
        i = i + 1;
    }
    false
}

/// Judges a connection by the evidence.
pub fn classify_liveness(
    state: InnerConnState,
    selected_path: Option<&ConnPathSnapshot>,
    paths: &[ConnPathSnapshot],
    rx_progress: bool,
    tx_progress: bool,
    loss_jump: bool,
    health: &ConnHealthWindow,
) -> (r: ConnLiveness)
    ensures
        r == liveness_of(
            state,
            (match selected_path {
                Some(p) => Some(*p),
                None => None,
            }),
            paths@,
            rx_progress,
            loss_jump,
            *health,
        ),
        ({
            let whole = state == InnerConnState::Open && !health.no_active_paths && exists|i: int|
                0 <= i < paths@.len() && !(#[trigger] paths@[i]).is_closed;
            let quiet = health.consecutive_read_timeouts >= 3 && !rx_progress;
            let swallows = selected_path matches Some(p) && p.black_holes_detected matches Some(n) && n > 0;
            &&& r == ConnLiveness::Usable <==> whole && rx_progress && (selected_path matches Some(p) && !p.is_closed)
            &&& r == ConnLiveness::Dead <==> !whole || quiet && (swallows || loss_jump
                || health.consecutive_write_timeouts >= 3)
        }),
{
    if state != InnerConnState::Open {
        return ConnLiveness::Dead;
    }
    if health.no_active_paths {
        return ConnLiveness::Dead;
    }
    let open_path = any_open_path(paths);
    if !open_path {
        return ConnLiveness::Dead;
    }
    let has_selected_open_path = match selected_path {
        Some(p) => !p.is_closed,
        None => false,
    };
    let blackhole_seen = match selected_path {
        Some(p) => match p.black_holes_detected {
            Some(n) => n > 0,
            None => false,
        },
        None => false,
    };
    if has_selected_open_path && rx_progress {
        return ConnLiveness::Usable;
    }
    if has_selected_open_path && tx_progress && health.consecutive_read_timeouts < MAX_CONSECUTIVE_READ_TIMEOUTS
        && health.consecutive_write_timeouts < MAX_CONSECUTIVE_WRITE_TIMEOUTS && !blackhole_seen {
        return ConnLiveness::Suspect;
    }
    if !has_selected_open_path && open_path && health.consecutive_read_timeouts < MAX_CONSECUTIVE_READ_TIMEOUTS {
        return ConnLiveness::Suspect;
    }
    if health.consecutive_read_timeouts >= MAX_CONSECUTIVE_READ_TIMEOUTS && !rx_progress && (blackhole_seen
        || loss_jump || health.consecutive_write_timeouts >= MAX_CONSECUTIVE_WRITE_TIMEOUTS) {
        return ConnLiveness::Dead;
    }
    ConnLiveness::Suspect
}

/// The value of a message.
pub type MessageView = Result<Seq<u8>, Seq<u8>>;

/// The mathematical value of [`ConnActor`].
#[verifier::ext_equal]
pub struct ConnView {
    pub id: u64,
    pub peer: EndpointId,
    pub is_open_side: bool,
    pub state: InnerConnState,
    pub health: ConnHealthWindow,
    pub dest_ip: Option<Ipv4Addr>,
    /// What waits to be written, the oldest message first.
    pub waiting: Seq<MessageView>,
    pub has_writer: bool,
    pub queue_len: usize,
    pub dropped_packets: usize,
    pub rx_count: usize,
    pub tx_count: usize,
    pub write_timeouts: usize,
    pub consecutive_write_errors: usize,
}

/// A count that goes on from zero when it cannot grow any more.
pub open spec fn counted(n: usize) -> usize {
    if n < usize::MAX {
        (n + 1) as usize
    } else {
        0
    }
}

/// A count that stays where it is when it cannot grow any more.
pub open spec fn capped(n: usize) -> usize {
    if n < usize::MAX {
        (n + 1) as usize
    } else {
        n
    }
}

/// The newest messages, as many as may wait.
pub open spec fn newest(messages: Seq<MessageView>) -> Seq<MessageView> {
    if messages.len() > MAX_SENDER_QUEUE {
        messages.skip(messages.len() - MAX_SENDER_QUEUE)
    } else {
        messages
    }
}

/// Where a message goes, if it is a packet.
pub open spec fn destination_of(message: MessageView) -> Option<Ipv4Addr> {
    match message {
        Ok(packet) => if packet.len() >= 20 {
            Some(crate::packet::address_at(packet, 16))
        } else {
            None
        },
        Err(_) => None,
    }
}

/// What became of a message that was handed to the write task.
#[derive(Debug, PartialEq, Eq)]
pub enum WriteOutcome {
    Sent,
    Full,
    /// The task is gone; the message comes back.
    Closed(DirectMessage),
}

/// What became of a waiting message that was handed to the write task.
#[derive(Clone, Copy, Debug, PartialEq, Eq, Structural)]
pub enum FlushOutcome {
    Sent,
    Full,
    Closed,
}

/// What became of a datagram.
#[derive(Clone, Copy, Debug, PartialEq, Eq, Structural)]
pub enum DatagramOutcome {
    Sent,
    Failed,
    TimedOut,
}

/// The connection closed before it was established.
#[derive(Clone, Copy, Debug, PartialEq, Eq, Structural)]
pub struct ConnectionClosed;

/// What the read loop does with a message.
#[derive(Debug, PartialEq, Eq)]
pub enum ReadAction {
    /// An empty sign of life.
    Nothing,
    /// The peer's frame goes to the mesh.
    Frame(Vec<u8>),
    /// The packet goes to the device.
    Packet(DirectMessage),
}

/// What a loop does next.
#[derive(Clone, Copy, Debug, PartialEq, Eq, Structural)]
pub enum LoopAction {
    Continue,
    /// The loop ends and the connection closes.
    CloseAndStop,
}

/// What the transport tells of an open connection.
#[derive(Debug)]
pub struct ConnInfo {
    pub stable_id: usize,
    pub paths: Vec<ConnPathSnapshot>,
    pub lost_packets: u64,
    pub udp_tx_datagrams: u64,
    pub udp_rx_datagrams: u64,
}

/// A connection to a peer.
#[derive(Debug)]
pub struct ConnActor {
    id: u64,
    conn_endpoint_id: EndpointId,
    is_open_side: bool,
    conn_state: InnerConnState,
    health: ConnHealthWindow,
    dest_ip: Option<Ipv4Addr>,
    sender_queue: VecDeque<DirectMessage>,
    has_writer: bool,
    queue_len: usize,
    dropped_packets: usize,
    rx_count: usize,
    tx_count: usize,
    write_timeouts: usize,
    consecutive_write_errors: usize,
}

impl View for ConnActor {
    type V = ConnView;

    closed spec fn view(&self) -> ConnView {
        ConnView {
            id: self.id,
            peer: self.conn_endpoint_id,
            is_open_side: self.is_open_side,
            state: self.conn_state,
            health: self.health,
            dest_ip: self.dest_ip,
            waiting: self.sender_queue@.map_values(|m: DirectMessage| m@),
            has_writer: self.has_writer,
            queue_len: self.queue_len,
            dropped_packets: self.dropped_packets,
            rx_count: self.rx_count,
            tx_count: self.tx_count,
            write_timeouts: self.write_timeouts,
            consecutive_write_errors: self.consecutive_write_errors,
        }
    }
}

impl ConnView {
    /// No more messages wait than may.
    pub open spec fn inv(self) -> bool {
        self.waiting.len() <= MAX_SENDER_QUEUE
    }

    /// The message waits behind the others. If too many wait, the oldest goes.
    pub open spec fn enqueued(self, message: MessageView) -> Self {
        ConnView { waiting: newest(self.waiting.push(message)), ..self }
    }
}

impl ConnActor {
    /// A connection that is being established.
    pub fn new(id: u64, conn_endpoint_id: EndpointId, is_open_side: bool) -> (r: Self)
        ensures
            r@.inv(),
            r@ == (ConnView {
                id,
                peer: conn_endpoint_id,
                is_open_side,
                state: InnerConnState::Connecting,
                health: ConnHealthWindow::fresh(),
                dest_ip: None,
                waiting: Seq::empty(),
                has_writer: false,
                queue_len: 0,
                dropped_packets: 0,
                rx_count: 0,
                tx_count: 0,
                write_timeouts: 0,
                consecutive_write_errors: 0,
            }),
    {
        let r = ConnActor {
            id,
            conn_endpoint_id,
            is_open_side,
            conn_state: InnerConnState::Connecting,
            health: ConnHealthWindow::default(),
            dest_ip: None,
            sender_queue: VecDeque::new(),
            has_writer: false,
            queue_len: 0,
            dropped_packets: 0,
            rx_count: 0,
            tx_count: 0,
            write_timeouts: 0,
            consecutive_write_errors: 0,
        };
        assert(r@.waiting =~= Seq::empty());
        r
    }

    /// The number of this connection.
    pub fn id(&self) -> (r: u64)
        ensures
            r == self@.id,
    {
        self.id
    }

    /// The peer at the other end.
    pub fn peer(&self) -> (r: EndpointId)
        ensures
            r == self@.peer,
    {
        self.conn_endpoint_id
    }

    /// The state of the connection.
    pub fn state(&self) -> (r: InnerConnState)
        ensures
            r == self@.state,
    {
        self.conn_state
    }

    /// Closes the connection. The answer tells whether it was not closed yet, so that
    /// the transport and the tasks still have to be stopped.
    pub fn close(&mut self) -> (r: bool)
        ensures
            r <==> old(self)@.state != InnerConnState::Closed,
            final(self)@ == (ConnView { state: InnerConnState::Closed, ..old(self)@ }),
    {
        if self.conn_state == InnerConnState::Closed {
            return false;
        }
        self.conn_state = InnerConnState::Closed;
        true
    }

    fn enqueue(&mut self, pkg: DirectMessage)
        requires
            old(self)@.inv(),
        ensures
            final(self)@.inv(),
            final(self)@ == old(self)@.enqueued(pkg@),
    {
        let ghost before = self@;
        self.sender_queue.push_back(pkg);
        assert(self@.waiting =~= before.waiting.push(pkg@));
        if self.sender_queue.len() > MAX_SENDER_QUEUE {
            let oldest = self.sender_queue.pop_front();
            assert(self@.waiting =~= before.waiting.push(pkg@).skip(1));
        }
        assert(self@ =~= before.enqueued(pkg@));
    }

    /// Takes a message to be written. With a write task the message is handed back for
    /// it, otherwise it waits.
    pub fn write(&mut self, pkg: DirectMessage) -> (r: Option<DirectMessage>)
        requires
            old(self)@.inv(),
        ensures
            final(self)@.inv(),
            r is Some <==> old(self)@.has_writer,
            r matches Some(m) ==> m@ == pkg@,
            ({
                let addressed = ConnView {
                    dest_ip: if old(self)@.dest_ip is None {
                        destination_of(pkg@)
                    } else {
                        old(self)@.dest_ip
                    },
                    ..old(self)@
                };
                final(self)@ == (if old(self)@.has_writer {
                    addressed
                } else {
                    addressed.enqueued(pkg@)
                })
            }),
    {
        if self.dest_ip.is_none() {
            if let DirectMessage::IpPacket(packet) = &pkg {
                if let Ok(ip) = packet.to_ipv4_packet() {
                    self.dest_ip = Some(ip.destination);
                }
            }
        }
        if self.has_writer {
            Some(pkg)
        } else {
            self.enqueue(pkg);
            None
        }
    }

    /// Takes in what became of a message that was handed to the write task. The answer
    /// tells whether the transport has to be closed now.
    pub fn written(&mut self, outcome: WriteOutcome) -> (r: bool)
        requires
            old(self)@.inv(),
        ensures
            final(self)@.inv(),
            r <==> outcome is Closed && old(self)@.state != InnerConnState::Closed,
            final(self)@ == (match outcome {
                WriteOutcome::Sent => ConnView { queue_len: counted(old(self)@.queue_len), ..old(self)@ },
                WriteOutcome::Full => ConnView {
                    dropped_packets: counted(old(self)@.dropped_packets),
                    ..old(self)@
                },
                WriteOutcome::Closed(m) => ConnView {
                    state: InnerConnState::Closed,
                    ..old(self)@.enqueued(m@)
                },
            }),
    {
        match outcome {
            WriteOutcome::Sent => {
                self.queue_len = self.queue_len.wrapping_add(1);
                false
            },
            WriteOutcome::Full => {
                self.dropped_packets = self.dropped_packets.wrapping_add(1);
                false
            },
            WriteOutcome::Closed(m) => {
                self.enqueue(m);
                self.close()
            },
        }
    }

    /// Starts to use a transport: the counts and the health start anew. A transport that
    /// is closed already closes the connection instead.
    pub fn begin_establish(&mut self, already_closed: bool) -> (r: Result<(), ConnectionClosed>)
        requires
            old(self)@.inv(),
        ensures
            final(self)@.inv(),
            r is Ok <==> !already_closed,
            final(self)@ == (if already_closed {
                ConnView { state: InnerConnState::Closed, ..old(self)@ }
            } else {
                ConnView {
                    has_writer: true,
                    queue_len: 0,
                    consecutive_write_errors: 0,
                    rx_count: 0,
                    tx_count: 0,
                    health: ConnHealthWindow::fresh(),
                    ..old(self)@
                }
            }),
    {
        if already_closed {
            let _ = self.close();
            return Err(ConnectionClosed);
        }
        self.has_writer = true;
        self.queue_len = 0;
        self.consecutive_write_errors = 0;
        self.rx_count = 0;
        self.tx_count = 0;
        self.health = ConnHealthWindow::default();
        Ok(())
    }

    /// Takes the message that has waited longest.
    pub fn next_waiting(&mut self) -> (r: Option<DirectMessage>)
        requires
            old(self)@.inv(),
        ensures
            final(self)@.inv(),
            r is Some <==> old(self)@.waiting.len() > 0,
            r matches Some(m) ==> m@ == old(self)@.waiting.first() && final(self)@ == (ConnView {
                waiting: old(self)@.waiting.drop_first(),
                ..old(self)@
            }),
            r is None ==> final(self)@ == old(self)@,
    {
        let r = self.sender_queue.pop_front();
        proof {
            if r is Some {
                assert(self@.waiting =~= old(self)@.waiting.drop_first());
            }
        }
        r
    }

    /// Takes in what became of a waiting message. If the write task is gone, the
    /// connection closes.
    pub fn flushed(&mut self, outcome: FlushOutcome) -> (r: Result<(), ConnectionClosed>)
        requires
            old(self)@.inv(),
        ensures
            final(self)@.inv(),
            r is Ok <==> outcome != FlushOutcome::Closed,
            final(self)@ == (match outcome {
                FlushOutcome::Sent => ConnView { queue_len: counted(old(self)@.queue_len), ..old(self)@ },
                FlushOutcome::Full => ConnView {
                    dropped_packets: counted(old(self)@.dropped_packets),
                    ..old(self)@
                },
                FlushOutcome::Closed => ConnView {
                    dropped_packets: counted(old(self)@.dropped_packets),
                    state: InnerConnState::Closed,
                    ..old(self)@
                },
            }),
    {
        match outcome {
            FlushOutcome::Sent => {
                self.queue_len = self.queue_len.wrapping_add(1);
                Ok(())
            },
            FlushOutcome::Full => {
                self.dropped_packets = self.dropped_packets.wrapping_add(1);
                Ok(())
            },
            FlushOutcome::Closed => {
                self.dropped_packets = self.dropped_packets.wrapping_add(1);
                let _ = self.close();
                Err(ConnectionClosed)
            },
        }
    }

    /// Everything that waited is written: the connection is open.
    pub fn finish_establish(&mut self)
        requires
            old(self)@.inv(),
        ensures
            final(self)@.inv(),
            final(self)@ == (ConnView { state: InnerConnState::Open, ..old(self)@ }),
    {
        self.conn_state = InnerConnState::Open;
    }

    /// The sign of life that is due: an open connection with a write task sends the
    /// latest frame.
    pub fn keepalive(&self, latest_frame: &[u8]) -> (r: Option<DirectMessage>)
        ensures
            r is Some <==> self@.state == InnerConnState::Open && self@.has_writer,
            r matches Some(m) ==> m@ == Err::<Seq<u8>, Seq<u8>>(latest_frame@),
    {
        if self.conn_state != InnerConnState::Open {
            return None;
        }
        if self.has_writer {
            Some(DirectMessage::IDontLikeWarnings(copy_bytes(latest_frame)))
        } else {
            None
        }
    }

    /// Takes in whether the write task took the sign of life.
    pub fn keepalive_written(&mut self, sent: bool)
        ensures
            final(self)@ == (if sent {
                ConnView { queue_len: counted(old(self)@.queue_len), ..old(self)@ }
            } else {
                ConnView { dropped_packets: counted(old(self)@.dropped_packets), ..old(self)@ }
            }),
    {
        if sent {
            self.queue_len = self.queue_len.wrapping_add(1);
        } else {
            self.dropped_packets = self.dropped_packets.wrapping_add(1);
        }
    }

    /// Takes in a message that was read, and tells what to do with it.
    pub fn on_read(&mut self, msg: DirectMessage) -> (r: ReadAction)
        ensures
            final(self)@ == (ConnView {
                rx_count: counted(old(self)@.rx_count),
                health: ConnHealthWindow { consecutive_read_timeouts: 0, ..old(self)@.health },
                ..old(self)@
            }),
            match msg@ {
                Ok(packet) => r matches ReadAction::Packet(m) && m@ == msg@,
                Err(frame) => if frame.len() == 0 {
                    r is Nothing
                } else {
                    r matches ReadAction::Frame(f) && f@ == frame
                },
            },
    {
        self.health.consecutive_read_timeouts = 0;
        self.rx_count = self.rx_count.wrapping_add(1);
        match msg {
            DirectMessage::IDontLikeWarnings(frame) => {
                if frame.len() == 0 {
                    ReadAction::Nothing
                } else {
                    ReadAction::Frame(frame)
                }
            },
            DirectMessage::IpPacket(pkg) => ReadAction::Packet(DirectMessage::IpPacket(pkg)),
        }
    }

    /// A read timed out.
    pub fn on_read_timeout(&mut self)
        ensures
            final(self)@ == (ConnView {
                health: ConnHealthWindow {
                    consecutive_read_timeouts: capped(old(self)@.health.consecutive_read_timeouts),
                    ..old(self)@.health
                },
                ..old(self)@
            }),
    {
        self.health.consecutive_read_timeouts = self.health.consecutive_read_timeouts.saturating_add(1);
    }

    /// The write task took a message out of its queue.
    pub fn on_dequeued(&mut self)
        ensures
            final(self)@ == (ConnView {
                queue_len: if old(self)@.queue_len > 0 {
                    (old(self)@.queue_len - 1) as usize
                } else {
                    0
                },
                ..old(self)@
            }),
    {
        self.queue_len = self.queue_len.saturating_sub(1);
    }

    /// Takes in what became of a datagram. The answer tells whether the connection has to
    /// be judged now.
    pub fn on_datagram(&mut self, outcome: DatagramOutcome) -> (r: bool)
        ensures
            r <==> outcome == DatagramOutcome::Failed,
            final(self)@ == ({
                let more = ConnHealthWindow {
                    consecutive_write_timeouts: capped(old(self)@.health.consecutive_write_timeouts),
                    ..old(self)@.health
                };
                match outcome {
                    DatagramOutcome::Sent => ConnView {
                        health: ConnHealthWindow { consecutive_write_timeouts: 0, ..old(self)@.health },
                        tx_count: counted(old(self)@.tx_count),
                        ..old(self)@
                    },
                    DatagramOutcome::Failed => ConnView { health: more, ..old(self)@ },
                    DatagramOutcome::TimedOut => ConnView {
                        health: more,
                        write_timeouts: counted(old(self)@.write_timeouts),
                        tx_count: counted(old(self)@.tx_count),
                        ..old(self)@
                    },
                }
            }),
    {
        match outcome {
            DatagramOutcome::Sent => {
                self.health.consecutive_write_timeouts = 0;
                self.tx_count = self.tx_count.wrapping_add(1);
                false
            },
            DatagramOutcome::Failed => {
                self.health.consecutive_write_timeouts = self.health.consecutive_write_timeouts.saturating_add(1);
                true
            },
            DatagramOutcome::TimedOut => {
                self.write_timeouts = self.write_timeouts.wrapping_add(1);
                self.health.consecutive_write_timeouts = self.health.consecutive_write_timeouts.saturating_add(1);
                self.tx_count = self.tx_count.wrapping_add(1);
                false
            },
        }
    }

    /// All paths are gone: the connection is dead. The answer tells whether the transport
    /// has to be closed now.
    pub fn on_paths_gone(&mut self) -> (r: bool)
        ensures
            r <==> old(self)@.state != InnerConnState::Closed,
            final(self)@ == (ConnView {
                state: InnerConnState::Closed,
                health: ConnHealthWindow { no_active_paths: true, ..old(self)@.health },
                ..old(self)@
            }),
    {
        self.health.no_active_paths = true;
        self.close()
    }
}

/// The first path that is selected, if one is.
pub open spec fn first_selected(paths: Seq<ConnPathSnapshot>) -> Option<ConnPathSnapshot>
    decreases paths.len(),
{
    if paths.len() == 0 {
        None
    } else if paths[0].is_selected {
        Some(paths[0])
    } else {
        first_selected(paths.drop_first())
    }
}

fn find_selected(paths: &[ConnPathSnapshot]) -> (r: Option<ConnPathSnapshot>)
    ensures
        r == first_selected(paths@),
{
    let mut i: usize = 0;
    assert(paths@.skip(0) =~= paths@);
    while i < paths.len()
        invariant
            i <= paths@.len(),
            first_selected(paths@) == first_selected(paths@.skip(i as int)),
        decreases paths@.len() - i,
    {
        if paths[i].is_selected {
            return Some(paths[i].clone());
        }
        assert(paths@.skip(i as int).drop_first() =~= paths@.skip(i + 1));
        i = i + 1;
    }
    None
}

/// What the transport tells, as plain values.
pub open spec fn info_of(info: Option<ConnInfo>) -> (Option<usize>, Seq<ConnPathSnapshot>, Option<u64>, Option<u64>, Option<u64>) {
    match info {
        Some(i) => (
            Some(i.stable_id),
            i.paths@,
            Some(i.lost_packets),
            Some(i.udp_tx_datagrams),
            Some(i.udp_rx_datagrams),
        ),
        None => (None, Seq::empty(), None, None, None),
    }
}

/// A count that may be missing counts as zero.
pub open spec fn or_zero(n: Option<u64>) -> u64 {
    match n {
        Some(v) => v,
        None => 0,
    }
}

impl ConnView {
    /// How alive the connection is, by what the transport tells now and what was seen
    /// before.
    pub open spec fn liveness(self, info: Option<ConnInfo>) -> ConnLiveness {
        let now = info_of(info);
        liveness_of(
            self.state,
            first_selected(now.1),
            now.1,
            self.rx_count > self.health.last_rx_count || or_zero(now.4) > self.health.last_udp_rx,
            or_zero(now.2) > self.health.last_lost,
            self.health,
        )
    }
}

impl ConnActor {
    /// Looks at the connection: judges it by what the transport tells, and remembers the
    /// counts for the next look.
    pub fn snapshot(&mut self, info: Option<ConnInfo>, idle_for_ms: u128) -> (r: ConnSnapshot)
        ensures
            final(self)@ == (ConnView {
                health: ConnHealthWindow {
                    last_rx_count: old(self)@.rx_count,
                    last_tx_count: old(self)@.tx_count,
                    last_udp_rx: or_zero(info_of(info).4),
                    last_udp_tx: or_zero(info_of(info).3),
                    last_lost: or_zero(info_of(info).2),
                    ..old(self)@.health
                },
                ..old(self)@
            }),
            r.conn_actor_id == old(self)@.id,
            r.peer == old(self)@.peer,
            r.quic_stable_id == info_of(info).0,
            r.side@ == (if old(self)@.is_open_side {
                "open"@
            } else {
                "accept"@
            }),
            r.state == old(self)@.state,
            r.liveness == old(self)@.liveness(info),
            r.idle_for_ms == idle_for_ms,
            r.rx_count == old(self)@.rx_count,
            r.tx_count == old(self)@.tx_count,
            r.queue_len == old(self)@.queue_len,
            r.write_timeouts == old(self)@.write_timeouts,
            r.consecutive_write_errors == old(self)@.consecutive_write_errors,
            r.consecutive_read_timeouts == old(self)@.health.consecutive_read_timeouts,
            r.consecutive_write_timeouts == old(self)@.health.consecutive_write_timeouts,
            r.no_active_paths == old(self)@.health.no_active_paths,
            r.dropped_packets == old(self)@.dropped_packets,
            r.total_lost_packets == info_of(info).2,
            r.total_udp_tx_datagrams == info_of(info).3,
            r.total_udp_rx_datagrams == info_of(info).4,
            r.selected_path == first_selected(info_of(info).1),
            r.paths@ == info_of(info).1,
    {
        let (stable_id, paths, lost, udp_tx, udp_rx) = match info {
            Some(i) => (
                Some(i.stable_id),
                i.paths,
                Some(i.lost_packets),
                Some(i.udp_tx_datagrams),
                Some(i.udp_rx_datagrams),
            ),
            None => (None, Vec::new(), None, None, None),
        };
        let selected_path = find_selected(paths.as_slice());
        let total_lost: u64 = lost.unwrap_or(0);
        let total_udp_tx: u64 = udp_tx.unwrap_or(0);
        let total_udp_rx: u64 = udp_rx.unwrap_or(0);
        let rx_progress = self.rx_count > self.health.last_rx_count || total_udp_rx > self.health.last_udp_rx;
        let tx_progress = self.tx_count > self.health.last_tx_count || total_udp_tx > self.health.last_udp_tx;
        let loss_jump = total_lost > self.health.last_lost;
        let liveness = classify_liveness(
            self.conn_state,
            selected_path.as_ref(),
            paths.as_slice(),
            rx_progress,
            tx_progress,
            loss_jump,
            &self.health,
        );
        let snapshot = ConnSnapshot {
            conn_actor_id: self.id,
            peer: self.conn_endpoint_id,
            quic_stable_id: stable_id,
            side: side_label(self.is_open_side),
            state: self.conn_state,
            liveness,
            idle_for_ms,
            rx_count: self.rx_count,
            tx_count: self.tx_count,
            queue_len: self.queue_len,
            write_timeouts: self.write_timeouts,
            consecutive_write_errors: self.consecutive_write_errors,
            consecutive_read_timeouts: self.health.consecutive_read_timeouts,
            consecutive_write_timeouts: self.health.consecutive_write_timeouts,
            no_active_paths: self.health.no_active_paths,
            dropped_packets: self.dropped_packets,
            total_lost_packets: lost,
            total_udp_tx_datagrams: udp_tx,
            total_udp_rx_datagrams: udp_rx,
            selected_path,
            paths,
        };
        self.health.last_rx_count = self.rx_count;
        self.health.last_tx_count = self.tx_count;
        self.health.last_udp_rx = total_udp_rx;
        self.health.last_udp_tx = total_udp_tx;
        self.health.last_lost = total_lost;
        snapshot
    }
}

/// A connection that is not open is dead, whatever the transport tells.
pub proof fn closed_connections_are_dead(c: ConnView, info: Option<ConnInfo>)
    requires
        c.state != InnerConnState::Open,
    ensures
        c.liveness(info) == ConnLiveness::Dead,
{
}

/// A connection without an open path is dead, and so is one without a transport.
pub proof fn pathless_connections_are_dead(c: ConnView, info: Option<ConnInfo>)
    requires
        info is None || !has_open_path(info.unwrap().paths@),
    ensures
        c.liveness(info) == ConnLiveness::Dead,
{
}

/// Something that arrived while the selected path is open makes an open connection
/// usable.
pub proof fn arrivals_make_usable(c: ConnView, info: ConnInfo)
    requires
        c.state == InnerConnState::Open,
        !c.health.no_active_paths,
        first_selected(info.paths@) matches Some(p) && !p.is_closed,
        c.rx_count > c.health.last_rx_count,
    ensures
        c.liveness(Some(info)) == ConnLiveness::Usable,
{
    lemma_selected_is_a_path(info.paths@);
}

proof fn lemma_selected_is_a_path(paths: Seq<ConnPathSnapshot>)
    ensures
        first_selected(paths) matches Some(p) ==> exists|i: int| 0 <= i < paths.len() && paths[i] == p,
    decreases paths.len(),
{
    if paths.len() > 0 && !paths[0].is_selected {
        lemma_selected_is_a_path(paths.drop_first());
        if first_selected(paths.drop_first()) is Some {
            let p = first_selected(paths.drop_first()).unwrap();
            let i = choose|i: int| 0 <= i < paths.drop_first().len() && paths.drop_first()[i] == p;
            assert(paths[i + 1] == p);
        }
    } else if paths.len() > 0 {
        assert(paths[0] == paths[0]);
    }
}

/// Messages leave in the order in which they came: the message that has waited longest
/// goes first, and a new one does not change which that is unless too many wait.
pub proof fn first_come_first_served(c: ConnView, message: MessageView)
    requires
        c.inv(),
    ensures
        c.enqueued(message).inv(),
        c.enqueued(message).waiting.last() == message,
        c.waiting.len() < MAX_SENDER_QUEUE ==> c.enqueued(message).waiting == c.waiting.push(message),
        c.waiting.len() == MAX_SENDER_QUEUE ==> c.enqueued(message).waiting == c.waiting.drop_first().push(
            message,
        ),
{
    if c.waiting.len() == MAX_SENDER_QUEUE {
        assert(c.enqueued(message).waiting =~= c.waiting.drop_first().push(message));
    }
}

/// What the read loop does after an error: a datagram of another protocol is passed
/// over, any other error ends the connection.
pub fn after_read_error(error: &ReadError) -> (r: LoopAction)
    ensures
        r == (if *error is Multiplex {
            LoopAction::Continue
        } else {
            LoopAction::CloseAndStop
        }),
{
    match error {
        ReadError::Multiplex(_) => LoopAction::Continue,
        _ => LoopAction::CloseAndStop,
    }
}

/// What the read loop does after a timeout, when the connection has been judged: it
/// ends the connection, unless it could not be judged.
pub fn after_read_timeout(liveness: Option<ConnLiveness>) -> (r: LoopAction)
    ensures
        r == (if liveness is Some {
            LoopAction::CloseAndStop
        } else {
            LoopAction::Continue
        }),
{
    match liveness {
        Some(_) => LoopAction::CloseAndStop,
        None => LoopAction::Continue,
    }
}

/// What the write loop does after a failure, when the connection has been judged: it
/// ends a dead connection and keeps any other.
pub fn after_write_failure(liveness: Option<ConnLiveness>) -> (r: LoopAction)
    ensures
        r == (if liveness is None || liveness == Some(ConnLiveness::Dead) {
            LoopAction::CloseAndStop
        } else {
            LoopAction::Continue
        }),
{
    match liveness {
        Some(ConnLiveness::Usable) => LoopAction::Continue,
        Some(ConnLiveness::Suspect) => LoopAction::Continue,
        _ => LoopAction::CloseAndStop,
    }
}

} // verus!
