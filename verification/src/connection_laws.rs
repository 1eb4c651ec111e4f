//! What holds of connections: what makes one usable, suspect or dead, and what becomes of
//! the messages that wait for it.
use vstd::prelude::*;
use crate::connection;
use crate::connection::{
    ConnHealthWindow, ConnInfo, ConnLiveness, ConnPathSnapshot, ConnView, InnerConnState, MessageView,
};
use crate::ipv4::Ipv4Addr;

verus! {

/// One of the paths has not been closed.
pub open spec fn some_path_is_open(paths: Seq<ConnPathSnapshot>) -> bool {
    exists|i: int| 0 <= i < paths.len() && !(#[trigger] paths[i]).is_closed
}

/// `i` is the first of the paths that is selected.
pub open spec fn selected_at(paths: Seq<ConnPathSnapshot>, i: int) -> bool {
    &&& 0 <= i < paths.len()
    &&& paths[i].is_selected
    &&& forall|j: int| 0 <= j < i ==> !(#[trigger] paths[j]).is_selected
}

/// The evidence decides, and nothing else: a connection is usable exactly if it is open, has
/// paths, and something arrived while the selected path is open; it is dead exactly if it
/// is not open or has no path left, or if three reads in a row timed out, nothing arrived,
/// and the selected path swallows packets, packets were lost, or three writes in a
/// row timed out.
pub proof fn evidence_decides(
    state: InnerConnState,
    selected: Option<ConnPathSnapshot>,
    paths: Seq<ConnPathSnapshot>,
    rx_progress: bool,
    loss_jump: bool,
    health: ConnHealthWindow,
)
    ensures
        ({
            let r = connection::liveness_of(state, selected, paths, rx_progress, loss_jump, health);
            let whole = state == InnerConnState::Open && !health.no_active_paths && some_path_is_open(paths);
            let swallows = selected matches Some(p) && p.black_holes_detected matches Some(n) && n > 0;
            &&& r == ConnLiveness::Usable <==> whole && rx_progress && (selected matches Some(p) && !p.is_closed)
            &&& r == ConnLiveness::Dead <==> !whole || health.consecutive_read_timeouts >= 3 && !rx_progress && (
            swallows || loss_jump || health.consecutive_write_timeouts >= 3)
        }),
{
    assert(connection::has_open_path(paths) == some_path_is_open(paths));
}

/// An open connection with an open path is not given up while fewer than three reads in a
/// row timed out, whatever was lost and however many writes failed.
pub proof fn losses_alone_do_not_kill(
    selected: Option<ConnPathSnapshot>,
    paths: Seq<ConnPathSnapshot>,
    rx_progress: bool,
    loss_jump: bool,
    health: ConnHealthWindow,
    i: int,
)
    requires
        0 <= i < paths.len(),
        !paths[i].is_closed,
        !health.no_active_paths,
        health.consecutive_read_timeouts < 3,
    ensures
        connection::liveness_of(InnerConnState::Open, selected, paths, rx_progress, loss_jump, health) != ConnLiveness::Dead,
{
    evidence_decides(InnerConnState::Open, selected, paths, rx_progress, loss_jump, health);
}

/// Something that arrives keeps an open connection with an open path alive, whatever
/// speaks against it.
pub proof fn arrivals_keep_alive(
    selected: Option<ConnPathSnapshot>,
    paths: Seq<ConnPathSnapshot>,
    loss_jump: bool,
    health: ConnHealthWindow,
    i: int,
)
    requires
        0 <= i < paths.len(),
        !paths[i].is_closed,
        !health.no_active_paths,
    ensures
        connection::liveness_of(InnerConnState::Open, selected, paths, true, loss_jump, health) != ConnLiveness::Dead,
{
    evidence_decides(InnerConnState::Open, selected, paths, true, loss_jump, health);
}

/// Three reads that time out while nothing arrives, together with a path that swallows
/// packets, with losses, or with three writes that time out, are the end of a connection.
pub proof fn silence_and_trouble_kill(
    state: InnerConnState,
    selected: Option<ConnPathSnapshot>,
    paths: Seq<ConnPathSnapshot>,
    loss_jump: bool,
    health: ConnHealthWindow,
)
    requires
        health.consecutive_read_timeouts >= 3,
        loss_jump || health.consecutive_write_timeouts >= 3 || (selected matches Some(p)
            && p.black_holes_detected matches Some(n) && n > 0),
    ensures
        connection::liveness_of(state, selected, paths, false, loss_jump, health) == ConnLiveness::Dead,
{
    evidence_decides(state, selected, paths, false, loss_jump, health);
}

/// The selected path is the first one that is marked so; there is none if no path is.
pub proof fn first_selected_is_taken(paths: Seq<ConnPathSnapshot>)
    ensures
        forall|i: int| #[trigger] selected_at(paths, i) ==> connection::first_selected(paths) == Some(paths[i]),
        connection::first_selected(paths) is None <==> forall|i: int| 0 <= i < paths.len() ==> !(#[trigger] paths[i]).is_selected,
    decreases paths.len(),
{
    if paths.len() > 0 && !paths[0].is_selected {
        let rest = paths.drop_first();
        first_selected_is_taken(rest);
        assert forall|i: int| #[trigger] selected_at(paths, i) implies connection::first_selected(paths) == Some(paths[i]) by {
            assert(rest[i - 1] == paths[i]);
            assert forall|j: int| 0 <= j < i - 1 implies !(#[trigger] rest[j]).is_selected by {
                assert(rest[j] == paths[j + 1]);
            }
            assert(selected_at(rest, i - 1));
        }
        if connection::first_selected(rest) is None {
            assert forall|i: int| 0 <= i < paths.len() implies !(#[trigger] paths[i]).is_selected by {
                if i > 0 {
                    assert(rest[i - 1] == paths[i]);
                }
            }
        }
        if forall|i: int| 0 <= i < paths.len() ==> !(#[trigger] paths[i]).is_selected {
            assert forall|i: int| 0 <= i < rest.len() implies !(#[trigger] rest[i]).is_selected by {
                assert(rest[i] == paths[i + 1]);
            }
        }
    }
}

/// A look at a connection compares with the last one: something arrived if the messages that
/// were read or the datagrams that were received are more than then, and packets were
/// lost if the lost ones are more than then.
pub proof fn looks_compare_counts(c: ConnView, info: ConnInfo, i: int)
    requires
        selected_at(info.paths@, i),
    ensures
        ({
            let r = c.liveness(Some(info));
            let arrived = c.rx_count > c.health.last_rx_count || info.udp_rx_datagrams > c.health.last_udp_rx;
            let path = info.paths@[i];
            let whole = c.state == InnerConnState::Open && !c.health.no_active_paths && some_path_is_open(info.paths@);
            &&& r == ConnLiveness::Usable <==> whole && arrived && !path.is_closed
            &&& r == ConnLiveness::Dead <==> !whole || c.health.consecutive_read_timeouts >= 3 && !arrived && ((
            path.black_holes_detected matches Some(n) && n > 0) || info.lost_packets > c.health.last_lost
                || c.health.consecutive_write_timeouts >= 3)
        }),
{
    first_selected_is_taken(info.paths@);
    evidence_decides(
        c.state,
        connection::first_selected(info.paths@),
        info.paths@,
        c.rx_count > c.health.last_rx_count || info.udp_rx_datagrams > c.health.last_udp_rx,
        info.lost_packets > c.health.last_lost,
        c.health,
    );
}

/// Without a selected path a connection is never usable, but three reads in a row have to
/// time out before it is dead.
pub proof fn unselected_connections_are_suspect(c: ConnView, info: ConnInfo)
    requires
        forall|i: int| 0 <= i < info.paths@.len() ==> !(#[trigger] info.paths@[i]).is_selected,
        c.state == InnerConnState::Open,
        !c.health.no_active_paths,
        some_path_is_open(info.paths@),
        c.health.consecutive_read_timeouts < 3,
    ensures
        c.liveness(Some(info)) == ConnLiveness::Suspect,
{
    first_selected_is_taken(info.paths@);
    evidence_decides(
        c.state,
        None,
        info.paths@,
        c.rx_count > c.health.last_rx_count || info.udp_rx_datagrams > c.health.last_udp_rx,
        info.lost_packets > c.health.last_lost,
        c.health,
    );
}

/// What the transport tells is taken as it is, and counts that it does not tell are zero.
pub proof fn reports_are_taken_as_they_are(info: ConnInfo, n: u64)
    ensures
        connection::info_of(Some(info)) == (
            Some(info.stable_id),
            info.paths@,
            Some(info.lost_packets),
            Some(info.udp_tx_datagrams),
            Some(info.udp_rx_datagrams),
        ),
        connection::info_of(None).0 is None && connection::info_of(None).1.len() == 0 && connection::info_of(None).2 is None && connection::info_of(None).3 is None
            && connection::info_of(None).4 is None,
        connection::or_zero(Some(n)) == n,
        connection::or_zero(None) == 0,
{
}

/// A message that comes to wait stands last. All others keep their places, except that
/// with 50000 waiting the oldest is given up.
pub proof fn messages_wait_in_line(c: ConnView, message: MessageView)
    requires
        c.waiting.len() <= 50_000,
    ensures
        ({
            let r = c.enqueued(message);
            let gone: int = if c.waiting.len() == 50_000 {
                1
            } else {
                0
            };
            &&& r.waiting.len() == c.waiting.len() + 1 - gone
            &&& r.waiting.last() == message
            &&& forall|i: int| gone <= i < c.waiting.len() ==> #[trigger] c.waiting[i] == r.waiting[i - gone]
            &&& r == (ConnView { waiting: r.waiting, ..c })
        }),
{
}

/// Of any messages the newest 50000 are kept, in their order.
pub proof fn the_newest_are_kept(messages: Seq<MessageView>)
    ensures
        messages.len() <= 50_000 ==> connection::newest(messages) == messages,
        messages.len() > 50_000 ==> connection::newest(messages).len() == 50_000 && forall|i: int|
            0 <= i < 50_000 ==> #[trigger] connection::newest(messages)[i] == messages[messages.len() - 50_000 + i],
{
}

/// Counts grow by one. At the end of the numbers one kind starts again from zero and the
/// other stays.
pub proof fn counts_grow_by_one(n: usize)
    ensures
        n < usize::MAX ==> connection::counted(n) == n + 1 && connection::capped(n) == n + 1,
        n == usize::MAX ==> connection::counted(n) == 0 && connection::capped(n) == n,
{
}

/// A message has a destination exactly if it is a packet with the bytes of a header, and
/// the destination is the address in the bytes from 16 on.
pub proof fn packets_have_destinations(message: MessageView, ip: Ipv4Addr)
    ensures
        connection::destination_of(message) == Some(ip) <==> (message matches Ok(p) && p.len() >= 20 && p[16] == ip.a && p[17]
            == ip.b && p[18] == ip.c && p[19] == ip.d),
        connection::destination_of(message) is None <==> (message is Err || message->Ok_0.len() < 20),
{
}

/// A connection starts with nothing seen.
pub proof fn health_starts_clean()
    ensures
        ({
            let h = ConnHealthWindow::fresh();
            &&& h.last_rx_count == 0 && h.last_tx_count == 0
            &&& h.last_udp_rx == 0 && h.last_udp_tx == 0 && h.last_lost == 0
            &&& h.consecutive_read_timeouts == 0 && h.consecutive_write_timeouts == 0
            &&& !h.no_active_paths
        }),
{
}

} // verus!
