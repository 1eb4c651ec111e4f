//! The text of what is seen of a connection.
use vstd::prelude::*;
use vstd::string::StringExecFns;
use crate::connection::{ConnPathSnapshot, ConnSnapshot, InnerConnState};
use crate::text::{push_bool, push_decimal, push_hex, push_optional};

verus! {

/// The text of a state.
pub open spec fn state_text(state: InnerConnState) -> Seq<char> {
    match state {
        InnerConnState::Connecting => "Connecting"@,
        InnerConnState::Open => "Open"@,
        InnerConnState::Closed => "Closed"@,
    }
}

/// A number that may be missing, for its text.
pub open spec fn wide(n: Option<u64>) -> Option<u128> {
    match n {
        Some(v) => Some(v as u128),
        None => None,
    }
}

/// A number that may be missing, for its text.
pub open spec fn wide16(n: Option<u16>) -> Option<u128> {
    match n {
        Some(v) => Some(v as u128),
        None => None,
    }
}

/// A number that may be missing, for its text.
pub open spec fn wide_size(n: Option<usize>) -> Option<u128> {
    match n {
        Some(v) => Some(v as u128),
        None => None,
    }
}

fn push_u64(text: &mut String, n: Option<u64>)
    ensures
        final(text)@ == old(text)@ + crate::text::optional(wide(n)),
{
    match n {
        Some(v) => {
            push_optional(text, Some(v as u128));
        },
        None => {
            push_optional(text, None);
        },
    }
}

fn push_u16(text: &mut String, n: Option<u16>)
    ensures
        final(text)@ == old(text)@ + crate::text::optional(wide16(n)),
{
    match n {
        Some(v) => {
            push_optional(text, Some(v as u128));
        },
        None => {
            push_optional(text, None);
        },
    }
}

fn push_size(text: &mut String, n: Option<usize>)
    ensures
        final(text)@ == old(text)@ + crate::text::optional(wide_size(n)),
{
    match n {
        Some(v) => {
            push_optional(text, Some(v as u128));
        },
        None => {
            push_optional(text, None);
        },
    }
}

/// The text of a path.
pub open spec fn path_text(p: ConnPathSnapshot) -> Seq<char> {
    "path_id="@ + p.path_id@ + " remote_addr="@ + p.remote_addr@ + " selected="@ + crate::text::boolean(
        p.is_selected,
    ) + " closed="@ + crate::text::boolean(p.is_closed) + " rtt_ms="@ + crate::text::optional(p.rtt_ms)
        + " lost_packets="@ + crate::text::optional(wide(p.lost_packets)) + " black_holes="@
        + crate::text::optional(wide(p.black_holes_detected)) + " mtu="@ + crate::text::optional(
        wide16(p.current_mtu),
    ) + " udp_tx_dgrams="@ + crate::text::optional(wide(p.udp_tx_datagrams)) + " udp_rx_dgrams="@
        + crate::text::optional(wide(p.udp_rx_datagrams))
}

/// The texts of several paths, parted by bars.
pub open spec fn paths_text(paths: Seq<ConnPathSnapshot>) -> Seq<char>
    decreases paths.len(),
{
    if paths.len() == 0 {
        Seq::empty()
    } else if paths.len() == 1 {
        path_text(paths[0])
    } else {
        paths_text(paths.drop_last()) + " | "@ + path_text(paths.last())
    }
}

impl ConnPathSnapshot {
    /// The text of this path.
    pub fn to_text(&self) -> (r: String)
        ensures
            r@ == path_text(*self),
    {
        let mut text = String::new();
        text.append("path_id=");
        text.append(self.path_id.as_str());
        text.append(" remote_addr=");
        text.append(self.remote_addr.as_str());
        text.append(" selected=");
        push_bool(&mut text, self.is_selected);
        text.append(" closed=");
        push_bool(&mut text, self.is_closed);
        text.append(" rtt_ms=");
        push_optional(&mut text, self.rtt_ms);
        text.append(" lost_packets=");
        push_u64(&mut text, self.lost_packets);
        text.append(" black_holes=");
        push_u64(&mut text, self.black_holes_detected);
        text.append(" mtu=");
        push_u16(&mut text, self.current_mtu);
        text.append(" udp_tx_dgrams=");
        push_u64(&mut text, self.udp_tx_datagrams);
        text.append(" udp_rx_dgrams=");
        push_u64(&mut text, self.udp_rx_datagrams);
        assert(text@ =~= path_text(*self));
        text
    }
}

/// The texts of several paths, parted by bars.
pub fn join_paths(paths: &[ConnPathSnapshot]) -> (r: String)
    ensures
        r@ == paths_text(paths@),
{
    let mut text = String::new();
    let mut i: usize = 0;
    assert(text@ =~= paths_text(paths@.take(0)));
    while i < paths.len()
        invariant
            i <= paths@.len(),
            text@ == paths_text(paths@.take(i as int)),
        decreases paths@.len() - i,
    {
        let one = paths[i].to_text();
        if i > 0 {
            text.append(" | ");
        }
        text.append(one.as_str());
        i = i + 1;
        proof {
            let t = paths@.take(i as int);
            assert(t.drop_last() =~= paths@.take(i - 1));
            assert(text@ =~= paths_text(t));
        }
    }
    assert(paths@.take(i as int) =~= paths@);
    text
}

/// The text of a connection as it was seen.
pub open spec fn snapshot_text(s: ConnSnapshot) -> Seq<char> {
    "conn_actor_id="@ + crate::text::decimal(s.conn_actor_id as nat) + " peer="@ + crate::text::hex(
        s.peer.bytes@,
    ) + " quic_stable_id="@ + crate::text::optional(wide_size(s.quic_stable_id)) + " side="@ + s.side@
        + " state="@ + state_text(s.state) + " liveness="@ + s.liveness.text() + " idle_for_ms="@
        + crate::text::decimal(s.idle_for_ms as nat) + " rx_count="@ + crate::text::decimal(s.rx_count as nat)
        + " tx_count="@ + crate::text::decimal(s.tx_count as nat) + " queue_len="@ + crate::text::decimal(
        s.queue_len as nat,
    ) + " write_timeouts="@ + crate::text::decimal(s.write_timeouts as nat) + " consecutive_write_errors="@
        + crate::text::decimal(s.consecutive_write_errors as nat) + " consecutive_read_timeouts="@
        + crate::text::decimal(s.consecutive_read_timeouts as nat) + " consecutive_write_timeouts="@
        + crate::text::decimal(s.consecutive_write_timeouts as nat) + " no_active_paths="@ + crate::text::boolean(
        s.no_active_paths,
    ) + " dropped_packets="@ + crate::text::decimal(s.dropped_packets as nat) + " total_lost_packets="@
        + crate::text::optional(wide(s.total_lost_packets)) + " total_udp_tx_dgrams="@ + crate::text::optional(
        wide(s.total_udp_tx_datagrams),
    ) + " total_udp_rx_dgrams="@ + crate::text::optional(wide(s.total_udp_rx_datagrams)) + " selected_path=["@ + (
    match s.selected_path {
        Some(p) => path_text(p),
        None => "none"@,
    }) + "] paths=["@ + (if s.paths@.len() == 0 {
        "none"@
    } else {
        paths_text(s.paths@)
    }) + "]"@
}

impl ConnSnapshot {
    fn push_counts(&self, text: &mut String)
        ensures
            final(text)@ == old(text)@ + " idle_for_ms="@ + crate::text::decimal(self.idle_for_ms as nat)
                + " rx_count="@ + crate::text::decimal(self.rx_count as nat) + " tx_count="@
                + crate::text::decimal(self.tx_count as nat) + " queue_len="@ + crate::text::decimal(
                self.queue_len as nat,
            ) + " write_timeouts="@ + crate::text::decimal(self.write_timeouts as nat)
                + " consecutive_write_errors="@ + crate::text::decimal(self.consecutive_write_errors as nat)
                + " consecutive_read_timeouts="@ + crate::text::decimal(self.consecutive_read_timeouts as nat)
                + " consecutive_write_timeouts="@ + crate::text::decimal(self.consecutive_write_timeouts as nat),
    {
        text.append(" idle_for_ms=");
        push_decimal(text, self.idle_for_ms);
        text.append(" rx_count=");
        push_decimal(text, self.rx_count as u128);
        text.append(" tx_count=");
        push_decimal(text, self.tx_count as u128);
        text.append(" queue_len=");
        push_decimal(text, self.queue_len as u128);
        text.append(" write_timeouts=");
        push_decimal(text, self.write_timeouts as u128);
        text.append(" consecutive_write_errors=");
        push_decimal(text, self.consecutive_write_errors as u128);
        text.append(" consecutive_read_timeouts=");
        push_decimal(text, self.consecutive_read_timeouts as u128);
        text.append(" consecutive_write_timeouts=");
        push_decimal(text, self.consecutive_write_timeouts as u128);
    }

    /// The text of this snapshot.
    pub fn to_text(&self) -> (r: String)
        ensures
            r@ == snapshot_text(*self),
    {
        let mut text = String::new();
        text.append("conn_actor_id=");
        push_decimal(&mut text, self.conn_actor_id as u128);
        text.append(" peer=");
        push_hex(&mut text, &self.peer.bytes);
        text.append(" quic_stable_id=");
        push_size(&mut text, self.quic_stable_id);
        text.append(" side=");
        text.append(self.side);
        text.append(" state=");
        match self.state {
            InnerConnState::Connecting => {
                text.append("Connecting");
            },
            InnerConnState::Open => {
                text.append("Open");
            },
            InnerConnState::Closed => {
                text.append("Closed");
            },
        }
        text.append(" liveness=");
        text.append(self.liveness.to_text());
        self.push_counts(&mut text);
        text.append(" no_active_paths=");
        push_bool(&mut text, self.no_active_paths);
        text.append(" dropped_packets=");
        push_decimal(&mut text, self.dropped_packets as u128);
        text.append(" total_lost_packets=");
        push_u64(&mut text, self.total_lost_packets);
        text.append(" total_udp_tx_dgrams=");
        push_u64(&mut text, self.total_udp_tx_datagrams);
        text.append(" total_udp_rx_dgrams=");
        push_u64(&mut text, self.total_udp_rx_datagrams);
        text.append(" selected_path=[");
        match &self.selected_path {
            Some(p) => {
                let one = p.to_text();
                text.append(one.as_str());
            },
            None => {
                text.append("none");
            },
        }
        text.append("] paths=[");
        if self.paths.len() == 0 {
            text.append("none");
        } else {
            let all = join_paths(self.paths.as_slice());
            text.append(all.as_str());
        }
        text.append("]");
        assert(text@ =~= snapshot_text(*self));
        text
    }
}

/// The texts of paths are joined in their order, with a bar between any two, and a single path
/// stands alone.
pub proof fn paths_are_joined_by_bars(first: Seq<ConnPathSnapshot>, second: Seq<ConnPathSnapshot>, path: ConnPathSnapshot)
    requires
        first.len() > 0,
        second.len() > 0,
    ensures
        paths_text(first + second) == paths_text(first) + " | "@ + paths_text(second),
        paths_text(seq![path]) == path_text(path),
    decreases second.len(),
{
    let rest = second.drop_last();
    assert((first + second).drop_last() =~= first + rest);
    assert((first + second).last() == second.last());
    if second.len() == 1 {
        assert(first + rest =~= first);
        assert(second.last() == second[0]);
    } else {
        paths_are_joined_by_bars(first, rest, path);
        assert(paths_text(first + second) =~= paths_text(first) + " | "@ + paths_text(second));
    }
}

} // verus!
