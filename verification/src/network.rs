//! The network as a whole: between the device and the peers.
use vstd::prelude::*;
use vstd::string::StringExecFns;
use std::collections::HashMap;
use crate::direct_message::DirectMessage;
use crate::id::EndpointId;
use crate::ipv4::Ipv4Addr;
use crate::text::push_decimal;
use crate::tun::{Ipv4Pkg, TunEvent};

verus! {

broadcast use vstd::std_specs::hash::group_hash_axioms;

/// Where the logs of connections are written, and how their names start.
#[derive(Debug)]
pub struct LoggingQlogFactory {
    pub dir: String,
    pub prefix: String,
}

/// The name of a connection's log.
pub open spec fn qlog_name(prefix: Seq<char>, timestamp: u128, cid: Seq<char>, side: Seq<char>) -> Seq<char> {
    (if prefix.len() == 0 {
        Seq::empty()
    } else {
        prefix + "-"@
    }) + crate::text::decimal(timestamp as nat) + "-"@ + cid + "-"@ + side + ".qlog"@
}

impl LoggingQlogFactory {
    /// Logs go to `dir`, under names that start with `prefix`.
    pub fn new(dir: String, prefix: String) -> (r: Self)
        ensures
            r == (LoggingQlogFactory { dir, prefix }),
    {
        LoggingQlogFactory { dir, prefix }
    }

    /// The name of the log of a connection that began at `timestamp`, in milliseconds of
    /// the wall clock.
    pub fn file_name(&self, timestamp: u128, initial_dst_cid: &str, side_text: &str) -> (r: String)
        ensures
            r@ == qlog_name(self.prefix@, timestamp, initial_dst_cid@, side_text@),
    {
        let mut text = String::new();
        if self.prefix.as_str().unicode_len() > 0 {
            text.append(self.prefix.as_str());
            text.append("-");
        }
        push_decimal(&mut text, timestamp);
        text.append("-");
        text.append(initial_dst_cid);
        text.append("-");
        text.append(side_text);
        text.append(".qlog");
        assert(text@ =~= qlog_name(self.prefix@, timestamp, initial_dst_cid@, side_text@));
        text
    }
}

/// The subnet of the virtual network, which the transport must not use itself: its
/// address and the length of its prefix.
pub fn excluded_subnet(net_prefix: u16) -> (r: (Ipv4Addr, u8))
    ensures
        r.0 == crate::ipv4::ip_of(net_prefix, 0),
        r.1 == 16,
{
    (crate::ipv4::build_ip(net_prefix, 0), 16)
}

/// An address as a number.
pub open spec fn ip_number(ip: Ipv4Addr) -> u32 {
    (ip.a * 16_777_216 + ip.b * 65_536 + ip.c * 256 + ip.d) as u32
}

/// The number of the address in four bytes of a packet.
pub open spec fn address_number_at(packet: Seq<u8>, i: int) -> u32 {
    (packet[i] * 16_777_216 + packet[i + 1] * 65_536 + packet[i + 2] * 256 + packet[i + 3]) as u32
}

fn number_of(ip: Ipv4Addr) -> (r: u32)
    ensures
        r == ip_number(ip),
{
    (ip.a as u32) * 16_777_216 + (ip.b as u32) * 65_536 + (ip.c as u32) * 256 + (ip.d as u32)
}

proof fn lemma_parts(h1: int, l1: int, h2: int, l2: int, base: int)
    requires
        0 <= l1 < base,
        0 <= l2 < base,
        base == 256 || base == 65_536,
        h1 * base + l1 == h2 * base + l2,
    ensures
        h1 == h2,
        l1 == l2,
{
    if base == 256 {
        assert(h1 * 256 + l1 == h2 * 256 + l2);
    } else {
        assert(h1 * 65_536 + l1 == h2 * 65_536 + l2);
    }
}

/// Different addresses are different numbers.
pub proof fn ip_numbers_differ(a: Ipv4Addr, b: Ipv4Addr)
    requires
        ip_number(a) == ip_number(b),
    ensures
        a == b,
{
    let (a0, a1, a2, a3) = (a.a as int, a.b as int, a.c as int, a.d as int);
    let (b0, b1, b2, b3) = (b.a as int, b.b as int, b.c as int, b.d as int);
    lemma_parts(a0 * 256 + a1, a2 * 256 + a3, b0 * 256 + b1, b2 * 256 + b3, 65_536);
    lemma_parts(a0, a1, b0, b1, 256);
    lemma_parts(a2, a3, b2, b3, 256);
}

/// What has to be done to the device: close the one that is there, then make a new one.
#[derive(Clone, Copy, Debug, PartialEq, Eq, Structural)]
pub struct TunPlan {
    pub close: bool,
    pub create: Option<Ipv4Addr>,
}

/// The mathematical value of [`NetworkActor`].
#[verifier::ext_equal]
pub struct NetworkView {
    pub own: EndpointId,
    pub tun_up: bool,
    pub tun_ip: Option<Ipv4Addr>,
    /// Who has which address, by the number of the address.
    pub cache: Map<u32, EndpointId>,
}

impl NetworkView {
    /// Who gets a packet for `dest`, when the mesh names `found` for it: the cache comes
    /// first, and this node never sends to itself.
    pub open spec fn hop(self, dest: Ipv4Addr, found: Option<EndpointId>) -> Option<EndpointId> {
        let to = if self.cache.contains_key(ip_number(dest)) {
            Some(self.cache[ip_number(dest)])
        } else {
            found
        };
        if to == Some(self.own) {
            None
        } else {
            to
        }
    }
}

/// The network between the device and the peers.
#[derive(Debug)]
pub struct NetworkActor {
    own: EndpointId,
    tun_up: bool,
    tun_ip: Option<Ipv4Addr>,
    ip_cache: HashMap<u32, EndpointId>,
}

impl View for NetworkActor {
    type V = NetworkView;

    closed spec fn view(&self) -> NetworkView {
        NetworkView { own: self.own, tun_up: self.tun_up, tun_ip: self.tun_ip, cache: self.ip_cache@ }
    }
}

impl NetworkActor {
    /// A network without a device that knows no address.
    pub fn new(own: EndpointId) -> (r: Self)
        ensures
            r@ == (NetworkView { own, tun_up: false, tun_ip: None, cache: Map::empty() }),
    {
        NetworkActor { own, tun_up: false, tun_ip: None, ip_cache: HashMap::new() }
    }

    /// Whether the device is up. Packets flow only if it is.
    pub fn tun_is_up(&self) -> (r: bool)
        ensures
            r == self@.tun_up,
    {
        self.tun_up
    }

    /// The address of the last device that came up.
    pub fn tun_ip(&self) -> (r: Option<Ipv4Addr>)
        ensures
            r == self@.tun_ip,
    {
        self.tun_ip
    }

    /// Takes in what the mesh says of the device, and tells what to do.
    pub fn on_tun_event(&mut self, event: TunEvent) -> (r: TunPlan)
        ensures
            r == (match event {
                TunEvent::Configure { ip } => TunPlan { close: false, create: Some(ip) },
                TunEvent::Reconfigure { from, to } => TunPlan { close: old(self)@.tun_up, create: Some(to) },
                TunEvent::Teardown => TunPlan { close: old(self)@.tun_up, create: None },
            }),
            final(self)@ == (NetworkView {
                tun_up: old(self)@.tun_up && event is Configure,
                ..old(self)@
            }),
    {
        match event {
            TunEvent::Configure { ip } => TunPlan { close: false, create: Some(ip) },
            TunEvent::Reconfigure { from, to } => {
                let close = self.tun_up;
                self.tun_up = false;
                TunPlan { close, create: Some(to) }
            },
            TunEvent::Teardown => {
                let close = self.tun_up;
                self.tun_up = false;
                TunPlan { close, create: None }
            },
        }
    }

    /// A device with this address came up.
    pub fn on_tun_created(&mut self, ip: Ipv4Addr)
        ensures
            final(self)@ == (NetworkView { tun_up: true, tun_ip: Some(ip), ..old(self)@ }),
    {
        self.tun_ip = Some(ip);
        self.tun_up = true;
    }

    /// Takes in which address a peer has, if it has one. The answer tells whether a
    /// connection to the peer is wanted.
    pub fn on_mapping(&mut self, peer: EndpointId, ip: Option<Ipv4Addr>) -> (r: bool)
        ensures
            r <==> peer != old(self)@.own,
            final(self)@ == (if peer != old(self)@.own && ip is Some {
                NetworkView { cache: old(self)@.cache.insert(ip_number(ip.unwrap()), peer), ..old(self)@ }
            } else {
                old(self)@
            }),
    {
        if peer == self.own {
            return false;
        }
        if let Some(ip) = ip {
            self.ip_cache.insert(number_of(ip), peer);
        }
        true
    }

    /// The peer that the cache has for an address.
    pub fn cached(&self, dest: Ipv4Addr) -> (r: Option<EndpointId>)
        ensures
            r == (if self@.cache.contains_key(ip_number(dest)) {
                Some(self@.cache[ip_number(dest)])
            } else {
                None
            }),
    {
        match self.ip_cache.get(&number_of(dest)) {
            Some(peer) => Some(*peer),
            None => None,
        }
    }

    /// The peer that a packet from the device goes to, when the mesh names `found` for its
    /// destination.
    pub fn next_hop(&self, pkg: &Ipv4Pkg, found: Option<EndpointId>) -> (r: Option<EndpointId>)
        ensures
            r == (if pkg@.len() >= 20 {
                self@.hop(crate::packet::address_at(pkg@, 16), found)
            } else {
                None
            }),
            ({
                let n = address_number_at(pkg@, 16);
                let known = self@.cache.contains_key(n);
                &&& pkg@.len() >= 20 && known && self@.cache[n] != self@.own ==> r == Some(self@.cache[n])
                &&& pkg@.len() >= 20 && !known && found is Some && found != Some(self@.own) ==> r == found
                &&& pkg@.len() < 20 || known && self@.cache[n] == self@.own || !known && (found is None || found == Some(
                    self@.own,
                )) ==> r is None
            }),
    {
        let dest = match pkg.to_ipv4_packet() {
            Ok(h) => h.destination,
            Err(_) => {
                return None;
            },
        };
        let to = match self.cached(dest) {
            Some(peer) => Some(peer),
            None => found,
        };
        match to {
            Some(peer) => if peer == self.own {
                None
            } else {
                Some(peer)
            },
            None => None,
        }
    }

    /// The packet in a message from a peer, if it goes to the device.
    pub fn to_device(&self, message: DirectMessage) -> (r: Option<Ipv4Pkg>)
        ensures
            r is Some <==> self@.tun_up && message@ is Ok,
            r matches Some(pkg) ==> message@ == Ok::<Seq<u8>, Seq<u8>>(pkg@),
    {
        if !self.tun_up {
            return None;
        }
        match message {
            DirectMessage::IpPacket(pkg) => Some(pkg),
            DirectMessage::IDontLikeWarnings(_) => None,
        }
    }
}

/// No packet is sent to the node itself, whatever the cache and the mesh say.
pub proof fn never_to_oneself(n: NetworkView, dest: Ipv4Addr, found: Option<EndpointId>)
    ensures
        n.hop(dest, found) != Some(n.own),
{
}

/// A packet goes to the peer that the cache has for its destination, unless that is this
/// node; else to the one that the mesh names, unless that is this node; and nowhere only
/// if there is nobody, or only this node.
pub proof fn packets_find_their_peer(n: NetworkView, dest: Ipv4Addr, found: Option<EndpointId>)
    ensures
        ({
            let at = (dest.a * 16_777_216 + dest.b * 65_536 + dest.c * 256 + dest.d) as u32;
            let known = n.cache.contains_key(at);
            &&& known && n.cache[at] != n.own ==> n.hop(dest, found) == Some(n.cache[at])
            &&& !known && found is Some && found != Some(n.own) ==> n.hop(dest, found) == found
            &&& n.hop(dest, found) is None <==> known && n.cache[at] == n.own || !known && (found is None || found
                == Some(n.own))
        }),
{
}

/// The state of the device does not matter for where a packet goes.
pub proof fn device_does_not_route(
    n: NetworkView,
    tun_up: bool,
    tun_ip: Option<Ipv4Addr>,
    dest: Ipv4Addr,
    found: Option<EndpointId>,
)
    ensures
        (NetworkView { tun_up, tun_ip, ..n }).hop(dest, found) == n.hop(dest, found),
{
    packets_find_their_peer(n, dest, found);
    packets_find_their_peer(NetworkView { tun_up, tun_ip, ..n }, dest, found);
}

/// Once it is known which address another node has, packets for that address go to it,
/// whatever the mesh says, and packets for all other addresses go where they went before.
pub proof fn mappings_route_packets(n: NetworkView, peer: EndpointId, ip: Ipv4Addr, dest: Ipv4Addr, found: Option<EndpointId>)
    requires
        peer != n.own,
    ensures
        ({
            let after = NetworkView { cache: n.cache.insert(ip_number(ip), peer), ..n };
            &&& after.hop(ip, found) == Some(peer)
            &&& dest != ip ==> after.hop(dest, found) == n.hop(dest, found)
        }),
{
    if ip_number(dest) == ip_number(ip) {
        ip_numbers_differ(dest, ip);
    }
}

/// The name of a log holds, in this order, the prefix with a dash behind it if there is one, the
/// time, the connection and the side.
pub proof fn log_names_hold_everything(prefix: Seq<char>, timestamp: u128, cid: Seq<char>, side: Seq<char>)
    ensures
        prefix.len() > 0 ==> qlog_name(prefix, timestamp, cid, side) == prefix + "-"@ + qlog_name(
            Seq::empty(),
            timestamp,
            cid,
            side,
        ),
        qlog_name(Seq::empty(), timestamp, cid, side) == crate::text::decimal(timestamp as nat) + "-"@ + cid + "-"@
            + side + ".qlog"@,
{
    assert(qlog_name(Seq::empty(), timestamp, cid, side) =~= crate::text::decimal(timestamp as nat) + "-"@ + cid + "-"@
        + side + ".qlog"@);
    if prefix.len() > 0 {
        assert(qlog_name(prefix, timestamp, cid, side) =~= prefix + "-"@ + qlog_name(
            Seq::empty(),
            timestamp,
            cid,
            side,
        ));
    }
}

} // verus!
