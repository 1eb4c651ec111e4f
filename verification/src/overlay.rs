//! The overlay: the mesh at work between gossip, peers and the device.
use vstd::prelude::*;
use crate::id::EndpointId;
use crate::ipv4::{build_ip, Ipv4Addr};
use crate::keys::SecretKey;
use crate::mesh::{Config, EventView, MeshEvent, MeshView, TunDirective};
use crate::node::{MeshError, NodeState, WallMs};
use crate::secrets::topic_hash;
use crate::state::{Frame, State};
use crate::tun::TunEvent;

verus! {

/// The settings of an overlay.
#[derive(Debug)]
pub struct Builder {
    network_name: String,
    password: String,
    state_config: Config,
}

impl Builder {
    /// The name of the network.
    pub closed spec fn spec_name(&self) -> Seq<char> {
        self.network_name@
    }

    /// The password of the network.
    pub closed spec fn spec_password(&self) -> Seq<char> {
        self.password@
    }

    /// The settings of the mesh.
    pub closed spec fn spec_config(&self) -> Config {
        self.state_config
    }

    /// No name, no password, and the usual settings.
    pub fn new() -> (r: Self)
        ensures
            r.spec_name() == Seq::<char>::empty(),
            r.spec_password() == Seq::<char>::empty(),
            r.spec_config() == Config::usual(),
    {
        let r = Builder { network_name: String::new(), password: String::new(), state_config: Config::default() };
        assert(r.network_name@ =~= Seq::<char>::empty());
        assert(r.password@ =~= Seq::<char>::empty());
        r
    }

    /// Sets the name of the network.
    pub fn network_name(self, network_name: &str) -> (r: Self)
        ensures
            r.spec_name() == network_name@,
            r.spec_password() == self.spec_password(),
            r.spec_config() == self.spec_config(),
    {
        Builder { network_name: network_name.to_owned(), ..self }
    }

    /// Sets the password of the network.
    pub fn password(self, password: &str) -> (r: Self)
        ensures
            r.spec_name() == self.spec_name(),
            r.spec_password() == password@,
            r.spec_config() == self.spec_config(),
    {
        Builder { password: password.to_owned(), ..self }
    }

    /// Sets the settings of the mesh.
    pub fn config(self, config: Config) -> (r: Self)
        ensures
            r.spec_name() == self.spec_name(),
            r.spec_password() == self.spec_password(),
            r.spec_config() == config,
    {
        Builder { state_config: config, ..self }
    }

    /// The topic under which the nodes of the network find each other.
    pub fn topic(&self) -> (r: [u8; 32])
        ensures
            r == crate::hashes::blake3_digest(
                crate::secrets::utf8("iroh-lan-topic"@) + crate::secrets::utf8(
                    crate::secrets::secret_initials(self.spec_name(), self.spec_password()),
                ),
            ),
    {
        topic_hash(self.network_name.as_str(), self.password.as_str())
    }

    /// The overlay of a node that starts now.
    pub fn build(&self, secret_key: &SecretKey, now_ms: Option<WallMs>) -> (r: OverlayActor)
        ensures
            r.wf(),
            now_ms matches Some(t) ==> r@ == MeshView::started(*secret_key, self.spec_config(), t),
            exists|t: WallMs| r@ == #[trigger] MeshView::started(*secret_key, self.spec_config(), t),
    {
        OverlayActor { state: State::new(secret_key, self.state_config, now_ms) }
    }
}

/// What gossip tells.
#[derive(Clone, Copy, Debug)]
pub enum GossipEvent {
    NeighborUp(EndpointId),
    NeighborDown(EndpointId),
    /// Anything else. The state is exchanged with signs of life instead.
    Other,
}

/// What the overlay asks of its surroundings.
#[derive(Clone, Copy, Debug, PartialEq, Eq)]
pub enum OverlayAction {
    /// The device has to change.
    Tun(TunEvent),
    /// A peer has this address now, or none.
    Mapping(EndpointId, Option<Ipv4Addr>),
}

/// What came of an event: frames to be sent, and actions.
#[derive(Debug)]
pub struct Outputs {
    pub frames: Vec<(EndpointId, Frame)>,
    pub actions: Vec<OverlayAction>,
}

/// What an event of the mesh asks for, under a prefix.
pub open spec fn action_of(prefix: u16, event: EventView) -> Option<OverlayAction> {
    match event {
        EventView::Tun(TunDirective::Configure { ip }) => Some(
            OverlayAction::Tun(TunEvent::Configure { ip: crate::ipv4::ip_of(prefix, ip) }),
        ),
        EventView::Tun(TunDirective::Reconfigure { from, to }) => Some(
            OverlayAction::Tun(
                TunEvent::Reconfigure {
                    from: crate::ipv4::ip_of(prefix, from),
                    to: crate::ipv4::ip_of(prefix, to),
                },
            ),
        ),
        EventView::Tun(TunDirective::Teardown { from }) => Some(OverlayAction::Tun(TunEvent::Teardown)),
        EventView::PeerChanged { peer, state } => Some(
            OverlayAction::Mapping(peer, state.ip_claim.spec_ipv4(prefix)),
        ),
        EventView::PeerDisconnected { peer } => None,
        EventView::ClaimResolved { ip, winner, loser } => None,
    }
}

/// What the events of the mesh ask for, in their order.
pub open spec fn actions_of(prefix: u16, events: Seq<EventView>) -> Seq<OverlayAction>
    decreases events.len(),
{
    if events.len() == 0 {
        Seq::empty()
    } else {
        let rest = actions_of(prefix, events.drop_last());
        match action_of(prefix, events.last()) {
            Some(a) => rest.push(a),
            None => rest,
        }
    }
}

fn translate(prefix: u16, event: &MeshEvent) -> (r: Option<OverlayAction>)
    ensures
        r == action_of(prefix, event@),
{
    match event {
        MeshEvent::Tun(TunDirective::Configure { ip }) => Some(
            OverlayAction::Tun(TunEvent::Configure { ip: build_ip(prefix, *ip) }),
        ),
        MeshEvent::Tun(TunDirective::Reconfigure { from, to }) => Some(
            OverlayAction::Tun(
                TunEvent::Reconfigure { from: build_ip(prefix, *from), to: build_ip(prefix, *to) },
            ),
        ),
        MeshEvent::Tun(TunDirective::Teardown { from }) => Some(OverlayAction::Tun(TunEvent::Teardown)),
        MeshEvent::PeerChanged { peer, state } => Some(
            OverlayAction::Mapping(*peer, state.ip_claim.to_ipv4(prefix)),
        ),
        MeshEvent::PeerDisconnected { peer } => None,
        MeshEvent::ClaimResolved { ip, winner, loser } => None,
    }
}

/// The mesh of a running node.
pub struct OverlayActor {
    state: State,
}

impl View for OverlayActor {
    type V = MeshView;

    closed spec fn view(&self) -> MeshView {
        self.state@
    }
}

/// The frames of some outputs.
pub open spec fn frames_of(outputs: Outputs) -> Seq<(EndpointId, Seq<u8>)> {
    outputs.frames@.map_values(|o: (EndpointId, Frame)| (o.0, o.1@))
}

/// Everything that waited in `s` is in `outputs`, and `after` is what is left.
pub open spec fn handed_over(s: MeshView, outputs: Outputs, after: MeshView) -> bool {
    &&& frames_of(outputs) == s.outbound
    &&& outputs.actions@ == actions_of(s.config.net_prefix, s.events)
    &&& after == (MeshView { outbound: Seq::empty(), events: Seq::empty(), ..s })
}

impl OverlayActor {
    /// The state of the mesh is in order.
    pub closed spec fn wf(&self) -> bool {
        self.state.wf()
    }

    /// The time between two ticks, in milliseconds.
    pub fn tick_interval(&self) -> (r: u64)
        ensures
            r == self@.config.tick_interval,
    {
        self.state.config().tick_interval
    }

    /// Whether the node can announce itself `n` more times at time `now_ms`.
    pub fn has_room(&self, n: u64, now_ms: WallMs) -> (r: bool)
        requires
            self.wf(),
        ensures
            r == self@.room(n as int, now_ms),
    {
        self.state.own().version.counter <= u64::MAX - n || now_ms > self.state.own().version.wall_ms
    }

    fn process_event(&mut self) -> (r: Outputs)
        requires
            old(self).wf(),
        ensures
            final(self).wf(),
            handed_over(old(self)@, r, final(self)@),
    {
        let prefix: u16 = self.state.config().net_prefix;
        let frames = self.state.drain_outbound();
        let events = self.state.drain_events();
        let ghost all = events@.map_values(|e: MeshEvent| e@);
        let mut actions: Vec<OverlayAction> = Vec::new();
        let mut i: usize = 0;
        assert(all.take(0) =~= Seq::empty());
        while i < events.len()
            invariant
                i <= events@.len(),
                all == events@.map_values(|e: MeshEvent| e@),
                actions@ == actions_of(prefix, all.take(i as int)),
            decreases events@.len() - i,
        {
            assert(all.take(i + 1).drop_last() =~= all.take(i as int));
            match translate(prefix, &events[i]) {
                Some(a) => {
                    actions.push(a);
                },
                None => {},
            }
            i = i + 1;
        }
        assert(all.take(i as int) =~= all);
        Outputs { frames, actions }
    }

    /// One tick of the clock.
    pub fn on_tick(&mut self, now_ms: WallMs) -> (r: Outputs)
        requires
            old(self).wf(),
            old(self)@.room(2, now_ms),
        ensures
            final(self).wf(),
            handed_over(old(self)@.ticked(now_ms), r, final(self)@),
    {
        self.state.tick(now_ms);
        self.process_event()
    }

    /// A frame of a peer. A bad one is dropped, and the error says why.
    pub fn on_frame(&mut self, from: EndpointId, bytes: &[u8], now_ms: WallMs) -> (r: (Result<(), MeshError>, Outputs))
        requires
            old(self).wf(),
            old(self)@.room(1, now_ms),
        ensures
            final(self).wf(),
            r.0 == old(self)@.frame_answer(bytes@, now_ms),
            handed_over(old(self)@.framed(from, bytes@, now_ms), r.1, final(self)@),
    {
        let answer = self.state.on_frame(from, bytes, now_ms);
        let outputs = self.process_event();
        (answer, outputs)
    }

    /// Gossip tells something. A new neighbor is reported without an address.
    pub fn on_gossip(&mut self, event: GossipEvent, now_ms: WallMs) -> (r: Outputs)
        requires
            old(self).wf(),
        ensures
            final(self).wf(),
            match event {
                GossipEvent::NeighborUp(id) => {
                    let s = old(self)@.joined(id, now_ms);
                    &&& frames_of(r) == s.outbound
                    &&& r.actions@ == actions_of(s.config.net_prefix, s.events).push(
                        OverlayAction::Mapping(id, None),
                    )
                    &&& final(self)@ == (MeshView { outbound: Seq::empty(), events: Seq::empty(), ..s })
                },
                GossipEvent::NeighborDown(id) => handed_over(old(self)@.left(id), r, final(self)@),
                GossipEvent::Other => {
                    &&& frames_of(r).len() == 0
                    &&& r.actions@.len() == 0
                    &&& final(self)@ == old(self)@
                },
            },
    {
        match event {
            GossipEvent::NeighborUp(id) => {
                self.state.on_peer_connected(id, now_ms);
                let mut outputs = self.process_event();
                outputs.actions.push(OverlayAction::Mapping(id, None));
                outputs
            },
            GossipEvent::NeighborDown(id) => {
                self.state.on_peer_disconnected(id);
                self.process_event()
            },
            GossipEvent::Other => Outputs { frames: Vec::new(), actions: Vec::new() },
        }
    }

    /// The identity of this node.
    pub fn get_endpoint_id(&self) -> (r: EndpointId)
        ensures
            r == self@.eid,
    {
        *self.state.endpoint_id()
    }

    /// What this node announces of itself.
    pub fn get_own_state(&self) -> (r: NodeState)
        requires
            self.wf(),
        ensures
            r@ == self@.own(),
    {
        self.state.own().clone()
    }

    /// The nodes that are known, this one included, with their addresses.
    pub fn get_peers(&self) -> (r: Vec<(EndpointId, Option<Ipv4Addr>)>)
        requires
            self.wf(),
        ensures
            r@ == crate::id::listed(self@.states.dom()).map_values(
                |id: EndpointId| (id, self@.states[id].inner.ip_claim.spec_ipv4(self@.config.net_prefix)),
            ),
    {
        let prefix: u16 = self.state.config().net_prefix;
        let nodes = self.state.get_node_states();
        let ghost ids = crate::id::listed(self@.states.dom());
        let ghost pair = |id: EndpointId| (id, self@.states[id].inner.ip_claim.spec_ipv4(prefix));
        proof {
            self.state.state_in_order();
            crate::id::lemma_listed_finite(self@.states.dom());
        }
        let mut r: Vec<(EndpointId, Option<Ipv4Addr>)> = Vec::new();
        let mut i: usize = 0;
        while i < nodes.len()
            invariant
                i <= nodes@.len(),
                nodes@.len() == ids.len(),
                ids == crate::id::listed(self@.states.dom()),
                ids.to_set() == self@.states.dom(),
                self@.inv(),
                prefix == self@.config.net_prefix,
                pair == (|id: EndpointId| (id, self@.states[id].inner.ip_claim.spec_ipv4(prefix))),
                forall|j: int|
                    0 <= j < nodes@.len() ==> (#[trigger] nodes@[j])@ == self@.states[ids[j]].inner,
                r@ == ids.take(i as int).map_values(pair),
            decreases nodes@.len() - i,
        {
            proof {
                assert(ids.to_set().contains(ids[i as int]));
                assert(self@.states.contains_key(ids[i as int]));
            }
            let node = nodes[i];
            r.push((node.endpoint_id, node.ip_claim.to_ipv4(prefix)));
            i = i + 1;
            assert(r@ =~= ids.take(i as int).map_values(pair));
        }
        assert(ids.take(i as int) =~= ids);
        r
    }

    /// The address of a node, if it has one.
    pub fn get_ip_from_endpoint_id(&self, endpoint_id: &EndpointId) -> (r: Option<Ipv4Addr>)
        requires
            self.wf(),
        ensures
            r == (if self@.states.contains_key(*endpoint_id) {
                self@.states[*endpoint_id].inner.ip_claim.spec_ipv4(self@.config.net_prefix)
            } else {
                None
            }),
    {
        let peers = self.get_peers();
        let ghost ids = crate::id::listed(self@.states.dom());
        proof {
            self.state.state_in_order();
            crate::id::lemma_listed_finite(self@.states.dom());
        }
        let mut i: usize = 0;
        while i < peers.len()
            invariant
                i <= peers@.len(),
                peers@.len() == ids.len(),
                ids.to_set() == self@.states.dom(),
                peers@ == ids.map_values(
                    |id: EndpointId| (id, self@.states[id].inner.ip_claim.spec_ipv4(self@.config.net_prefix)),
                ),
                forall|j: int| 0 <= j < i ==> ids[j] != *endpoint_id,
            decreases peers@.len() - i,
        {
            if peers[i].0 == *endpoint_id {
                assert(ids.to_set().contains(ids[i as int]));
                return peers[i].1;
            }
            i = i + 1;
        }
        proof {
            if self@.states.contains_key(*endpoint_id) {
                assert(ids.to_set().contains(*endpoint_id));
            }
        }
        None
    }

    /// The node that has an address: of several the one with the lowest identity.
    pub fn get_endpoint_id_from_ip(&self, ip: Ipv4Addr) -> (r: Option<EndpointId>)
        requires
            self.wf(),
        ensures
            r matches Some(id) ==> has_ip(self@, id, ip) && forall|other: EndpointId| #[trigger]
                has_ip(self@, other, ip) && other != id ==> id.precedes(other),
            r is None ==> forall|other: EndpointId| !#[trigger] has_ip(self@, other, ip),
    {
        let peers = self.get_peers();
        let ghost ids = crate::id::listed(self@.states.dom());
        proof {
            self.state.state_in_order();
            crate::id::lemma_listed_finite(self@.states.dom());
        }
        let mut i: usize = 0;
        while i < peers.len()
            invariant
                i <= peers@.len(),
                peers@.len() == ids.len(),
                ids.to_set() == self@.states.dom(),
                crate::id::ascending(ids),
                peers@ == ids.map_values(
                    |id: EndpointId| (id, self@.states[id].inner.ip_claim.spec_ipv4(self@.config.net_prefix)),
                ),
                forall|j: int| 0 <= j < i ==> !has_ip(self@, #[trigger] ids[j], ip),
            decreases peers@.len() - i,
        {
            let (id, claimed) = peers[i];
            proof {
                assert(ids.to_set().contains(ids[i as int]));
            }
            if let Some(claimed) = claimed {
                if claimed == ip {
                    proof {
                        assert forall|other: EndpointId| #[trigger] has_ip(self@, other, ip) && other != id implies id.precedes(
                            other,
                        ) by {
                            assert(ids.to_set().contains(other));
                            let j = choose|j: int| 0 <= j < ids.len() && ids[j] == other;
                            assert(!(j < i));
                            assert(ids[i as int].precedes(ids[j]));
                        }
                    }
                    return Some(id);
                }
            }
            i = i + 1;
        }
        proof {
            assert forall|other: EndpointId| !#[trigger] has_ip(self@, other, ip) by {
                if has_ip(self@, other, ip) {
                    assert(ids.to_set().contains(other));
                    let j = choose|j: int| 0 <= j < ids.len() && ids[j] == other;
                }
            }
        }
        None
    }
}

/// The node is known and claims the address.
pub open spec fn has_ip(s: MeshView, id: EndpointId, ip: Ipv4Addr) -> bool {
    s.states.contains_key(id) && s.states[id].inner.ip_claim.spec_ipv4(s.config.net_prefix) == Some(ip)
}

/// Where no two nodes claim the same address, looking up the address of a node leads
/// back to that node.
pub proof fn lookups_agree(s: MeshView, a: EndpointId, b: EndpointId, ip: Ipv4Addr)
    requires
        crate::mesh_laws::no_conflict(s),
        has_ip(s, a, ip),
        has_ip(s, b, ip),
    ensures
        a == b,
{
    if a != b {
        let ip_a = s.states[a].inner.ip_claim->Claimed_0.ip;
        let ip_b = s.states[b].inner.ip_claim->Claimed_0.ip;
        crate::ipv4::build_ip_injective(s.config.net_prefix, ip_a, s.config.net_prefix, ip_b);
    }
}

/// The address has this prefix and these host bits.
pub open spec fn is_address(address: Ipv4Addr, prefix: u16, host: u16) -> bool {
    address.a * 256 + address.b == prefix && address.c * 256 + address.d == host
}

/// What the mesh reports reaches those whom it concerns: the device is told with full
/// addresses what to do, and which address a peer has, or that it has none, is passed on with
/// every change. What is reported besides asks for nothing.
pub proof fn reports_become_actions(prefix: u16, event: EventView)
    ensures
        match event {
            EventView::Tun(TunDirective::Configure { ip }) => action_of(prefix, event) matches Some(
                OverlayAction::Tun(TunEvent::Configure { ip: to }),
            ) && is_address(to, prefix, ip),
            EventView::Tun(TunDirective::Reconfigure { from, to }) => action_of(prefix, event) matches Some(
                OverlayAction::Tun(TunEvent::Reconfigure { from: old_ip, to: new_ip }),
            ) && is_address(old_ip, prefix, from) && is_address(new_ip, prefix, to),
            EventView::Tun(TunDirective::Teardown { from }) => action_of(prefix, event) == Some(
                OverlayAction::Tun(TunEvent::Teardown),
            ),
            EventView::PeerChanged { peer, state } => match state.ip_claim {
                crate::node::IpClaim::Claimed(c) => action_of(prefix, event) matches Some(
                    OverlayAction::Mapping(id, Some(ip)),
                ) && id == peer && is_address(ip, prefix, c.ip),
                crate::node::IpClaim::Unclaimed => action_of(prefix, event) == Some(
                    OverlayAction::Mapping(peer, None),
                ),
            },
            EventView::PeerDisconnected { peer } => action_of(prefix, event) is None,
            EventView::ClaimResolved { ip, winner, loser } => action_of(prefix, event) is None,
        },
{
    crate::ipv4::addresses_are_prefix_and_host(prefix, 0);
}

/// Actions come in the order of the reports, and none is lost: those of one row of reports
/// after another are those of the first followed by those of the second, and a single report
/// gives the action that it asks for, if it asks for one.
pub proof fn actions_follow_the_reports(prefix: u16, first: Seq<EventView>, second: Seq<EventView>, event: EventView)
    ensures
        actions_of(prefix, first + second) == actions_of(prefix, first) + actions_of(prefix, second),
        actions_of(prefix, seq![event]) == (match action_of(prefix, event) {
            Some(a) => seq![a],
            None => Seq::empty(),
        }),
        actions_of(prefix, Seq::empty()).len() == 0,
    decreases second.len(),
{
    assert(seq![event].drop_last() =~= Seq::empty());
    assert(seq![event].last() == event);
    reveal_with_fuel(actions_of, 2);
    assert(actions_of(prefix, seq![event]) =~= (match action_of(prefix, event) {
        Some(a) => seq![a],
        None => Seq::empty(),
    }));
    if second.len() == 0 {
        assert(first + second =~= first);
        assert(actions_of(prefix, first) + actions_of(prefix, second) =~= actions_of(prefix, first));
    } else {
        let rest = second.drop_last();
        actions_follow_the_reports(prefix, first, rest, event);
        assert((first + second).drop_last() =~= first + rest);
        assert((first + second).last() == second.last());
        assert(actions_of(prefix, first + second) =~= actions_of(prefix, first) + actions_of(prefix, second));
    }
}

/// A node has an address exactly if it is known and claims the host bits of the address under
/// the prefix of the network.
pub proof fn claims_give_addresses(s: MeshView, id: EndpointId, ip: Ipv4Addr)
    ensures
        has_ip(s, id, ip) <==> s.states.contains_key(id) && (s.states[id].inner.ip_claim matches crate::node::IpClaim::Claimed(
            c,
        ) && is_address(ip, s.config.net_prefix, c.ip)),
{
}

/// The frames that are handed out are those that waited, each with the peer that it is for.
pub proof fn frames_are_handed_out(outputs: Outputs, i: int)
    requires
        0 <= i < outputs.frames@.len(),
    ensures
        frames_of(outputs).len() == outputs.frames@.len(),
        frames_of(outputs)[i].0 == outputs.frames@[i].0,
        frames_of(outputs)[i].1 == outputs.frames@[i].1@,
{
}

/// Handing over takes nothing from the mesh but what waited: the frames and the reports.
pub proof fn only_what_waited_is_handed_over(s: MeshView, outputs: Outputs, after: MeshView)
    requires
        handed_over(s, outputs, after),
    ensures
        frames_of(outputs) == s.outbound,
        outputs.actions@ == actions_of(s.config.net_prefix, s.events),
        after.outbound.len() == 0,
        after.events.len() == 0,
        after.states == s.states && after.peers == s.peers && after.tun == s.tun && after.quiet_ticks == s.quiet_ticks,
        after.eid == s.eid && after.key == s.key && after.config == s.config,
{
}

} // verus!
