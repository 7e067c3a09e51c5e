//! What the inspector window shows and remembers: the two addresses, whether the proxy
//! listens, which packets are listed, and the packets that passed.

use crate::packet_registry::{
    describes, Packet, PacketRegistry, PacketSide, PacketState, PacketView,
};
use vstd::prelude::*;

verus! {

/// What the window can be told.
#[derive(Copy, Clone, Debug, PartialEq, Eq, Structural)]
pub enum Event {
    StartListening,
    StopListening,
    PacketReceived,
}

/// Whether the proxy listens after `event`, given whether it did before.
pub open spec fn listening_after(is_listening: bool, event: Event) -> bool {
    match event {
        Event::StartListening => true,
        Event::StopListening => false,
        Event::PacketReceived => is_listening,
    }
}

/// Whether `filter` lists the packet that travels in direction `side` under `state` with
/// number `id`: what its first entry for that packet says, and yes where it has none.
pub open spec fn filter_lists(
    filter: Seq<(PacketView, bool)>,
    side: PacketSide,
    state: PacketState,
    id: i32,
) -> bool
    decreases filter.len(),
{
    if filter.len() == 0 {
        true
    } else if describes(filter[0].0, side, state, id) {
        filter[0].1
    } else {
        filter_lists(filter.drop_first(), side, state, id)
    }
}

/// A filter with one entry for each packet of `table`, in the table's order, that lists
/// what `saved` lists.
pub open spec fn merged_filter(saved: Seq<(PacketView, bool)>, table: Seq<PacketView>) -> Seq<
    (PacketView, bool),
> {
    Seq::new(
        table.len(),
        |i: int| (table[i], filter_lists(saved, table[i].side, table[i].state, table[i].id)),
    )
}

/// What the window shows and remembers.
pub struct SharedState {
    pub listener_addr: String,
    pub server_addr: String,
    pub is_listening: bool,
    pub packet_filter: Vec<(Packet, bool)>,
    pub selected_packet: Option<usize>,
    pub packets: Vec<Packet>,
}

/// What a [`SharedState`] holds.
pub ghost struct SharedStateView {
    pub listener_addr: Seq<char>,
    pub server_addr: Seq<char>,
    pub is_listening: bool,
    pub packet_filter: Seq<(PacketView, bool)>,
    pub selected_packet: Option<usize>,
    pub packets: Seq<PacketView>,
}

impl View for SharedState {
    type V = SharedStateView;

    open spec fn view(&self) -> SharedStateView {
        SharedStateView {
            listener_addr: self.listener_addr@,
            server_addr: self.server_addr@,
            is_listening: self.is_listening,
            packet_filter: self.packet_filter@.map_values(|e: (Packet, bool)| (e.0@, e.1)),
            selected_packet: self.selected_packet,
            packets: self.packets@.map_values(|p: Packet| p@),
        }
    }
}

impl SharedState {
    /// The state of a window that opens for the first time: the usual addresses, not
    /// listening, every packet of `registry` listed, nothing selected, no packet seen.
    pub fn new(registry: &PacketRegistry) -> (state: SharedState)
        ensures
            state@ == (SharedStateView {
                listener_addr: "127.0.0.1:25566"@,
                server_addr: "127.0.0.1:25565"@,
                is_listening: false,
                packet_filter: merged_filter(Seq::empty(), registry@),
                selected_packet: None,
                packets: Seq::empty(),
            }),
    {
        let state = SharedState {
            listener_addr: "127.0.0.1:25566".to_owned(),
            server_addr: "127.0.0.1:25565".to_owned(),
            is_listening: false,
            packet_filter: Vec::new(),
            selected_packet: None,
            packets: Vec::new(),
        };
        assert(state@.packets =~= Seq::<PacketView>::empty());
        assert(state@.packet_filter =~= Seq::<(PacketView, bool)>::empty());
        state.merge(registry)
    }

    /// Whether the filter lists the packet that travels in direction `side` under `state`
    /// with number `id`.
    pub fn lists(&self, side: PacketSide, state: PacketState, id: i32) -> (listed: bool)
        ensures
            listed == filter_lists(self@.packet_filter, side, state, id),
    {
        let mut i: usize = 0;
        assert(self@.packet_filter.skip(0) =~= self@.packet_filter);
        while i < self.packet_filter.len()
            invariant
                i <= self.packet_filter@.len(),
                filter_lists(self@.packet_filter, side, state, id) == filter_lists(
                    self@.packet_filter.skip(i as int),
                    side,
                    state,
                    id,
                ),
            decreases self.packet_filter@.len() - i,
        {
            let ghost rest = self@.packet_filter.skip(i as int);
            assert(rest[0] == (self.packet_filter@[i as int].0@, self.packet_filter@[i as int].1));
            assert(rest.drop_first() =~= self@.packet_filter.skip(i + 1));
            if self.packet_filter[i].0.is(side, state, id) {
                return self.packet_filter[i].1;
            }
            i = i + 1;
        }
        true
    }

    /// Brings a remembered state up to the packets that `registry` knows: the filter gets one
    /// entry for each of them, in the registry's order, and lists what it listed before.
    /// Everything else stays.
    pub fn merge(self, registry: &PacketRegistry) -> (merged: SharedState)
        ensures
            merged@ == (SharedStateView {
                packet_filter: merged_filter(self@.packet_filter, registry@),
                ..self@
            }),
    {
        let mut packet_filter: Vec<(Packet, bool)> = Vec::new();
        let mut i: usize = 0;
        while i < registry.packets.len()
            invariant
                i <= registry.packets@.len(),
                packet_filter@.len() == i,
                forall|j: int|
                    0 <= j < i ==> (#[trigger] packet_filter@[j]).0@ == registry@[j]
                        && packet_filter@[j].1 == filter_lists(
                        self@.packet_filter,
                        registry@[j].side,
                        registry@[j].state,
                        registry@[j].id,
                    ),
            decreases registry.packets@.len() - i,
        {
            let known = &registry.packets[i];
            assert(known@ == registry@[i as int]);
            let listed = self.lists(known.side, known.state, known.id);
            packet_filter.push((known.duplicate(), listed));
            i = i + 1;
        }
        let merged = SharedState {
            listener_addr: self.listener_addr,
            server_addr: self.server_addr,
            is_listening: self.is_listening,
            packet_filter,
            selected_packet: self.selected_packet,
            packets: self.packets,
        };
        assert(merged@.packet_filter =~= merged_filter(self@.packet_filter, registry@));
        merged
    }

    /// Takes note of `event`: the proxy listens after `StartListening` and does not after
    /// `StopListening`. Nothing else changes.
    pub fn apply_event(&mut self, event: Event)
        ensures
            final(self)@ == (SharedStateView {
                is_listening: listening_after(old(self)@.is_listening, event),
                ..old(self)@
            }),
    {
        match event {
            Event::StartListening => {
                self.is_listening = true;
            },
            Event::StopListening => {
                self.is_listening = false;
            },
            Event::PacketReceived => {},
        }
    }

    /// Adds a packet that passed after those that are there.
    pub fn push_packet(&mut self, packet: Packet)
        ensures
            final(self)@ == (SharedStateView {
                packets: old(self)@.packets.push(packet@),
                ..old(self)@
            }),
    {
        self.packets.push(packet);
        assert(self@.packets =~= old(self)@.packets.push(packet@));
    }

    /// Forgets the packets that passed, and the selection with them.
    pub fn clear(&mut self)
        ensures
            final(self)@ == (SharedStateView {
                selected_packet: None,
                packets: Seq::empty(),
                ..old(self)@
            }),
    {
        self.selected_packet = None;
        self.packets.clear();
        assert(self@.packets =~= Seq::<PacketView>::empty());
    }

    /// Whether the packet at `index` is listed: the filter lists its kind.
    pub fn is_listed(&self, index: usize) -> (listed: bool)
        requires
            index < self@.packets.len(),
        ensures
            listed == filter_lists(
                self@.packet_filter,
                self@.packets[index as int].side,
                self@.packets[index as int].state,
                self@.packets[index as int].id,
            ),
    {
        let packet = &self.packets[index];
        assert(packet@ == self@.packets[index as int]);
        self.lists(packet.side, packet.state, packet.id)
    }

    /// Whether the packet at `index` is the selected one.
    pub fn is_selected(&self, index: usize) -> (selected: bool)
        ensures
            selected == (self@.selected_packet == Some(index)),
    {
        match self.selected_packet {
            Some(selected) => selected == index,
            None => false,
        }
    }
}

} // verus!
