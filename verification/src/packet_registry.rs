//! The packet registry: the table of known packets, and the classification of the frames
//! that a session relays.

use crate::packet_io::PacketFrame;
use vstd::prelude::*;
use vstd::slice::slice_to_vec;
use vstd::utf8::{decode_utf8, encode_utf8, encode_utf8_decode_utf8, is_char_boundary};

verus! {

broadcast use vstd::utf8::encode_utf8_valid_utf8;

/// The phase of a session, which decides what a packet id means.
#[derive(Copy, Clone, Debug, PartialEq, Eq, Hash, Structural)]
pub enum PacketState {
    Handshaking,
    Status,
    Login,
    Play,
}

/// The direction in which a packet travels.
#[derive(Copy, Clone, Debug, PartialEq, Eq, Hash, Structural)]
pub enum PacketSide {
    /// From the server to the client.
    Clientbound,
    /// From the client to the server.
    Serverbound,
}

/// A packet as observers see it: where and when it travelled, what it is called, and its
/// bytes.
#[derive(Clone, Debug, PartialEq, Eq, Hash)]
pub struct Packet {
    pub side: PacketSide,
    pub state: PacketState,
    pub id: i32,
    /// When the packet was observed, in nanoseconds since the Unix epoch.
    pub timestamp: Option<i128>,
    pub name: &'static str,
    /// The body of the packet, uncompressed.
    pub data: Option<Vec<u8>>,
}

/// What a [`Packet`] holds.
pub ghost struct PacketView {
    pub side: PacketSide,
    pub state: PacketState,
    pub id: i32,
    pub timestamp: Option<i128>,
    pub name: Seq<char>,
    pub data: Option<Seq<u8>>,
}

impl View for Packet {
    type V = PacketView;

    open spec fn view(&self) -> PacketView {
        PacketView {
            side: self.side,
            state: self.state,
            id: self.id,
            timestamp: self.timestamp,
            name: self.name@,
            data: match self.data {
                Some(bytes) => Some(bytes@),
                None => None,
            },
        }
    }
}

impl Packet {
    /// A copy of this packet.
    pub fn duplicate(&self) -> (copy: Packet)
        ensures
            copy@ == self@,
    {
        Packet {
            side: self.side,
            state: self.state,
            id: self.id,
            timestamp: self.timestamp,
            name: self.name,
            data: match &self.data {
                Some(bytes) => Some(slice_to_vec(bytes.as_slice())),
                None => None,
            },
        }
    }

    /// Whether this packet is the one that travels in direction `side` under `state` with
    /// number `id`.
    pub fn is(&self, side: PacketSide, state: PacketState, id: i32) -> (b: bool)
        ensures
            b == describes(self@, side, state, id),
    {
        self.id == id && self.side == side && self.state == state
    }
}

/// Whether `packet` is the one that travels in direction `side` under `state` with number
/// `id`.
pub open spec fn describes(
    packet: PacketView,
    side: PacketSide,
    state: PacketState,
    id: i32,
) -> bool {
    packet.id == id && packet.side == side && packet.state == state
}

/// What stands for a packet that the table does not know.
pub open spec fn unknown_packet(side: PacketSide, state: PacketState, id: i32) -> PacketView {
    PacketView { side, state, id, timestamp: None, name: "Unknown Packet"@, data: None }
}

/// The first entry of `table` that describes `(side, state, id)`, or the stand-in for an
/// unknown packet.
pub open spec fn lookup(
    table: Seq<PacketView>,
    side: PacketSide,
    state: PacketState,
    id: i32,
) -> PacketView
    decreases table.len(),
{
    if table.len() == 0 {
        unknown_packet(side, state, id)
    } else if describes(table[0], side, state, id) {
        table[0]
    } else {
        lookup(table.drop_first(), side, state, id)
    }
}

/// Whether `table` has an entry for `(side, state, id)`.
pub open spec fn knows(
    table: Seq<PacketView>,
    side: PacketSide,
    state: PacketState,
    id: i32,
) -> bool {
    exists|i: int| 0 <= i < table.len() && describes(#[trigger] table[i], side, state, id)
}

/// A packet that the table does not know is looked up as "Unknown Packet", with the
/// direction, state and id that were asked for.
pub proof fn lemma_lookup_unknown(
    table: Seq<PacketView>,
    side: PacketSide,
    state: PacketState,
    id: i32,
)
    requires
        !knows(table, side, state, id),
    ensures
        lookup(table, side, state, id) == unknown_packet(side, state, id),
    decreases table.len(),
{
    if table.len() > 0 {
        assert(!describes(table[0], side, state, id));
        let rest = table.drop_first();
        assert forall|i: int| 0 <= i < rest.len() implies !describes(
            #[trigger] rest[i],
            side,
            state,
            id,
        ) by {
            assert(rest[i] == table[i + 1]);
        }
        lemma_lookup_unknown(rest, side, state, id);
    }
}

/// A packet that the table knows is looked up as its first entry for it.
pub proof fn lemma_lookup_known(
    table: Seq<PacketView>,
    side: PacketSide,
    state: PacketState,
    id: i32,
    i: int,
)
    requires
        0 <= i < table.len(),
        describes(table[i], side, state, id),
        forall|j: int| 0 <= j < i ==> !describes(#[trigger] table[j], side, state, id),
    ensures
        lookup(table, side, state, id) == table[i],
    decreases i,
{
    if i > 0 {
        let rest = table.drop_first();
        assert(!describes(table[0], side, state, id));
        assert forall|j: int| 0 <= j < i - 1 implies !describes(
            #[trigger] rest[j],
            side,
            state,
            id,
        ) by {
            assert(rest[j] == table[j + 1]);
        }
        lemma_lookup_known(rest, side, state, id, i - 1);
    }
}

/// Whatever is asked for, the answer carries the direction, state and id of the question.
pub proof fn lemma_lookup_keeps_key(
    table: Seq<PacketView>,
    side: PacketSide,
    state: PacketState,
    id: i32,
)
    ensures
        describes(lookup(table, side, state, id), side, state, id),
    decreases table.len(),
{
    if table.len() > 0 && !describes(table[0], side, state, id) {
        lemma_lookup_keeps_key(table.drop_first(), side, state, id);
    }
}

/// The table of known packets.
pub struct PacketRegistry {
    pub packets: Vec<Packet>,
}

impl View for PacketRegistry {
    type V = Seq<PacketView>;

    /// The entries, in the order in which they were registered.
    open spec fn view(&self) -> Seq<PacketView> {
        self.packets@.map_values(|p: Packet| p@)
    }
}

impl PacketRegistry {
    /// A registry that knows no packet.
    pub fn new() -> (registry: PacketRegistry)
        ensures
            registry@ == Seq::<PacketView>::empty(),
    {
        let registry = PacketRegistry { packets: Vec::new() };
        assert(registry@ =~= Seq::<PacketView>::empty());
        registry
    }

    /// Adds one entry after those that are there.
    pub fn register(&mut self, packet: Packet)
        ensures
            final(self)@ == old(self)@.push(packet@),
    {
        self.packets.push(packet);
        assert(self@ =~= old(self)@.push(packet@));
    }

    /// Adds the entries of `packets`, in their order, after those that are there.
    pub fn register_all(&mut self, packets: Vec<Packet>)
        ensures
            final(self)@ == old(self)@ + packets@.map_values(|p: Packet| p@),
    {
        let mut packets = packets;
        let ghost added = packets@;
        self.packets.append(&mut packets);
        assert(self@ =~= old(self)@ + added.map_values(|p: Packet| p@));
    }

    /// The number of entries.
    pub fn len(&self) -> (n: usize)
        ensures
            n == self@.len(),
    {
        self.packets.len()
    }

    /// What the table says of the packet that travels in direction `side` under `state` with
    /// number `packet_id`: its first entry for it, or "Unknown Packet" with that direction,
    /// state and id.
    pub fn get_specific_packet(
        &self,
        side: PacketSide,
        state: PacketState,
        packet_id: i32,
    ) -> (packet: Packet)
        ensures
            packet@ == lookup(self@, side, state, packet_id),
            describes(packet@, side, state, packet_id),
            !knows(self@, side, state, packet_id) ==> packet@ == unknown_packet(
                side,
                state,
                packet_id,
            ),
    {
        proof {
            lemma_lookup_keeps_key(self@, side, state, packet_id);
            if !knows(self@, side, state, packet_id) {
                lemma_lookup_unknown(self@, side, state, packet_id);
            }
        }
        let mut i: usize = 0;
        assert(self@.skip(0) =~= self@);
        while i < self.packets.len()
            invariant
                i <= self.packets@.len(),
                lookup(self@, side, state, packet_id) == lookup(
                    self@.skip(i as int),
                    side,
                    state,
                    packet_id,
                ),
            decreases self.packets@.len() - i,
        {
            let ghost rest = self@.skip(i as int);
            assert(rest[0] == self.packets@[i as int]@);
            assert(rest.drop_first() =~= self@.skip(i + 1));
            if self.packets[i].is(side, state, packet_id) {
                return self.packets[i].duplicate();
            }
            i = i + 1;
        }
        assert(self@.skip(i as int).len() == 0);
        Packet { side, state, id: packet_id, timestamp: None, name: "Unknown Packet", data: None }
    }

    /// Classifies one relayed frame: the table's entry for `(side, state, frame.id)`, with
    /// the frame's body as its data and `timestamp` as the time of observation.
    pub fn process(
        &self,
        side: PacketSide,
        state: PacketState,
        threshold: Option<u32>,
        frame: &PacketFrame,
        timestamp: Option<i128>,
    ) -> (packet: Packet)
        ensures
            packet@ == observed(self@, side, state, frame.id, frame.body@, timestamp),
    {
        let known = self.get_specific_packet(side, state, frame.id);
        Packet {
            side: known.side,
            state: known.state,
            id: known.id,
            timestamp,
            name: known.name,
            data: Some(slice_to_vec(frame.body.as_slice())),
        }
    }
}

/// The packet that observers get for a frame with number `id` and bytes `body` that
/// travelled in direction `side` under `state` at `timestamp`.
pub open spec fn observed(
    table: Seq<PacketView>,
    side: PacketSide,
    state: PacketState,
    id: i32,
    body: Seq<u8>,
    timestamp: Option<i128>,
) -> PacketView {
    PacketView { timestamp, data: Some(body), ..lookup(table, side, state, id) }
}

/// The text `text` cut down for a log line: as it is where its UTF-8 form has no more than
/// `max_len` bytes, else the characters in its first `max_len` bytes and three dots.
pub open spec fn truncated_text(text: Seq<char>, max_len: nat) -> Seq<char> {
    if encode_utf8(text).len() > max_len {
        decode_utf8(encode_utf8(text).subrange(0, max_len as int)) + "..."@
    } else {
        text
    }
}

/// Cuts `string` down to `max_len` bytes for a log line, and marks the cut with three dots.
/// A cut has to fall between two characters.
pub fn truncated(string: String, max_len: usize) -> (cut: String)
    requires
        encode_utf8(string@).len() > max_len ==> is_char_boundary(
            encode_utf8(string@),
            max_len as int,
        ),
    ensures
        cut@ == truncated_text(string@, max_len as nat),
{
    if string.as_str().as_bytes().len() > max_len {
        let (head, _) = string.as_str().split_at(max_len);
        proof {
            encode_utf8_decode_utf8(head@);
        }
        let mut cut = head.to_owned();
        cut.append("...");
        cut
    } else {
        string
    }
}

} // verus!
