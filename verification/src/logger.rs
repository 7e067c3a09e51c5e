//! A record of the frames that passed, in the order in which they were logged.

use crate::packet_io::PacketFrame;
use crate::packet_registry::PacketSide;
use vstd::prelude::*;

verus! {

/// One entry of a [`Logger`]: the name under which a frame was logged, its direction, its id
/// and its body.
pub ghost struct LogEntry {
    pub name: Seq<char>,
    pub direction: PacketSide,
    pub id: i32,
    pub body: Seq<u8>,
}

/// What one stored entry holds.
pub open spec fn entry_view(entry: (String, PacketSide, PacketFrame)) -> LogEntry {
    LogEntry { name: entry.0@, direction: entry.1, id: entry.2.id, body: entry.2.body@ }
}

/// Keeps every frame that it is told of.
pub struct Logger {
    pub packets: Vec<(String, PacketSide, PacketFrame)>,
}

impl View for Logger {
    type V = Seq<LogEntry>;

    /// The entries, oldest first.
    open spec fn view(&self) -> Seq<LogEntry> {
        self.packets@.map_values(|entry: (String, PacketSide, PacketFrame)| entry_view(entry))
    }
}

impl Logger {
    /// A logger that holds nothing yet.
    pub fn new() -> (logger: Logger)
        ensures
            logger@ == Seq::<LogEntry>::empty(),
    {
        let logger = Logger { packets: Vec::new() };
        assert(logger@ =~= Seq::<LogEntry>::empty());
        logger
    }

    /// Adds one frame after those that are there.
    pub fn log(&mut self, name: String, direction: PacketSide, packet: PacketFrame)
        ensures
            final(self)@ == old(self)@.push(
                LogEntry { name: name@, direction, id: packet.id, body: packet.body@ },
            ),
    {
        self.packets.push((name, direction, packet));
        assert(self@ =~= old(self)@.push(
            LogEntry { name: name@, direction, id: packet.id, body: packet.body@ },
        ));
    }

    /// The number of entries.
    pub fn len(&self) -> (n: usize)
        ensures
            n == self@.len(),
    {
        self.packets.len()
    }
}

} // verus!
