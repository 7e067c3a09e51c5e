//! The panes of the inspector window, as far as they can be told apart: each has a name,
//! under which its open or closed state is kept.

use vstd::prelude::*;

verus! {

/// Something to view in a pane.
pub trait Tab {
    /// The name of this pane, as a contract sees it.
    spec fn title(&self) -> Seq<char>;

    fn new() -> Self where Self: Sized;

    /// The name of this pane: its title, and the key under which its state is stored.
    fn name(&self) -> (name: &'static str)
        ensures
            name@ == self.title(),
    ;
}

/// The pane that says what this program is.
pub struct About {}

impl Tab for About {
    open spec fn title(&self) -> Seq<char> {
        "About"@
    }

    fn new() -> Self {
        Self {  }
    }

    fn name(&self) -> (name: &'static str) {
        "About"
    }
}

/// The pane with the addresses to listen on and to connect to.
pub struct Connection {}

impl Tab for Connection {
    open spec fn title(&self) -> Seq<char> {
        "Connection"@
    }

    fn new() -> Self {
        Self {  }
    }

    fn name(&self) -> (name: &'static str) {
        "Connection"
    }
}

/// The pane that chooses which packets are listed.
pub struct Filter {}

impl Tab for Filter {
    open spec fn title(&self) -> Seq<char> {
        "Filters"@
    }

    fn new() -> Self {
        Self {  }
    }

    fn name(&self) -> (name: &'static str) {
        "Filters"
    }
}

/// The pane that shows the bytes of the selected packet.
pub struct HexView {}

impl Tab for HexView {
    open spec fn title(&self) -> Seq<char> {
        "Hex Viewer"@
    }

    fn new() -> Self {
        Self {  }
    }

    fn name(&self) -> (name: &'static str) {
        "Hex Viewer"
    }
}

/// The pane that shows the selected packet as structured text.
pub struct JsonView {}

impl Tab for JsonView {
    open spec fn title(&self) -> Seq<char> {
        "Json Viewer"@
    }

    fn new() -> Self {
        Self {  }
    }

    fn name(&self) -> (name: &'static str) {
        "Json Viewer"
    }
}

/// The pane that lists the packets that passed.
pub struct PacketList {}

impl Tab for PacketList {
    open spec fn title(&self) -> Seq<char> {
        "Packets"@
    }

    fn new() -> Self {
        Self {  }
    }

    fn name(&self) -> (name: &'static str) {
        "Packets"
    }
}

} // verus!
