//! The records that describe the known packets, as they are read at start-up: a name, a
//! direction and a state in words, and an id.

use crate::packet_registry::{PacketSide, PacketState};
use vstd::prelude::*;

verus! {

/// The lower-case form of `c` in Unicode: one character for most, two or three for a few.
pub uninterp spec fn lowercased(c: char) -> Seq<char>;

/// The lower-case form of `c`, as `char::to_lowercase` gives it.
///
/// Relied on: the outcome depends on `c` alone.
#[verifier::external_body]
fn lowercase(c: char) -> (text: String)
    ensures
        text@ == lowercased(c),
{
    c.to_lowercase().to_string()
}

/// Whether `text` ends with `suffix`.
pub open spec fn ends_with(text: Seq<char>, suffix: Seq<char>) -> bool {
    text.len() >= suffix.len() && text.subrange(text.len() - suffix.len(), text.len() as int)
        == suffix
}

/// The name under which a packet is shown: `name` without a trailing `Packet`.
pub open spec fn stripped(name: Seq<char>) -> Seq<char> {
    if ends_with(name, "Packet"@) {
        name.subrange(0, name.len() - 6)
    } else {
        name
    }
}

/// What the name of a packet's decoder ends with: `S2c` for a packet to the client, `C2s`
/// for one to the server.
pub open spec fn direction_suffix(side: PacketSide) -> Seq<char> {
    match side {
        PacketSide::Clientbound => "S2c"@,
        PacketSide::Serverbound => "C2s"@,
    }
}

/// `name`, with the suffix of `side` behind it unless it ends with that already.
pub open spec fn suffixed(name: Seq<char>, side: PacketSide) -> Seq<char> {
    if ends_with(name, direction_suffix(side)) {
        name
    } else {
        name + direction_suffix(side)
    }
}

/// `name` with `lowered` in place of its last character.
pub open spec fn with_last(name: Seq<char>, lowered: Seq<char>) -> Seq<char> {
    name.drop_last() + lowered
}

/// The name of the decoder of the packet that a record calls `name`: the name without a
/// trailing `Packet`, its last letter in lower case, with the suffix of `side`.
pub open spec fn decoder_name_of(name: Seq<char>, side: PacketSide) -> Seq<char> {
    let shown = stripped(name);
    suffixed(with_last(shown, lowercased(shown.last())), side)
}

/// The direction that a record names.
pub open spec fn side_named(text: Seq<char>) -> Option<PacketSide> {
    if text == "clientbound"@ {
        Some(PacketSide::Clientbound)
    } else if text == "serverbound"@ {
        Some(PacketSide::Serverbound)
    } else {
        None
    }
}

/// The state that a record names.
pub open spec fn state_named(text: Seq<char>) -> Option<PacketState> {
    if text == "handshaking"@ {
        Some(PacketState::Handshaking)
    } else if text == "status"@ {
        Some(PacketState::Status)
    } else if text == "login"@ {
        Some(PacketState::Login)
    } else if text == "play"@ {
        Some(PacketState::Play)
    } else {
        None
    }
}

/// Whether the two texts are the same.
fn same_text(a: &str, b: &str) -> (same: bool)
    ensures
        same == (a@ == b@),
{
    let n = a.unicode_len();
    if n != b.unicode_len() {
        return false;
    }
    let mut i: usize = 0;
    while i < n
        invariant
            i <= n,
            n == a@.len(),
            n == b@.len(),
            forall|j: int| 0 <= j < i ==> a@[j] == b@[j],
        decreases n - i,
    {
        if a.get_char(i) != b.get_char(i) {
            return false;
        }
        i = i + 1;
    }
    assert(a@ =~= b@);
    true
}

/// Whether `text` ends with `suffix`.
pub fn has_suffix(text: &str, suffix: &str) -> (b: bool)
    ensures
        b == ends_with(text@, suffix@),
{
    let n = text.unicode_len();
    let k = suffix.unicode_len();
    if n < k {
        return false;
    }
    same_text(text.substring_char(n - k, n), suffix)
}

/// The name under which a packet is shown: `name` without a trailing `Packet`.
pub fn display_name(name: &str) -> (shown: &str)
    ensures
        shown@ == stripped(name@),
{
    proof {
        reveal_strlit("Packet");
    }
    if has_suffix(name, "Packet") {
        let n = name.unicode_len();
        name.substring_char(0, n - 6)
    } else {
        name
    }
}

/// `name`, with the suffix of `side` behind it unless it ends with that already.
pub fn with_direction_suffix(name: String, side: PacketSide) -> (full: String)
    ensures
        full@ == suffixed(name@, side),
{
    let suffix = match side {
        PacketSide::Clientbound => "S2c",
        PacketSide::Serverbound => "C2s",
    };
    if has_suffix(name.as_str(), suffix) {
        name
    } else {
        name.concat(suffix)
    }
}

/// `name` with `lowered` in place of its last character.
pub fn replace_last(name: &str, lowered: &str) -> (changed: String)
    requires
        name@.len() > 0,
    ensures
        changed@ == with_last(name@, lowered@),
{
    let n = name.unicode_len();
    let mut changed = name.substring_char(0, n - 1).to_owned();
    changed.append(lowered);
    assert(changed@ =~= with_last(name@, lowered@));
    changed
}

/// The name of the decoder of the packet that a record calls `name` and sends in direction
/// `side`. A name that is nothing but `Packet`, or nothing at all, has no last letter to
/// put in lower case.
pub fn decoder_name(name: &str, side: PacketSide) -> (full: String)
    requires
        stripped(name@).len() > 0,
    ensures
        full@ == decoder_name_of(name@, side),
{
    let shown = display_name(name);
    let n = shown.unicode_len();
    let lowered = lowercase(shown.get_char(n - 1));
    let changed = replace_last(shown, lowered.as_str());
    with_direction_suffix(changed, side)
}

/// The direction that a record names: `clientbound` or `serverbound`.
pub fn side_from_text(text: &str) -> (side: Option<PacketSide>)
    ensures
        side == side_named(text@),
{
    if same_text(text, "clientbound") {
        Some(PacketSide::Clientbound)
    } else if same_text(text, "serverbound") {
        Some(PacketSide::Serverbound)
    } else {
        None
    }
}

/// The state that a record names: `handshaking`, `status`, `login` or `play`.
pub fn state_from_text(text: &str) -> (state: Option<PacketState>)
    ensures
        state == state_named(text@),
{
    if same_text(text, "handshaking") {
        Some(PacketState::Handshaking)
    } else if same_text(text, "status") {
        Some(PacketState::Status)
    } else if same_text(text, "login") {
        Some(PacketState::Login)
    } else if same_text(text, "play") {
        Some(PacketState::Play)
    } else {
        None
    }
}

} // verus!
