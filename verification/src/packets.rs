//! The three packets that a session reads to follow the protocol: the client's handshake,
//! and the server's compression notice and login success. Every other body stays opaque.

use crate::packet_io::PacketFrame;
use crate::varint::{parse_varint, read_varint, VarIntRead};
use vstd::prelude::*;
use vstd::slice::slice_subrange;
use vstd::utf8::{decode_utf8, valid_utf8};

verus! {

/// The id of the handshake, the first packet that a client sends.
pub const HANDSHAKE_C2S: i32 = 0;

/// The id of the server's login success while a session logs in.
pub const LOGIN_SUCCESS_S2C: i32 = 2;

/// The id of the server's compression notice while a session logs in.
pub const LOGIN_COMPRESSION_S2C: i32 = 3;

/// What a client asks for in its handshake.
#[derive(Copy, Clone, Debug, PartialEq, Eq, Structural)]
pub enum HandshakeNextState {
    Status,
    Login,
}

/// The client's handshake.
#[derive(Clone, Debug, PartialEq, Eq)]
pub struct HandshakeC2s {
    pub protocol_version: i32,
    pub server_address: String,
    pub server_port: u16,
    pub next_state: HandshakeNextState,
}

/// What a [`HandshakeC2s`] holds.
pub ghost struct HandshakeView {
    pub protocol_version: i32,
    pub server_address: Seq<char>,
    pub server_port: u16,
    pub next_state: HandshakeNextState,
}

impl View for HandshakeC2s {
    type V = HandshakeView;

    open spec fn view(&self) -> HandshakeView {
        HandshakeView {
            protocol_version: self.protocol_version,
            server_address: self.server_address@,
            server_port: self.server_port,
            next_state: self.next_state,
        }
    }
}

/// The server's notice that frames are compressed from the next one on.
#[derive(Copy, Clone, Debug, PartialEq, Eq, Structural)]
pub struct LoginCompressionS2c {
    pub threshold: i32,
}

/// One property of a player's profile.
#[derive(Clone, Debug, PartialEq, Eq)]
pub struct Property {
    pub name: String,
    pub value: String,
    pub signature: Option<String>,
}

/// What a [`Property`] holds.
pub ghost struct PropertyView {
    pub name: Seq<char>,
    pub value: Seq<char>,
    pub signature: Option<Seq<char>>,
}

impl View for Property {
    type V = PropertyView;

    open spec fn view(&self) -> PropertyView {
        PropertyView {
            name: self.name@,
            value: self.value@,
            signature: match self.signature {
                Some(text) => Some(text@),
                None => None,
            },
        }
    }
}

/// The server's word that the login is done.
#[derive(Clone, Debug, PartialEq, Eq)]
pub struct LoginSuccessS2c {
    pub uuid: u128,
    pub username: String,
    pub properties: Vec<Property>,
}

/// What a [`LoginSuccessS2c`] holds.
pub ghost struct LoginSuccessView {
    pub uuid: u128,
    pub username: Seq<char>,
    pub properties: Seq<PropertyView>,
}

impl View for LoginSuccessS2c {
    type V = LoginSuccessView;

    open spec fn view(&self) -> LoginSuccessView {
        LoginSuccessView {
            uuid: self.uuid,
            username: self.username@,
            properties: self.properties@.map_values(|p: Property| p@),
        }
    }
}

/// A variable-length integer at the front of `s`: its value and the bytes that it takes.
pub open spec fn varint_field(s: Seq<u8>) -> Option<(i32, nat)> {
    match parse_varint(s) {
        VarIntRead::Value { value, len } => Some((value, len as nat)),
        _ => None,
    }
}

/// A text at the front of `s`, as its length in bytes and then its UTF-8 bytes: the text
/// and the bytes that the field takes.
pub open spec fn text_field(s: Seq<u8>) -> Option<(Seq<char>, nat)> {
    match varint_field(s) {
        Some((n, taken)) => if 0 <= n && n <= s.len() - taken && valid_utf8(
            s.subrange(taken as int, taken + n),
        ) {
            Some((decode_utf8(s.subrange(taken as int, taken + n)), (taken + n) as nat))
        } else {
            None
        },
        None => None,
    }
}

/// A truth value at the front of `s`: one byte, zero or one.
pub open spec fn bool_field(s: Seq<u8>) -> Option<(bool, nat)> {
    if s.len() >= 1 && s[0] <= 1 {
        Some((s[0] == 1, 1nat))
    } else {
        None
    }
}

/// The number that the bytes of `s` spell, most significant first.
pub open spec fn big_endian(s: Seq<u8>) -> nat
    decreases s.len(),
{
    if s.len() == 0 {
        0
    } else {
        256 * big_endian(s.drop_last()) + s.last() as nat
    }
}

/// A text that may be absent, at the front of `s`: a truth value, and the text where it is
/// true.
pub open spec fn optional_text_field(s: Seq<u8>) -> Option<(Option<Seq<char>>, nat)> {
    match bool_field(s) {
        Some((true, taken)) => match text_field(s.skip(taken as int)) {
            Some((text, n)) => Some((Some(text), taken + n)),
            None => None,
        },
        Some((false, taken)) => Some((None, taken)),
        None => None,
    }
}

/// A profile property at the front of `s`: name, value, and a signature that may be absent.
pub open spec fn property_field(s: Seq<u8>) -> Option<(PropertyView, nat)> {
    match text_field(s) {
        Some((name, a)) => match text_field(s.skip(a as int)) {
            Some((value, b)) => match optional_text_field(s.skip((a + b) as int)) {
                Some((signature, c)) => Some((PropertyView { name, value, signature }, a + b + c)),
                None => None,
            },
            None => None,
        },
        None => None,
    }
}

/// The first `count` profile properties at the front of `s`, one after the other.
pub open spec fn properties_field(s: Seq<u8>, count: nat) -> Option<(Seq<PropertyView>, nat)>
    decreases count,
{
    if count == 0 {
        Some((Seq::empty(), 0nat))
    } else {
        match properties_field(s, (count - 1) as nat) {
            Some((properties, taken)) => match property_field(s.skip(taken as int)) {
                Some((property, n)) => Some((properties.push(property), taken + n)),
                None => None,
            },
            None => None,
        }
    }
}

/// The handshake that `body` spells: the protocol version, the address and port that the
/// client connected to, and the state that it asks for, 1 for status and 2 for login. Bytes
/// after these are not looked at.
pub open spec fn parse_handshake(body: Seq<u8>) -> Option<HandshakeView> {
    match varint_field(body) {
        Some((protocol_version, a)) => match text_field(body.skip(a as int)) {
            Some((server_address, b)) => {
                let rest = body.skip((a + b) as int);
                if rest.len() < 2 {
                    None
                } else {
                    let server_port = big_endian(rest.subrange(0, 2)) as u16;
                    match varint_field(rest.skip(2)) {
                        Some((1, _)) => Some(
                            HandshakeView {
                                protocol_version,
                                server_address,
                                server_port,
                                next_state: HandshakeNextState::Status,
                            },
                        ),
                        Some((2, _)) => Some(
                            HandshakeView {
                                protocol_version,
                                server_address,
                                server_port,
                                next_state: HandshakeNextState::Login,
                            },
                        ),
                        _ => None,
                    }
                }
            },
            None => None,
        },
        None => None,
    }
}

/// The compression notice that `body` spells: the threshold. Bytes after it are not looked
/// at.
pub open spec fn parse_login_compression(body: Seq<u8>) -> Option<LoginCompressionS2c> {
    match varint_field(body) {
        Some((threshold, _)) => Some(LoginCompressionS2c { threshold }),
        None => None,
    }
}

/// The login success that `body` spells: the player's id in sixteen bytes, the player's
/// name, and the counted list of profile properties. Bytes after these are not looked at.
pub open spec fn parse_login_success(body: Seq<u8>) -> Option<LoginSuccessView> {
    if body.len() < 16 {
        None
    } else {
        let uuid = big_endian(body.subrange(0, 16)) as u128;
        match text_field(body.skip(16)) {
            Some((username, a)) => match varint_field(body.skip((16 + a) as int)) {
                Some((count, b)) => if count < 0 {
                    None
                } else {
                    match properties_field(body.skip((16 + a + b) as int), count as nat) {
                        Some((properties, _)) => Some(
                            LoginSuccessView { uuid, username, properties },
                        ),
                        None => None,
                    }
                },
                None => None,
            },
            None => None,
        }
    }
}

/// Checks with `core::str::from_utf8` whether `bytes` are UTF-8, and gives them as text
/// where they are.
///
/// Relied on: the check succeeds exactly on well-formed UTF-8, and the text is what the
/// bytes encode.
#[verifier::external_body]
fn utf8_text(bytes: &[u8]) -> (text: Option<&str>)
    ensures
        match text {
            Some(t) => valid_utf8(bytes@) && t@ == decode_utf8(bytes@),
            None => !valid_utf8(bytes@),
        },
{
    match core::str::from_utf8(bytes) {
        Ok(t) => Some(t),
        Err(_) => None,
    }
}

/// Reads a variable-length integer off the front of `input`.
fn take_varint(input: &[u8]) -> (r: Option<(i32, usize)>)
    ensures
        match varint_field(input@) {
            Some((value, taken)) => r == Some((value, taken as usize)) && 1 <= taken
                <= input@.len(),
            None => r is None,
        },
{
    match read_varint(input) {
        VarIntRead::Value { value, len } => Some((value, len)),
        _ => None,
    }
}

/// Reads a text off the front of `input`.
fn take_text(input: &[u8]) -> (r: Option<(String, usize)>)
    ensures
        match text_field(input@) {
            Some((text, taken)) => r matches Some((t, n)) && t@ == text && n == taken && 1
                <= taken <= input@.len(),
            None => r is None,
        },
{
    let (n, taken) = match take_varint(input) {
        Some(field) => field,
        None => {
            return None;
        },
    };
    if n < 0 || n as usize > input.len() - taken {
        return None;
    }
    let end: usize = taken + n as usize;
    match utf8_text(slice_subrange(input, taken, end)) {
        Some(text) => Some((text.to_owned(), end)),
        None => None,
    }
}

/// Reads a text that may be absent off the front of `input`.
fn take_optional_text(input: &[u8]) -> (r: Option<(Option<String>, usize)>)
    ensures
        match optional_text_field(input@) {
            Some((text, taken)) => r matches Some((t, n)) && n == taken && 1 <= taken
                <= input@.len() && match text {
                Some(seq) => t matches Some(string) && string@ == seq,
                None => t is None,
            },
            None => r is None,
        },
{
    if input.len() < 1 || input[0] > 1 {
        return None;
    }
    if input[0] == 0 {
        return Some((None, 1));
    }
    let rest = slice_subrange(input, 1, input.len());
    assert(rest@ =~= input@.skip(1));
    match take_text(rest) {
        Some((text, n)) => Some((Some(text), 1 + n)),
        None => None,
    }
}

/// Reads a profile property off the front of `input`.
fn take_property(input: &[u8]) -> (r: Option<(Property, usize)>)
    ensures
        match property_field(input@) {
            Some((property, taken)) => r matches Some((p, n)) && p@ == property && n == taken
                && 3 <= taken <= input@.len(),
            None => r is None,
        },
{
    let (name, a) = match take_text(input) {
        Some(field) => field,
        None => {
            return None;
        },
    };
    let after_name = slice_subrange(input, a, input.len());
    assert(after_name@ =~= input@.skip(a as int));
    let (value, b) = match take_text(after_name) {
        Some(field) => field,
        None => {
            return None;
        },
    };
    let after_value = slice_subrange(input, a + b, input.len());
    assert(after_value@ =~= input@.skip((a + b) as int));
    let (signature, c) = match take_optional_text(after_value) {
        Some(field) => field,
        None => {
            return None;
        },
    };
    Some((Property { name, value, signature }, a + b + c))
}

/// Once the properties cannot be read, asking for more of them does not help.
proof fn lemma_properties_stay_unreadable(s: Seq<u8>, i: nat, count: nat)
    requires
        i <= count,
        properties_field(s, i) is None,
    ensures
        properties_field(s, count) is None,
    decreases count - i,
{
    if i < count {
        assert(properties_field(s, i + 1) is None);
        lemma_properties_stay_unreadable(s, i + 1, count);
    }
}

/// Reads `count` profile properties off the front of `input`.
fn take_properties(input: &[u8], count: u32) -> (r: Option<Vec<Property>>)
    ensures
        match properties_field(input@, count as nat) {
            Some((properties, _)) => r matches Some(list) && list@.map_values(|p: Property| p@)
                == properties,
            None => r is None,
        },
{
    let mut list: Vec<Property> = Vec::new();
    let mut pos: usize = 0;
    let mut i: u32 = 0;
    assert(list@.map_values(|p: Property| p@) =~= Seq::<PropertyView>::empty());
    while i < count
        invariant
            i <= count,
            pos <= input@.len(),
            properties_field(input@, i as nat) == Some(
                (list@.map_values(|p: Property| p@), pos as nat),
            ),
        decreases count - i,
    {
        let rest = slice_subrange(input, pos, input.len());
        assert(rest@ =~= input@.skip(pos as int));
        match take_property(rest) {
            Some((property, n)) => {
                let ghost before = list@.map_values(|p: Property| p@);
                list.push(property);
                assert(list@.map_values(|p: Property| p@) =~= before.push(property@));
                pos = pos + n;
            },
            None => {
                proof {
                    assert(properties_field(input@, (i + 1) as nat) is None);
                    lemma_properties_stay_unreadable(input@, (i + 1) as nat, count as nat);
                }
                return None;
            },
        }
        i = i + 1;
    }
    Some(list)
}

/// Reads the number that `input` spells, most significant byte first.
fn take_big_endian(input: &[u8]) -> (value: u128)
    requires
        input@.len() <= 16,
    ensures
        value == big_endian(input@),
{
    let mut value: u128 = 0;
    let mut i: usize = 0;
    assert(input@.subrange(0, 0) =~= Seq::<u8>::empty());
    while i < input.len()
        invariant
            i <= input@.len() <= 16,
            value == big_endian(input@.subrange(0, i as int)),
            value < pow256(i as nat),
        decreases input@.len() - i,
    {
        proof {
            let next = input@.subrange(0, i + 1);
            assert(next.drop_last() =~= input@.subrange(0, i as int));
            assert(next.last() == input@[i as int]);
            lemma_pow256_bound(i as nat);
            assert(256 * value + input@[i as int] < 256 * pow256(i as nat)) by (nonlinear_arith)
                requires
                    value < pow256(i as nat),
                    input@[i as int] < 256,
            ;
        }
        value = 256 * value + input[i] as u128;
        i = i + 1;
    }
    assert(input@.subrange(0, i as int) =~= input@);
    value
}

/// 256 to the power `k`.
pub open spec fn pow256(k: nat) -> nat
    decreases k,
{
    if k == 0 {
        1
    } else {
        256 * pow256((k - 1) as nat)
    }
}

/// Sixteen bytes spell a number of 128 bits.
proof fn lemma_pow256_bound(k: nat)
    requires
        k < 16,
    ensures
        256 * pow256(k) <= 0x1_0000_0000_0000_0000_0000_0000_0000_0000,
{
    reveal_with_fuel(pow256, 17);
}

impl HandshakeC2s {
    /// Reads a handshake off `body`.
    pub fn decode(body: &[u8]) -> (r: Option<HandshakeC2s>)
        ensures
            match parse_handshake(body@) {
                Some(handshake) => r matches Some(h) && h@ == handshake,
                None => r is None,
            },
    {
        let (protocol_version, a) = match take_varint(body) {
            Some(field) => field,
            None => {
                return None;
            },
        };
        let after_version = slice_subrange(body, a, body.len());
        assert(after_version@ =~= body@.skip(a as int));
        let (server_address, b) = match take_text(after_version) {
            Some(field) => field,
            None => {
                return None;
            },
        };
        let rest = slice_subrange(body, a + b, body.len());
        assert(rest@ =~= body@.skip(a + b));
        if rest.len() < 2 {
            return None;
        }
        let port = take_big_endian(slice_subrange(rest, 0, 2));
        proof {
            reveal_with_fuel(big_endian, 3);
        }
        let server_port: u16 = port as u16;
        let tail = slice_subrange(rest, 2, rest.len());
        assert(tail@ =~= rest@.skip(2));
        let next_state = match take_varint(tail) {
            Some((1, _)) => HandshakeNextState::Status,
            Some((2, _)) => HandshakeNextState::Login,
            _ => {
                return None;
            },
        };
        Some(HandshakeC2s { protocol_version, server_address, server_port, next_state })
    }
}

impl LoginCompressionS2c {
    /// Reads a compression notice off `body`.
    pub fn decode(body: &[u8]) -> (r: Option<LoginCompressionS2c>)
        ensures
            r == parse_login_compression(body@),
    {
        match take_varint(body) {
            Some((threshold, _)) => Some(LoginCompressionS2c { threshold }),
            None => None,
        }
    }
}

impl LoginSuccessS2c {
    /// Reads a login success off `body`.
    pub fn decode(body: &[u8]) -> (r: Option<LoginSuccessS2c>)
        ensures
            match parse_login_success(body@) {
                Some(success) => r matches Some(s) && s@ == success,
                None => r is None,
            },
    {
        if body.len() < 16 {
            return None;
        }
        let uuid = take_big_endian(slice_subrange(body, 0, 16));
        let after_uuid = slice_subrange(body, 16, body.len());
        assert(after_uuid@ =~= body@.skip(16));
        let (username, a) = match take_text(after_uuid) {
            Some(field) => field,
            None => {
                return None;
            },
        };
        let after_name = slice_subrange(body, 16 + a, body.len());
        assert(after_name@ =~= body@.skip(16 + a));
        let (count, b) = match take_varint(after_name) {
            Some(field) => field,
            None => {
                return None;
            },
        };
        if count < 0 {
            return None;
        }
        let rest = slice_subrange(body, 16 + a + b, body.len());
        assert(rest@ =~= body@.skip(16 + a + b));
        match take_properties(rest, count as u32) {
            Some(properties) => Some(LoginSuccessS2c { uuid, username, properties }),
            None => None,
        }
    }
}

/// Reads `frame` as a handshake: `None` where its id is that of another packet or its body
/// does not spell one.
pub fn extrapolate_handshake(frame: &PacketFrame) -> (r: Option<HandshakeC2s>)
    ensures
        match handshake_in(frame.id, frame.body@) {
            Some(handshake) => r matches Some(h) && h@ == handshake,
            None => r is None,
        },
{
    if frame.id != HANDSHAKE_C2S {
        return None;
    }
    HandshakeC2s::decode(frame.body.as_slice())
}

/// Reads `frame` as a compression notice: `None` where its id is that of another packet or
/// its body does not spell one.
pub fn extrapolate_login_compression(frame: &PacketFrame) -> (r: Option<LoginCompressionS2c>)
    ensures
        r == login_compression_in(frame.id, frame.body@),
{
    if frame.id != LOGIN_COMPRESSION_S2C {
        return None;
    }
    LoginCompressionS2c::decode(frame.body.as_slice())
}

/// Reads `frame` as a login success: `None` where its id is that of another packet or its
/// body does not spell one.
pub fn extrapolate_login_success(frame: &PacketFrame) -> (r: Option<LoginSuccessS2c>)
    ensures
        match login_success_in(frame.id, frame.body@) {
            Some(success) => r matches Some(s) && s@ == success,
            None => r is None,
        },
{
    if frame.id != LOGIN_SUCCESS_S2C {
        return None;
    }
    LoginSuccessS2c::decode(frame.body.as_slice())
}

/// The handshake in a frame with number `id` and bytes `body`, if it is one.
pub open spec fn handshake_in(id: i32, body: Seq<u8>) -> Option<HandshakeView> {
    if id == HANDSHAKE_C2S {
        parse_handshake(body)
    } else {
        None
    }
}

/// The compression notice in a frame with number `id` and bytes `body`, if it is one.
pub open spec fn login_compression_in(id: i32, body: Seq<u8>) -> Option<LoginCompressionS2c> {
    if id == LOGIN_COMPRESSION_S2C {
        parse_login_compression(body)
    } else {
        None
    }
}

/// The login success in a frame with number `id` and bytes `body`, if it is one.
pub open spec fn login_success_in(id: i32, body: Seq<u8>) -> Option<LoginSuccessView> {
    if id == LOGIN_SUCCESS_S2C {
        parse_login_success(body)
    } else {
        None
    }
}

} // verus!
