//! The variable-length integer of the wire format: a 32-bit value cut into groups of seven
//! bits, lowest group first, each group in one byte whose top bit says that another follows.

use vstd::prelude::*;

verus! {

/// The largest number of bytes that one encoded value takes.
pub const VARINT_MAX_SIZE: usize = 5;

/// What reading one value off the front of a byte sequence gives.
#[derive(Clone, Copy, Debug, PartialEq, Eq, Structural)]
pub enum VarIntRead {
    /// The bytes end before the value does.
    Incomplete,
    /// Five bytes were read and each announces another.
    TooLarge,
    /// A value, and the number of bytes that it took.
    Value { value: i32, len: usize },
}

/// The 32 bits of `i`, read as an unsigned number.
pub open spec fn unsigned_bits(i: i32) -> nat {
    if i >= 0 {
        i as nat
    } else {
        (i + 0x1_0000_0000) as nat
    }
}

/// The low 32 bits of `n`, read as a signed number in two's complement.
pub open spec fn signed_bits(n: nat) -> int {
    let low = n % 0x1_0000_0000;
    if low < 0x8000_0000 {
        low as int
    } else {
        low - 0x1_0000_0000
    }
}

/// The groups of `x` as bytes: seven bits each, lowest first, the top bit set on all but the
/// last.
pub open spec fn varint_groups(x: nat) -> Seq<u8>
    decreases x,
{
    if x < 128 {
        seq![x as u8]
    } else {
        seq![(x % 128 + 128) as u8] + varint_groups(x / 128)
    }
}

/// The wire bytes of `i`.
pub open spec fn varint_bytes(i: i32) -> Seq<u8> {
    varint_groups(unsigned_bits(i))
}

/// The number of leading bytes of `s` that announce another byte.
pub open spec fn continued_prefix(s: Seq<u8>) -> nat
    decreases s.len(),
{
    if s.len() == 0 || s[0] < 128 {
        0
    } else {
        1 + continued_prefix(s.drop_first())
    }
}

/// The number that the first `n` bytes of `s` spell, seven bits from each, lowest first.
pub open spec fn groups_value(s: Seq<u8>, n: nat) -> nat
    decreases n,
{
    if n == 0 || s.len() == 0 {
        0
    } else {
        (s[0] % 128) as nat + 128 * groups_value(s.drop_first(), (n - 1) as nat)
    }
}

/// What reading one value off the front of `s` gives. Bits of the fifth byte that do not fit
/// into 32 are dropped.
pub open spec fn parse_varint(s: Seq<u8>) -> VarIntRead {
    let k = continued_prefix(s);
    if k >= 5 {
        VarIntRead::TooLarge
    } else if k >= s.len() {
        VarIntRead::Incomplete
    } else {
        VarIntRead::Value {
            value: signed_bits(groups_value(s, k + 1)) as i32,
            len: (k + 1) as usize,
        }
    }
}

/// 128 to the power `k`.
pub open spec fn pow128(k: nat) -> nat
    decreases k,
{
    if k == 0 {
        1
    } else {
        128 * pow128((k - 1) as nat)
    }
}

/// A number below 128 to the power `k` has at most `k` groups.
pub proof fn lemma_groups_len(x: nat, k: nat)
    requires
        k >= 1,
        x < pow128(k),
    ensures
        1 <= varint_groups(x).len() <= k,
    decreases k,
{
    reveal_with_fuel(pow128, 2);
    if x >= 128 {
        assert(k >= 2);
        assert(x / 128 < pow128((k - 1) as nat)) by {
            assert(pow128(k) == 128 * pow128((k - 1) as nat));
        }
        lemma_groups_len(x / 128, (k - 1) as nat);
    }
}

/// An encoded value takes between one and five bytes.
pub proof fn lemma_varint_len(i: i32)
    ensures
        1 <= varint_bytes(i).len() <= 5,
{
    assert(pow128(5) == 0x8_0000_0000) by {
        reveal_with_fuel(pow128, 6);
    }
    lemma_groups_len(unsigned_bits(i), 5);
}

/// Reading the groups of `x`, whatever bytes follow them, stops at their last byte and spells
/// `x`.
pub proof fn lemma_groups_read(x: nat, rest: Seq<u8>)
    ensures
        continued_prefix(varint_groups(x) + rest) == varint_groups(x).len() - 1,
        groups_value(varint_groups(x) + rest, varint_groups(x).len()) == x,
    decreases x,
{
    let g = varint_groups(x);
    let s = g + rest;
    if x < 128 {
        assert(s[0] == x as u8);
        assert(groups_value(s.drop_first(), 0) == 0);
    } else {
        let tail = varint_groups(x / 128);
        lemma_groups_read(x / 128, rest);
        assert(s[0] == (x % 128 + 128) as u8);
        assert(s.drop_first() =~= tail + rest);
        assert(g.len() == tail.len() + 1);
        assert((s[0] % 128) as nat == x % 128);
    }
}

/// Reading back what was written gives the value and the number of bytes written, whatever
/// follows them.
pub proof fn lemma_varint_round_trip(i: i32, rest: Seq<u8>)
    ensures
        parse_varint(varint_bytes(i) + rest) == (VarIntRead::Value {
            value: i,
            len: varint_bytes(i).len() as usize,
        }),
{
    lemma_varint_len(i);
    lemma_groups_read(unsigned_bits(i), rest);
}

/// The wire bytes of `i`.
pub fn varint_to_bytes(i: i32) -> (buf: Vec<u8>)
    ensures
        buf@ == varint_bytes(i),
{
    let bits: u32 = if i >= 0 {
        i as u32
    } else {
        (i as i64 + 0x1_0000_0000) as u32
    };
    let mut x: u32 = bits;
    let mut buf: Vec<u8> = Vec::new();
    while x >= 128
        invariant
            varint_groups(bits as nat) == buf@ + varint_groups(x as nat),
        decreases x,
    {
        let ghost before = buf@;
        buf.push((x % 128 + 128) as u8);
        proof {
            assert(varint_groups(x as nat) == seq![(x % 128 + 128) as u8] + varint_groups(
                (x / 128) as nat,
            ));
            assert(buf@ + varint_groups((x / 128) as nat) =~= before + varint_groups(x as nat));
        }
        x = x / 128;
    }
    buf.push(x as u8);
    proof {
        assert(buf@ =~= buf@.drop_last() + varint_groups(x as nat));
    }
    buf
}

/// The number of bytes that `i` takes on the wire.
pub fn written_size(i: i32) -> (n: usize)
    ensures
        n == varint_bytes(i).len(),
        1 <= n <= 5,
{
    proof {
        lemma_varint_len(i);
        reveal_with_fuel(varint_groups, 6);
    }
    if i < 0 {
        5
    } else if i < 128 {
        1
    } else if i < 16384 {
        2
    } else if i < 2097152 {
        3
    } else if i < 268435456 {
        4
    } else {
        5
    }
}

/// Reads one value off the front of `buf`.
pub fn read_varint(buf: &[u8]) -> (r: VarIntRead)
    ensures
        r == parse_varint(buf@),
{
    let mut acc: u64 = 0;
    let mut scale: u64 = 1;
    let mut i: usize = 0;
    while i < 5
        invariant
            i <= 5,
            i <= buf@.len(),
            scale == pow128(i as nat),
            acc < scale,
            forall|j: int| 0 <= j < i ==> buf@[j] >= 128,
            acc == groups_value(buf@, i as nat),
        decreases 5 - i,
    {
        if i >= buf.len() {
            proof {
                lemma_continued_all(buf@, i as nat);
            }
            return VarIntRead::Incomplete;
        }
        let byte: u8 = buf[i];
        proof {
            reveal_with_fuel(pow128, 6);
            lemma_groups_value_step(buf@, i as nat);
            assert(i == 0 || i == 1 || i == 2 || i == 3 || i == 4);
            assert(scale <= 268435456);
            assert((byte % 128) * scale <= 127 * 268435456) by (nonlinear_arith)
                requires
                    byte % 128 <= 127,
                    scale <= 268435456,
            ;
            assert(acc + (byte % 128) * scale < 128 * scale) by (nonlinear_arith)
                requires
                    byte % 128 <= 127,
                    acc < scale,
            ;
        }
        acc = acc + (byte % 128) as u64 * scale;
        if byte < 128 {
            proof {
                lemma_continued_stop(buf@, i as nat);
            }
            let low: u64 = acc % 0x1_0000_0000;
            let value: i32 = if low < 0x8000_0000 {
                low as i32
            } else {
                (low as i64 - 0x1_0000_0000) as i32
            };
            return VarIntRead::Value { value, len: i + 1 };
        }
        scale = scale * 128;
        i = i + 1;
    }
    proof {
        lemma_continued_at_least(buf@, 5);
    }
    VarIntRead::TooLarge
}

/// Where the first `n` bytes all announce another and the sequence ends there, the
/// announcing prefix is the whole sequence.
proof fn lemma_continued_all(s: Seq<u8>, n: nat)
    requires
        n == s.len(),
        forall|j: int| 0 <= j < n ==> s[j] >= 128,
    ensures
        continued_prefix(s) == n,
    decreases n,
{
    if n > 0 {
        lemma_continued_all(s.drop_first(), (n - 1) as nat);
    }
}

/// Where the first `n` bytes all announce another and the next one does not, the announcing
/// prefix has length `n`.
proof fn lemma_continued_stop(s: Seq<u8>, n: nat)
    requires
        n < s.len(),
        forall|j: int| 0 <= j < n ==> s[j] >= 128,
        s[n as int] < 128,
    ensures
        continued_prefix(s) == n,
    decreases n,
{
    if n > 0 {
        lemma_continued_stop(s.drop_first(), (n - 1) as nat);
    }
}

/// Where the first `n` bytes all announce another, the announcing prefix has at least that
/// length.
proof fn lemma_continued_at_least(s: Seq<u8>, n: nat)
    requires
        n <= s.len(),
        forall|j: int| 0 <= j < n ==> s[j] >= 128,
    ensures
        continued_prefix(s) >= n,
    decreases n,
{
    if n > 0 {
        lemma_continued_at_least(s.drop_first(), (n - 1) as nat);
    }
}

/// One more byte adds its seven bits above those already read.
proof fn lemma_groups_value_step(s: Seq<u8>, n: nat)
    requires
        n < s.len(),
    ensures
        groups_value(s, n + 1) == groups_value(s, n) + (s[n as int] % 128) * pow128(n),
        groups_value(s, n) < pow128(n),
    decreases n,
{
    if n == 0 {
        assert(groups_value(s.drop_first(), 0) == 0);
    } else {
        let t = s.drop_first();
        lemma_groups_value_step(t, (n - 1) as nat);
        assert(t[(n - 1) as int] == s[n as int]);
        let p = pow128((n - 1) as nat);
        let a = groups_value(t, (n - 1) as nat);
        let d = (s[n as int] % 128) as nat;
        assert(128 * (a + d * p) == 128 * a + d * (128 * p)) by (nonlinear_arith);
    }
}

/// Bytes behind a sequence do not change where its announcing prefix ends, if it ends
/// within the sequence; and a sequence that announces to its end still does so with more
/// behind it.
pub proof fn lemma_continued_prefix_extend(s: Seq<u8>, more: Seq<u8>)
    ensures
        continued_prefix(s) < s.len() ==> continued_prefix(s + more) == continued_prefix(s),
        continued_prefix(s) <= s.len(),
        continued_prefix(s + more) >= continued_prefix(s),
    decreases s.len(),
{
    if s.len() > 0 {
        assert((s + more)[0] == s[0]);
        assert((s + more).drop_first() =~= s.drop_first() + more);
        lemma_continued_prefix_extend(s.drop_first(), more);
    }
}

/// Bytes behind a sequence do not change what its first `n` bytes spell.
pub proof fn lemma_groups_value_extend(s: Seq<u8>, more: Seq<u8>, n: nat)
    requires
        n <= s.len(),
    ensures
        groups_value(s + more, n) == groups_value(s, n),
    decreases n,
{
    if n > 0 {
        assert((s + more)[0] == s[0]);
        assert((s + more).drop_first() =~= s.drop_first() + more);
        lemma_groups_value_extend(s.drop_first(), more, (n - 1) as nat);
    }
}

/// A value that was read, or found too large, is the same with more bytes behind it: only
/// an incomplete value can change as bytes arrive.
pub proof fn lemma_parse_varint_stable(s: Seq<u8>, more: Seq<u8>)
    requires
        parse_varint(s) != VarIntRead::Incomplete,
    ensures
        parse_varint(s + more) == parse_varint(s),
{
    lemma_continued_prefix_extend(s, more);
    let k = continued_prefix(s);
    if k < 5 {
        lemma_groups_value_extend(s, more, k + 1);
    }
}

} // verus!
