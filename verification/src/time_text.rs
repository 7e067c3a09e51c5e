//! The time of day as the packet list shows it.

use vstd::prelude::*;

verus! {

/// The character of a decimal digit.
pub open spec fn digit_char(d: nat) -> char {
    if d == 0 {
        '0'
    } else if d == 1 {
        '1'
    } else if d == 2 {
        '2'
    } else if d == 3 {
        '3'
    } else if d == 4 {
        '4'
    } else if d == 5 {
        '5'
    } else if d == 6 {
        '6'
    } else if d == 7 {
        '7'
    } else if d == 8 {
        '8'
    } else {
        '9'
    }
}

/// The decimal digits of `n`, most significant first.
pub open spec fn decimal(n: nat) -> Seq<char>
    decreases n,
{
    if n < 10 {
        seq![digit_char(n)]
    } else {
        decimal(n / 10).push(digit_char(n % 10))
    }
}

/// `count` zeros.
pub open spec fn zeros(count: nat) -> Seq<char> {
    Seq::new(count, |i: int| '0')
}

/// The decimal digits of `n`, with zeros in front of them where they are fewer than
/// `width`.
pub open spec fn padded(n: nat, width: nat) -> Seq<char> {
    let digits = decimal(n);
    if digits.len() < width {
        zeros((width - digits.len()) as nat) + digits
    } else {
        digits
    }
}

/// A time of day as text: hour, minute and second in two digits each, and the
/// milliseconds in four.
pub open spec fn clock_text(hour: u8, minute: u8, second: u8, millis: u16) -> Seq<char> {
    padded(hour as nat, 2) + seq![':'] + padded(minute as nat, 2) + seq![':'] + padded(
        second as nat,
        2,
    ) + seq!['.'] + padded(millis as nat, 4)
}

/// The text of one decimal digit.
fn digit_text(d: u16) -> (text: &'static str)
    requires
        d < 10,
    ensures
        text@ == seq![digit_char(d as nat)],
{
    proof {
        reveal_strlit("0");
        reveal_strlit("1");
        reveal_strlit("2");
        reveal_strlit("3");
        reveal_strlit("4");
        reveal_strlit("5");
        reveal_strlit("6");
        reveal_strlit("7");
        reveal_strlit("8");
        reveal_strlit("9");
    }
    let text = if d == 0 {
        "0"
    } else if d == 1 {
        "1"
    } else if d == 2 {
        "2"
    } else if d == 3 {
        "3"
    } else if d == 4 {
        "4"
    } else if d == 5 {
        "5"
    } else if d == 6 {
        "6"
    } else if d == 7 {
        "7"
    } else if d == 8 {
        "8"
    } else {
        "9"
    };
    assert(text@ =~= seq![digit_char(d as nat)]);
    text
}

/// A number below 100000 has as many digits as its size says.
proof fn lemma_decimal_len(n: nat)
    requires
        n < 100000,
    ensures
        decimal(n).len() == if n < 10 {
            1nat
        } else if n < 100 {
            2nat
        } else if n < 1000 {
            3nat
        } else if n < 10000 {
            4nat
        } else {
            5nat
        },
{
    reveal_with_fuel(decimal, 6);
}

/// Writes `n` behind `text`, in at least `width` digits.
fn push_padded(text: &mut String, n: u16, width: u16)
    requires
        width <= 4,
    ensures
        final(text)@ == old(text)@ + padded(n as nat, width as nat),
{
    let count: u16 = if n < 10 {
        1
    } else if n < 100 {
        2
    } else if n < 1000 {
        3
    } else if n < 10000 {
        4
    } else {
        5
    };
    proof {
        lemma_decimal_len(n as nat);
    }
    let mut written: u16 = count;
    while written < width
        invariant
            count <= written,
            written <= width || written == count,
            text@ == old(text)@ + zeros((written - count) as nat),
        decreases width - written,
    {
        proof {
            reveal_strlit("0");
        }
        let ghost before = text@;
        text.append("0");
        written = written + 1;
        assert(text@ =~= old(text)@ + zeros((written - count) as nat));
    }
    let ghost pad = text@;
    assert(pad =~= old(text)@ + zeros((written - count) as nat));
    let mut scale: u16 = if count == 1 {
        1
    } else if count == 2 {
        10
    } else if count == 3 {
        100
    } else if count == 4 {
        1000
    } else {
        10000
    };
    let mut left: u16 = count;
    assert(decimal((n / scale) as nat) =~= seq![digit_char((n / scale) as nat)]);
    let first = digit_text(n / scale);
    text.append(first);
    left = left - 1;
    proof {
        reveal_with_fuel(pow10, 6);
    }
    while left > 0
        invariant
            0 <= left < count <= 5,
            scale == pow10(left as nat),
            count > 1 ==> n / scale >= 1,
            text@ == pad + decimal((n / scale) as nat),
        decreases left,
    {
        proof {
            reveal_with_fuel(pow10, 6);
        }
        let next: u16 = scale / 10;
        let digit: u16 = (n / next) % 10;
        proof {
            assert((n / next) / 10 == n / scale) by (nonlinear_arith)
                requires
                    scale == 10 * next,
                    next > 0,
            ;
            assert(n / next >= 10);
        }
        text.append(digit_text(digit));
        scale = next;
        left = left - 1;
        assert(text@ =~= pad + decimal((n / scale) as nat));
    }
    assert(scale == 1) by {
        reveal_with_fuel(pow10, 2);
    }
}

/// Ten to the power `k`.
pub open spec fn pow10(k: nat) -> nat
    decreases k,
{
    if k == 0 {
        1
    } else {
        10 * pow10((k - 1) as nat)
    }
}

/// The time of day as the packet list shows it, such as `09:05:00.0042`.
pub fn systemtime_strftime(hour: u8, minute: u8, second: u8, millis: u16) -> (text: String)
    ensures
        text@ == clock_text(hour, minute, second, millis),
{
    proof {
        reveal_strlit(":");
        reveal_strlit(".");
    }
    let mut text = String::new();
    assert(text@ =~= Seq::<char>::empty());
    push_padded(&mut text, hour as u16, 2);
    text.append(":");
    push_padded(&mut text, minute as u16, 2);
    text.append(":");
    push_padded(&mut text, second as u16, 2);
    text.append(".");
    push_padded(&mut text, millis, 4);
    assert(text@ =~= clock_text(hour, minute, second, millis));
    text
}

} // verus!
