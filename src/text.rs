//! The captions an on-screen overlay can show, and the digits of a counter.
use vstd::prelude::*;

verus! {

/// One caption or glyph of the overlay.
#[derive(PartialEq, Eq, Structural, Hash, Clone, Copy, Debug)]
pub enum Text {
    Space,
    R,
    C,
    Arrow,
    ZX,
    Number(i32),
    Digit0,
    Digit1,
    Digit2,
    Digit3,
    Digit4,
    Digit5,
    Digit6,
    Digit7,
    Digit8,
    Digit9,
}

/// The glyph of decimal digit `d`.
pub open spec fn digit_text(d: int) -> Text {
    if d == 0 {
        Text::Digit0
    } else if d == 1 {
        Text::Digit1
    } else if d == 2 {
        Text::Digit2
    } else if d == 3 {
        Text::Digit3
    } else if d == 4 {
        Text::Digit4
    } else if d == 5 {
        Text::Digit5
    } else if d == 6 {
        Text::Digit6
    } else if d == 7 {
        Text::Digit7
    } else if d == 8 {
        Text::Digit8
    } else {
        Text::Digit9
    }
}

/// The decimal digits of `n`, most significant first; `0` has the one digit 0.
pub open spec fn decimal_digits(n: nat) -> Seq<int>
    decreases n,
{
    if n < 10 {
        seq![n as int]
    } else {
        decimal_digits(n / 10).push((n % 10) as int)
    }
}

fn digit_glyph(d: u32) -> (t: Text)
    requires
        d < 10,
    ensures
        t == digit_text(d as int),
{
    match d {
        0 => Text::Digit0,
        1 => Text::Digit1,
        2 => Text::Digit2,
        3 => Text::Digit3,
        4 => Text::Digit4,
        5 => Text::Digit5,
        6 => Text::Digit6,
        7 => Text::Digit7,
        8 => Text::Digit8,
        _ => Text::Digit9,
    }
}

fn push_digits(n: u32, out: &mut Vec<Text>)
    ensures
        final(out)@ == old(out)@ + decimal_digits(n as nat).map_values(|d: int| digit_text(d)),
    decreases n,
{
    if n >= 10 {
        push_digits(n / 10, out);
    }
    out.push(digit_glyph(n % 10));
    proof {
        let f = |d: int| digit_text(d);
        if n >= 10 {
            let front = decimal_digits((n / 10) as nat);
            assert(front.push((n % 10) as int).map_values(f) =~= front.map_values(f).push(
                digit_text((n % 10) as int),
            ));
        } else {
            assert(seq![n as int].map_values(f) =~= seq![digit_text(n as int)]);
        }
        assert(final(out)@ =~= old(out)@ + decimal_digits(n as nat).map_values(f));
    }
}

impl Text {
    /// The glyph of a decimal digit character.
    pub fn from_digit(ch: char) -> (t: Text)
        requires
            '0' <= ch <= '9',
        ensures
            t == digit_text(ch as int - '0' as int),
    {
        digit_glyph((ch as u32) - ('0' as u32))
    }

    /// The glyphs that spell a non-negative counter, most significant first.
    pub fn digits(number: i32) -> (r: Vec<Text>)
        requires
            number >= 0,
        ensures
            r@ == decimal_digits(number as nat).map_values(|d: int| digit_text(d)),
    {
        let mut r: Vec<Text> = Vec::new();
        push_digits(number as u32, &mut r);
        proof {
            assert(r@ =~= decimal_digits(number as nat).map_values(|d: int| digit_text(d)));
        }
        r
    }
}

} // verus!
