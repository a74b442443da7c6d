//! The 8-bit color model and its textual form.
use vstd::prelude::*;

verus! {

/// A display color: three 8-bit channels.
#[derive(Clone, Copy, Debug, PartialEq, Eq, Structural, PartialOrd, Ord)]
pub struct HexColor {
    pub r: u8,
    pub g: u8,
    pub b: u8,
}

/// The uppercase hexadecimal digit for `n < 16`.
pub open spec fn hex_digit_char(n: int) -> char {
    if n < 10 {
        (48 + n) as char
    } else {
        (55 + n) as char
    }
}

/// The two uppercase digits of one channel, high digit first.
pub open spec fn channel_hex(v: u8) -> Seq<char> {
    seq![hex_digit_char(v as int / 16), hex_digit_char(v as int % 16)]
}

/// `#RRGGBB`, uppercase, two digits per channel.
pub open spec fn hex_string(c: HexColor) -> Seq<char> {
    seq!['#'] + channel_hex(c.r) + channel_hex(c.g) + channel_hex(c.b)
}

/// Whether `ch` is one of `0-9` or `A-F`.
pub open spec fn is_upper_hex_char(ch: char) -> bool {
    ('0' <= ch && ch <= '9') || ('A' <= ch && ch <= 'F')
}

pub(crate) fn hex_digit(n: u8) -> (r: &'static str)
    requires
        n < 16,
    ensures
        r@ == seq![hex_digit_char(n as int)],
{
    match n {
        0 => { proof { reveal_strlit("0"); } "0" },
        1 => { proof { reveal_strlit("1"); } "1" },
        2 => { proof { reveal_strlit("2"); } "2" },
        3 => { proof { reveal_strlit("3"); } "3" },
        4 => { proof { reveal_strlit("4"); } "4" },
        5 => { proof { reveal_strlit("5"); } "5" },
        6 => { proof { reveal_strlit("6"); } "6" },
        7 => { proof { reveal_strlit("7"); } "7" },
        8 => { proof { reveal_strlit("8"); } "8" },
        9 => { proof { reveal_strlit("9"); } "9" },
        10 => { proof { reveal_strlit("A"); } "A" },
        11 => { proof { reveal_strlit("B"); } "B" },
        12 => { proof { reveal_strlit("C"); } "C" },
        13 => { proof { reveal_strlit("D"); } "D" },
        14 => { proof { reveal_strlit("E"); } "E" },
        _ => { proof { reveal_strlit("F"); } "F" },
    }
}

fn push_channel(s: &mut String, v: u8)
    ensures
        final(s)@ == old(s)@ + channel_hex(v),
{
    s.append(hex_digit(v / 16));
    s.append(hex_digit(v % 16));
    assert(final(s)@ =~= old(s)@ + channel_hex(v));
}

impl HexColor {
    /// The color as `#RRGGBB` with uppercase hexadecimal digits.
    pub fn to_hex_string(&self) -> (r: String)
        ensures
            r@ == hex_string(*self),
    {
        let mut s = String::from_str("#");
        proof { reveal_strlit("#"); }
        push_channel(&mut s, self.r);
        push_channel(&mut s, self.g);
        push_channel(&mut s, self.b);
        assert(s@ =~= hex_string(*self));
        s
    }
}

/// The hexadecimal form is always `#` and six uppercase hex digits.
pub proof fn lemma_hex_string_shape(c: HexColor)
    ensures
        hex_string(c).len() == 7,
        hex_string(c)[0] == '#',
        forall|i: int| 1 <= i < 7 ==> is_upper_hex_char(#[trigger] hex_string(c)[i]),
{
    assert(hex_string(c).len() == 7);
    assert forall|i: int| 1 <= i < 7 implies is_upper_hex_char(#[trigger] hex_string(c)[i]) by {
        let v: u8 = if i < 3 { c.r } else if i < 5 { c.g } else { c.b };
        let n: int = if i % 2 == 1 { v as int / 16 } else { v as int % 16 };
        assert(hex_string(c)[i] == hex_digit_char(n));
        assert(0 <= n < 16);
    }
}

} // verus!
