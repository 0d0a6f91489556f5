//! RGB colors and hex color parsing, for consumers that draw the board.

use vstd::prelude::*;
use crate::errors::InvalidHexError;
use crate::strutil;

verus! {

/// The value of a hexadecimal digit character, or 16 for any other
/// character.
pub open spec fn hex_val(c: char) -> int {
    if c == '0' {
        0
    } else if c == '1' {
        1
    } else if c == '2' {
        2
    } else if c == '3' {
        3
    } else if c == '4' {
        4
    } else if c == '5' {
        5
    } else if c == '6' {
        6
    } else if c == '7' {
        7
    } else if c == '8' {
        8
    } else if c == '9' {
        9
    } else if c == 'a' || c == 'A' {
        10
    } else if c == 'b' || c == 'B' {
        11
    } else if c == 'c' || c == 'C' {
        12
    } else if c == 'd' || c == 'D' {
        13
    } else if c == 'e' || c == 'E' {
        14
    } else if c == 'f' || c == 'F' {
        15
    } else {
        16
    }
}

/// The text with every '#' removed.
pub open spec fn strip_hash(s: Seq<char>) -> Seq<char>
    decreases s.len(),
{
    if s.len() == 0 {
        Seq::empty()
    } else {
        (if s[0] == '#' {
            Seq::<char>::empty()
        } else {
            seq![s[0]]
        }) + strip_hash(s.drop_first())
    }
}

/// Represents an RGB color.
#[derive(Eq, PartialEq, Structural, Hash, Copy, Clone, Debug)]
pub struct Rgb(pub u8, pub u8, pub u8);

/// The color a hex color text denotes, when its six digits (after removing
/// any '#') are all hexadecimal.
pub open spec fn rgb_of_hex(s: Seq<char>) -> Option<Rgb> {
    let h = strip_hash(s);
    if h.len() == 6 && hex_val(h[0]) < 16 && hex_val(h[1]) < 16 && hex_val(h[2]) < 16 && hex_val(
        h[3],
    ) < 16 && hex_val(h[4]) < 16 && hex_val(h[5]) < 16 {
        Some(
            Rgb(
                (hex_val(h[0]) * 16 + hex_val(h[1])) as u8,
                (hex_val(h[2]) * 16 + hex_val(h[3])) as u8,
                (hex_val(h[4]) * 16 + hex_val(h[5])) as u8,
            ),
        )
    } else {
        None
    }
}

/// The value of a hexadecimal digit character, as an executable function.
fn hex_digit(c: char) -> (r: usize)
    ensures
        r == hex_val(c),
{
    match c {
        '0' => 0,
        '1' => 1,
        '2' => 2,
        '3' => 3,
        '4' => 4,
        '5' => 5,
        '6' => 6,
        '7' => 7,
        '8' => 8,
        '9' => 9,
        'a' | 'A' => 10,
        'b' | 'B' => 11,
        'c' | 'C' => 12,
        'd' | 'D' => 13,
        'e' | 'E' => 14,
        'f' | 'F' => 15,
        _ => 16,
    }
}

impl Rgb {
    /// Creates a new instance of `Rgb`.
    pub fn new(r: u8, g: u8, b: u8) -> (c: Self)
        ensures
            c == Rgb(r, g, b),
    {
        Rgb(r, g, b)
    }

    /// Attempts to create a new instance of `Rgb` from a hex color,
    /// returning an error carrying the '#'-stripped text if it is invalid.
    pub fn from_hex(hex: &str) -> (r: Result<Self, InvalidHexError>)
        ensures
            match r {
                Ok(c) => rgb_of_hex(hex@) == Some(c),
                Err(e) => rgb_of_hex(hex@) is None && e.0@ == strip_hash(hex@),
            },
    {
        let n = hex.unicode_len();
        let mut stripped = String::new();
        proof {
            assert(hex@.subrange(0, n as int) =~= hex@);
            assert(stripped@ + strip_hash(hex@) =~= strip_hash(hex@));
        }
        let mut i: usize = 0;
        while i < n
            invariant
                0 <= i <= n,
                n == hex@.len(),
                strip_hash(hex@) == stripped@ + strip_hash(hex@.subrange(i as int, n as int)),
                stripped@.len() <= i,
            decreases n - i,
        {
            let ghost sfx = hex@.subrange(i as int, n as int);
            proof {
                assert(sfx[0] == hex@[i as int]);
                assert(sfx.drop_first() =~= hex@.subrange(i + 1, n as int));
            }
            let c = hex.get_char(i);
            if c != '#' {
                strutil::push_char(&mut stripped, c);
            }
            i = i + 1;
        }
        proof {
            assert(hex@.subrange(n as int, n as int) =~= Seq::<char>::empty());
            assert(stripped@ =~= strip_hash(hex@));
        }
        if stripped.as_str().unicode_len() != 6 {
            return Err(InvalidHexError(stripped));
        }
        let d0 = hex_digit(stripped.as_str().get_char(0));
        let d1 = hex_digit(stripped.as_str().get_char(1));
        let d2 = hex_digit(stripped.as_str().get_char(2));
        let d3 = hex_digit(stripped.as_str().get_char(3));
        let d4 = hex_digit(stripped.as_str().get_char(4));
        let d5 = hex_digit(stripped.as_str().get_char(5));
        if d0 == 16 || d1 == 16 || d2 == 16 || d3 == 16 || d4 == 16 || d5 == 16 {
            return Err(InvalidHexError(stripped));
        }
        Ok(
            Rgb(
                (d0 * 16 + d1) as u8,
                (d2 * 16 + d3) as u8,
                (d4 * 16 + d5) as u8,
            ),
        )
    }

    /// Returns the RGB values of this `Rgb` object.
    pub fn values(&self) -> (r: (u8, u8, u8))
        ensures
            r.0 == self.0 && r.1 == self.1 && r.2 == self.2,
    {
        let Rgb(r, g, b) = self;
        (*r, *g, *b)
    }
}

} // verus!
