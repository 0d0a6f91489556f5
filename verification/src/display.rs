//! Pretty-printing a position as a text diagram, from either side's
//! perspective.

use vstd::prelude::*;
use crate::{Color, Piece, PieceType};
use crate::helpers::rank_char;
use crate::position::{PosV, Position};
use crate::strutil;

verus! {

/// The figurine of a piece.
pub open spec fn glyph(p: Piece) -> char {
    match p {
        Piece(PieceType::K, Color::White) => '\u{2654}',
        Piece(PieceType::Q, Color::White) => '\u{2655}',
        Piece(PieceType::R, Color::White) => '\u{2656}',
        Piece(PieceType::B, Color::White) => '\u{2657}',
        Piece(PieceType::N, Color::White) => '\u{2658}',
        Piece(PieceType::P, Color::White) => '\u{2659}',
        Piece(PieceType::K, Color::Black) => '\u{265A}',
        Piece(PieceType::Q, Color::Black) => '\u{265B}',
        Piece(PieceType::R, Color::Black) => '\u{265C}',
        Piece(PieceType::B, Color::Black) => '\u{265D}',
        Piece(PieceType::N, Color::Black) => '\u{265E}',
        Piece(PieceType::P, Color::Black) => '\u{265F}',
    }
}

/// One printed cell: the occupant's figurine (or a space) between spaces.
pub open spec fn pp_cell(o: Option<Piece>) -> Seq<char> {
    seq![
        ' ',
        match o {
            Some(p) => glyph(p),
            None => ' ',
        },
        ' ',
    ]
}

/// The first `k` cells of one printed row, '|'-separated: the cells of the
/// rank starting at square `lo`, reversed when printing from black's
/// perspective.
pub open spec fn pp_row(c: Seq<Option<Piece>>, lo: int, rev: bool, k: int) -> Seq<char>
    decreases k,
{
    if k <= 0 {
        Seq::empty()
    } else {
        pp_row(c, lo, rev, k - 1) + pp_cell(
            c[lo + (if rev {
                7 - (k - 1)
            } else {
                k - 1
            })],
        ) + (if k - 1 != 7 {
            seq!['|']
        } else {
            Seq::<char>::empty()
        })
    }
}

/// The horizontal rule under each printed rank.
pub open spec fn pp_dashes() -> Seq<char> {
    Seq::new(33, |i: int| '\u{2014}')
}

/// The first `k` printed ranks from white's perspective: rank 8 at the top,
/// each line led by its rank digit.
pub open spec fn pp_white(c: Seq<Option<Piece>>, k: int) -> Seq<char>
    decreases k,
{
    if k <= 0 {
        Seq::empty()
    } else {
        pp_white(c, k - 1) + seq![rank_char(7 - (k - 1)), ' ', '|'] + pp_row(
            c,
            8 * (7 - (k - 1)),
            false,
            8,
        ) + seq!['\n'] + pp_dashes() + seq!['\n']
    }
}

/// The first `k` printed ranks from black's perspective: rank 1 at the top,
/// files reversed.
pub open spec fn pp_black(c: Seq<Option<Piece>>, k: int) -> Seq<char>
    decreases k,
{
    if k <= 0 {
        Seq::empty()
    } else {
        pp_black(c, k - 1) + seq![rank_char(k - 1), ' ', '|'] + pp_row(c, 8 * (k - 1), true, 8)
            + seq!['\n'] + pp_dashes() + seq!['\n']
    }
}

/// The whole diagram, with the file legend at the bottom.
pub open spec fn pretty_print_spec(v: PosV, perspective: Color) -> Seq<char> {
    if perspective == Color::White {
        pp_white(v.content, 8) + "  | a | b | c | d | e | f | g | h"@
    } else {
        pp_black(v.content, 8) + "  | h | g | f | e | d | c | d | a"@
    }
}

/// The figurine of a piece, as an executable function.
fn glyph_char(p: Piece) -> (r: char)
    ensures
        r == glyph(p),
{
    match p {
        Piece(PieceType::K, Color::White) => '\u{2654}',
        Piece(PieceType::Q, Color::White) => '\u{2655}',
        Piece(PieceType::R, Color::White) => '\u{2656}',
        Piece(PieceType::B, Color::White) => '\u{2657}',
        Piece(PieceType::N, Color::White) => '\u{2658}',
        Piece(PieceType::P, Color::White) => '\u{2659}',
        Piece(PieceType::K, Color::Black) => '\u{265A}',
        Piece(PieceType::Q, Color::Black) => '\u{265B}',
        Piece(PieceType::R, Color::Black) => '\u{265C}',
        Piece(PieceType::B, Color::Black) => '\u{265D}',
        Piece(PieceType::N, Color::Black) => '\u{265E}',
        Piece(PieceType::P, Color::Black) => '\u{265F}',
    }
}

/// Appends one printed row of eight cells to `s`.
fn push_row(s: &mut String, content: &Vec<Option<Piece>>, lo: usize, rev: bool)
    requires
        lo <= 56,
        content@.len() == 64,
    ensures
        final(s)@ == old(s)@ + pp_row(content@, lo as int, rev, 8),
{
    let mut sqi: usize = 0;
    while sqi < 8
        invariant
            0 <= sqi <= 8,
            lo <= 56,
            content@.len() == 64,
            s@ == old(s)@ + pp_row(content@, lo as int, rev, sqi as int),
        decreases 8 - sqi,
    {
        let idx = if rev {
            lo + 7 - sqi
        } else {
            lo + sqi
        };
        strutil::push_char(s, ' ');
        match content[idx] {
            Some(p) => strutil::push_char(s, glyph_char(p)),
            None => strutil::push_char(s, ' '),
        }
        strutil::push_char(s, ' ');
        if sqi != 7 {
            strutil::push_char(s, '|');
        }
        proof {
            assert(s@ =~= old(s)@ + pp_row(content@, lo as int, rev, sqi + 1));
        }
        sqi = sqi + 1;
    }
}

/// Appends the horizontal rule to `s`.
fn push_dashes(s: &mut String)
    ensures
        final(s)@ == old(s)@ + pp_dashes(),
{
    let mut i: usize = 0;
    while i < 33
        invariant
            0 <= i <= 33,
            s@ == old(s)@ + Seq::new(i as nat, |k: int| '\u{2014}'),
        decreases 33 - i,
    {
        strutil::push_char(s, '\u{2014}');
        proof {
            assert(s@ =~= old(s)@ + Seq::new((i + 1) as nat, |k: int| '\u{2014}'));
        }
        i = i + 1;
    }
    proof {
        assert(Seq::new(33nat, |k: int| '\u{2014}') =~= pp_dashes());
    }
}

impl Position {
    /// Pretty-prints the position to a string, from the perspective of the
    /// side `perspective`.
    pub fn pretty_print(&self, perspective: Color) -> (r: String)
        requires
            self@.base_wf(),
        ensures
            r@ == pretty_print_spec(self@, perspective),
    {
        let mut s = String::new();
        if perspective.is_white() {
            let mut ranki: usize = 0;
            while ranki < 8
                invariant
                    0 <= ranki <= 8,
                    self@.base_wf(),
                    s@ == pp_white(self@.content, ranki as int),
                decreases 8 - ranki,
            {
                let digit = match 8 - ranki {
                    1 => '1',
                    2 => '2',
                    3 => '3',
                    4 => '4',
                    5 => '5',
                    6 => '6',
                    7 => '7',
                    _ => '8',
                };
                strutil::push_char(&mut s, digit);
                strutil::push_char(&mut s, ' ');
                strutil::push_char(&mut s, '|');
                push_row(&mut s, &self.content, 8 * (7 - ranki), false);
                strutil::push_char(&mut s, '\n');
                push_dashes(&mut s);
                strutil::push_char(&mut s, '\n');
                proof {
                    assert(s@ =~= pp_white(self@.content, ranki + 1));
                }
                ranki = ranki + 1;
            }
            s.append("  | a | b | c | d | e | f | g | h");
        } else {
            let mut ranki: usize = 0;
            while ranki < 8
                invariant
                    0 <= ranki <= 8,
                    self@.base_wf(),
                    s@ == pp_black(self@.content, ranki as int),
                decreases 8 - ranki,
            {
                let digit = match ranki + 1 {
                    1 => '1',
                    2 => '2',
                    3 => '3',
                    4 => '4',
                    5 => '5',
                    6 => '6',
                    7 => '7',
                    _ => '8',
                };
                strutil::push_char(&mut s, digit);
                strutil::push_char(&mut s, ' ');
                strutil::push_char(&mut s, '|');
                push_row(&mut s, &self.content, 8 * ranki, true);
                strutil::push_char(&mut s, '\n');
                push_dashes(&mut s);
                strutil::push_char(&mut s, '\n');
                proof {
                    assert(s@ =~= pp_black(self@.content, ranki + 1));
                }
                ranki = ranki + 1;
            }
            s.append("  | h | g | f | e | d | c | d | a");
        }
        s
    }
}

} // verus!
