//! The board-snapshot exchange format: six space-separated fields — board
//! data (eight '/'-separated ranks, rank 8 first), active color, castling
//! availability, en-passant target, halfmove clock and fullmove number.
//!
//! The grammar and its validity rules are stated as specification functions;
//! `Fen::parse` returns exactly what the grammar says, and rejects a
//! snapshot whose ranks do not cover eight squares each, whose sides lack
//! exactly one king each, with a pawn on the first or last rank, where the
//! side not to move is giving check, with a claimed castling right lacking a
//! matching unique rook, or with a clock out of range.

use vstd::prelude::*;
use crate::{Color, Piece, PieceType, piece_of_char};
use crate::errors::InvalidFenError;
use crate::helpers;
use crate::helpers::{count_piece_in, king_sq, piece_squares_in};
use crate::legal::{kcp, king_capture_pseudolegal};
use crate::position::{PosV, Position, pawns_ok};
use crate::strutil;
use crate::strutil::{digit_val, parse_usize_spec};

verus! {

/// The index of the first occurrence of `sep` in `s` from `i` on, or the
/// length of `s` if there is none.
pub open spec fn find_char_from(s: Seq<char>, sep: char, i: int) -> int
    decreases s.len() - i,
{
    if i < 0 || i >= s.len() {
        s.len() as int
    } else if s[i] == sep {
        i
    } else {
        find_char_from(s, sep, i + 1)
    }
}

/// The fields of `s` separated by `sep`: splitting never drops characters,
/// and consecutive separators yield empty fields.
pub open spec fn split_on(s: Seq<char>, sep: char) -> Seq<Seq<char>>
    decreases s.len(),
    via split_on_dec
{
    let k = find_char_from(s, sep, 0);
    if k == s.len() {
        seq![s]
    } else {
        seq![s.subrange(0, k)] + split_on(s.subrange(k + 1, s.len() as int), sep)
    }
}

#[via_fn]
proof fn split_on_dec(s: Seq<char>, sep: char) {
    lemma_find_char_props(s, sep, 0);
}

/// The views of a list of strings.
pub open spec fn strs_views(ss: Seq<String>) -> Seq<Seq<char>>
    decreases ss.len(),
{
    if ss.len() == 0 {
        Seq::empty()
    } else {
        seq![ss[0]@] + strs_views(ss.drop_first())
    }
}

/// Prepending one string prepends its view.
proof fn lemma_strs_views_cons(x: String, t: Seq<String>)
    ensures
        strs_views(seq![x] + t) == seq![x@] + strs_views(t),
{
    assert((seq![x] + t).drop_first() =~= t);
    assert((seq![x] + t)[0] == x);
    assert(strs_views(seq![x] + t) == seq![x@] + strs_views(t));
}

/// The first-separator search lands on a separator when one exists.
proof fn lemma_find_char_props(s: Seq<char>, sep: char, i: int)
    requires
        0 <= i <= s.len(),
    ensures
        i <= find_char_from(s, sep, i) <= s.len(),
        find_char_from(s, sep, i) < s.len() ==> s[find_char_from(s, sep, i)] == sep,
        forall|k: int| i <= k < find_char_from(s, sep, i) ==> s[k] != sep,
    decreases s.len() - i,
{
    if i < s.len() {
        lemma_find_char_props(s, sep, i + 1);
    }
}

/// Skipping non-separators does not change the first-separator search.
proof fn lemma_find_char_skip(s: Seq<char>, sep: char, i: int, j: int)
    requires
        0 <= i <= j <= s.len(),
        forall|k: int| i <= k < j ==> s[k] != sep,
    ensures
        find_char_from(s, sep, i) == find_char_from(s, sep, j),
    decreases j - i,
{
    if i < j {
        lemma_find_char_skip(s, sep, i + 1, j);
    }
}

/// Splits a string on a separator character.
pub fn split_str(s: &str, sep: char) -> (r: Vec<String>)
    ensures
        strs_views(r@) == split_on(s@, sep),
    decreases s@.len(),
{
    let n = s.unicode_len();
    let mut k: usize = 0;
    while k < n && s.get_char(k) != sep
        invariant
            0 <= k <= n,
            n == s@.len(),
            forall|j: int| 0 <= j < k ==> s@[j] != sep,
        decreases n - k,
    {
        k = k + 1;
    }
    proof {
        lemma_find_char_skip(s@, sep, 0, k as int);
        lemma_find_char_props(s@, sep, k as int);
        assert(find_char_from(s@, sep, 0) == k);
    }
    if k == n {
        let mut out: Vec<String> = Vec::new();
        out.push(s.to_owned());
        proof {
            assert(s@.subrange(0, n as int) =~= s@);
            assert(out@.len() == 1 && out@[0]@ == s@);
            assert(out@.drop_first() =~= Seq::<String>::empty());
            assert(strs_views(out@) == seq![out@[0]@] + strs_views(out@.drop_first()));
            assert(strs_views(Seq::<String>::empty()) =~= Seq::<Seq<char>>::empty());
            assert(strs_views(out@) =~= seq![s@]);
        }
        out
    } else {
        let field = s.substring_char(0, k).to_owned();
        let rest = s.substring_char(k + 1, n);
        let mut rest_fields = split_str(rest, sep);
        let ghost rseq = rest_fields@;
        let mut out: Vec<String> = Vec::new();
        out.push(field);
        out.append(&mut rest_fields);
        proof {
            assert(out@ =~= seq![out@[0]] + rseq);
            lemma_strs_views_cons(out@[0], rseq);
            assert(strs_views(out@) == seq![out@[0]@] + strs_views(rseq));
            assert(strs_views(out@) =~= split_on(s@, sep));
        }
        out
    }
}

/// A run of `d` empty squares.
pub open spec fn empty_squares(d: int) -> Seq<Option<Piece>> {
    Seq::new(d as nat, |i: int| None)
}

/// The squares one rank's text expands to, file a first: a piece letter is
/// one occupied square, a digit 1..=8 that many empty squares; anything else
/// makes the rank invalid.
pub open spec fn rank_expansion(r: Seq<char>) -> Option<Seq<Option<Piece>>>
    decreases r.len(),
{
    if r.len() == 0 {
        Some(Seq::empty())
    } else {
        let c = r[0];
        match piece_of_char(c) {
            Some(p) => match rank_expansion(r.drop_first()) {
                Some(rest) => Some(seq![Some(p)] + rest),
                None => None,
            },
            None => {
                let d = digit_val(c);
                if 1 <= d <= 8 {
                    match rank_expansion(r.drop_first()) {
                        Some(rest) => Some(empty_squares(d) + rest),
                        None => None,
                    }
                } else {
                    None
                }
            },
        }
    }
}

/// Expands one rank's text from character `i` on.
fn expand_rank_from(s: &str, i: usize) -> (r: Option<Vec<Option<Piece>>>)
    requires
        i <= s@.len(),
    ensures
        match r {
            Some(v) => rank_expansion(s@.subrange(i as int, s@.len() as int)) == Some(v@),
            None => rank_expansion(s@.subrange(i as int, s@.len() as int)) is None,
        },
    decreases s@.len() - i,
{
    let n = s.unicode_len();
    let ghost suffix = s@.subrange(i as int, s@.len() as int);
    if i == n {
        proof {
            assert(suffix =~= Seq::<char>::empty());
        }
        return Some(Vec::new());
    }
    let c = s.get_char(i);
    proof {
        assert(suffix[0] == s@[i as int]);
        assert(suffix.drop_first() =~= s@.subrange(i + 1, s@.len() as int));
    }
    let mut head: Vec<Option<Piece>> = Vec::new();
    match Piece::try_from_char(c) {
        Ok(p) => {
            head.push(Some(p));
            proof {
                assert(head@ =~= seq![Some(p)]);
            }
        },
        Err(_) => {
            let d: usize = match c {
                '1' => 1,
                '2' => 2,
                '3' => 3,
                '4' => 4,
                '5' => 5,
                '6' => 6,
                '7' => 7,
                '8' => 8,
                _ => 0,
            };
            proof {
                assert(c == '0' ==> digit_val(c) == 0);
                assert(d == if 1 <= digit_val(c) <= 8 {
                    digit_val(c)
                } else {
                    0int
                });
            }
            if d == 0 {
                return None;
            }
            let mut j: usize = 0;
            while j < d
                invariant
                    0 <= j <= d,
                    head@ =~= empty_squares(j as int),
                decreases d - j,
            {
                head.push(None);
                proof {
                    assert(head@ =~= empty_squares(j + 1));
                }
                j = j + 1;
            }
        },
    }
    match expand_rank_from(s, i + 1) {
        Some(mut rest) => {
            head.append(&mut rest);
            Some(head)
        },
        None => None,
    }
}

/// The board content the eight rank texts describe, rank 8 stored last:
/// the first `n` ranks taken from the bottom, each covering exactly eight
/// squares.
pub open spec fn content_upto(ranks: Seq<Seq<char>>, n: int) -> Option<Seq<Option<Piece>>>
    decreases n,
{
    if n <= 0 {
        Some(Seq::empty())
    } else {
        match content_upto(ranks, n - 1) {
            Some(pre) => match rank_expansion(ranks[8 - n]) {
                Some(e) => if e.len() == 8 {
                    Some(pre + e)
                } else {
                    None
                },
                None => None,
            },
            None => None,
        }
    }
}

/// An assembled board covers eight squares a rank.
proof fn lemma_content_upto_len(ranks: Seq<Seq<char>>, n: int)
    requires
        content_upto(ranks, n) is Some,
    ensures
        content_upto(ranks, n)->0.len() == if n >= 0 {
            8 * n
        } else {
            0
        },
    decreases n,
{
    if n > 0 {
        lemma_content_upto_len(ranks, n - 1);
    }
}

/// A failed assembly stays failed as more ranks are taken.
proof fn lemma_content_upto_none(ranks: Seq<Seq<char>>, m: int, n: int)
    requires
        m <= n,
        content_upto(ranks, m) is None,
    ensures
        content_upto(ranks, n) is None,
    decreases n - m,
{
    if m < n {
        lemma_content_upto_none(ranks, m + 1, n);
    }
}

/// The views of a string list index into the strings.
proof fn lemma_strs_views_index(ss: Seq<String>)
    ensures
        strs_views(ss).len() == ss.len(),
        forall|i: int| 0 <= i < ss.len() ==> strs_views(ss)[i] == ss[i]@,
    decreases ss.len(),
{
    if ss.len() > 0 {
        lemma_strs_views_index(ss.drop_first());
        assert forall|i: int| 0 <= i < ss.len() implies strs_views(ss)[i] == ss[i]@ by {
            if i > 0 {
                assert(strs_views(ss)[i] == strs_views(ss.drop_first())[i - 1]);
                assert(ss.drop_first()[i - 1] == ss[i]);
            }
        }
    }
}

/// The scan of the castling-availability letters: each of 'K', 'Q', 'k',
/// 'q' may appear once, and only when the matching king stands where such a
/// castle is possible at all; any other character is invalid. The four
/// booleans accumulate the rights seen so far.
pub open spec fn castling_scan(
    c: Seq<char>,
    i: int,
    k: bool,
    q: bool,
    kk: bool,
    qq: bool,
    wk: int,
    bk: int,
) -> Option<(bool, bool, bool, bool)>
    decreases c.len() - i,
{
    if i < 0 || i >= c.len() {
        Some((k, q, kk, qq))
    } else {
        let ch = c[i];
        if ch == 'K' {
            if wk > 6 || k {
                None
            } else {
                castling_scan(c, i + 1, true, q, kk, qq, wk, bk)
            }
        } else if ch == 'Q' {
            if !(1 <= wk <= 7) || q {
                None
            } else {
                castling_scan(c, i + 1, k, true, kk, qq, wk, bk)
            }
        } else if ch == 'k' {
            if !(56 <= bk <= 62) || kk {
                None
            } else {
                castling_scan(c, i + 1, k, q, true, qq, wk, bk)
            }
        } else if ch == 'q' {
            if !(57 <= bk <= 63) || qq {
                None
            } else {
                castling_scan(c, i + 1, k, q, kk, true, wk, bk)
            }
        } else {
            None
        }
    }
}

/// The castling rights the castling-availability field grants: for each
/// right claimed, its side must have exactly one rook on the correct side
/// of its king, and the right names that rook's square.
pub open spec fn castling_field(
    content: Seq<Option<Piece>>,
    f: Seq<char>,
    wk: int,
    bk: int,
) -> Result<Seq<Option<usize>>, InvalidFenError> {
    if !(1 <= f.len() <= 4) {
        Err(InvalidFenError::CastlingRights)
    } else {
        let flags = if f == seq!['-'] {
            Some((false, false, false, false))
        } else {
            castling_scan(f, 0, false, false, false, false, wk, bk)
        };
        match flags {
            None => Err(InvalidFenError::CastlingRights),
            Some((k, q, kk, qq)) => {
                if k && count_piece_in(content, Piece(PieceType::R, Color::White), wk + 1, 8)
                    != 1 {
                    Err(InvalidFenError::CastlingRights)
                } else if q && count_piece_in(content, Piece(PieceType::R, Color::White), 0, wk)
                    != 1 {
                    Err(InvalidFenError::CastlingRights)
                } else if kk && count_piece_in(
                    content,
                    Piece(PieceType::R, Color::Black),
                    bk + 1,
                    64,
                ) != 1 {
                    Err(InvalidFenError::CastlingRights)
                } else if qq && count_piece_in(content, Piece(PieceType::R, Color::Black), 56, bk)
                    != 1 {
                    Err(InvalidFenError::CastlingRights)
                } else {
                    Ok(
                        seq![
                            if k {
                                Some(
                                    piece_squares_in(
                                        content,
                                        Piece(PieceType::R, Color::White),
                                        wk + 1,
                                        8,
                                    )[0],
                                )
                            } else {
                                None
                            },
                            if q {
                                Some(
                                    piece_squares_in(
                                        content,
                                        Piece(PieceType::R, Color::White),
                                        0,
                                        wk,
                                    )[0],
                                )
                            } else {
                                None
                            },
                            if kk {
                                Some(
                                    piece_squares_in(
                                        content,
                                        Piece(PieceType::R, Color::Black),
                                        bk + 1,
                                        64,
                                    )[0],
                                )
                            } else {
                                None
                            },
                            if qq {
                                Some(
                                    piece_squares_in(
                                        content,
                                        Piece(PieceType::R, Color::Black),
                                        56,
                                        bk,
                                    )[0],
                                )
                            } else {
                                None
                            },
                        ],
                    )
                }
            },
        }
    }
}

/// The en-passant target the en-passant field names: '-' for none, else a
/// square name on the third or sixth rank.
pub open spec fn ep_field(f: Seq<char>) -> Result<Option<usize>, InvalidFenError> {
    if !(1 <= f.len() <= 2) {
        Err(InvalidFenError::EnPassantTargetSquare)
    } else if f == seq!['-'] {
        Ok(None)
    } else if f.len() != 2 {
        Err(InvalidFenError::EnPassantTargetSquare)
    } else if helpers::file_val(f[0]) < 8 && (f[1] == '3' || f[1] == '6') {
        Ok(Some(helpers::sq_index(f[0], f[1]) as usize))
    } else {
        Err(InvalidFenError::EnPassantTargetSquare)
    }
}

/// The mathematical value of a snapshot.
#[verifier::ext_equal]
pub ghost struct FenV {
    pub position: PosV,
    pub halfmove_clock: usize,
    pub fullmove_number: usize,
}

/// The parse of a snapshot: six space-separated fields — board data, active
/// color, castling availability, en-passant target, halfmove clock (at most
/// 150) and fullmove number (at least 1) — with each rejection naming the
/// field at fault. Board-data rejections cover a rank not describing eight
/// squares, a side without exactly one king, a pawn on the first or last
/// rank, and the side not to move giving check.
pub open spec fn parse_fen_spec(s: Seq<char>) -> Result<FenV, InvalidFenError> {
    let fields = split_on(s, ' ');
    if fields.len() != 6 {
        Err(InvalidFenError::SixFields)
    } else {
        let ranks = split_on(fields[0], '/');
        if ranks.len() != 8 {
            Err(InvalidFenError::BoardData)
        } else {
            match content_upto(ranks, 8) {
                None => Err(InvalidFenError::BoardData),
                Some(content) => {
                    if count_piece_in(content, Piece(PieceType::K, Color::White), 0, 64) != 1
                        || count_piece_in(content, Piece(PieceType::K, Color::Black), 0, 64)
                        != 1 {
                        Err(InvalidFenError::BoardData)
                    } else if !(pawns_ok(content, Color::White) && pawns_ok(
                        content,
                        Color::Black,
                    )) {
                        Err(InvalidFenError::BoardData)
                    } else if fields[1] != seq!['w'] && fields[1] != seq!['b'] {
                        Err(InvalidFenError::ActiveColor)
                    } else {
                        let side = if fields[1] == seq!['w'] {
                            Color::White
                        } else {
                            Color::Black
                        };
                        if kcp(content, side) {
                            Err(InvalidFenError::BoardData)
                        } else {
                            let wk = king_sq(content, Color::White);
                            let bk = king_sq(content, Color::Black);
                            match castling_field(content, fields[2], wk, bk) {
                                Err(e) => Err(e),
                                Ok(rights) => match ep_field(fields[3]) {
                                    Err(e) => Err(e),
                                    Ok(ep) => match parse_usize_spec(fields[4]) {
                                        None => Err(InvalidFenError::HalfmoveClock),
                                        Some(h) => if h > 150 {
                                            Err(InvalidFenError::HalfmoveClock)
                                        } else {
                                            match parse_usize_spec(fields[5]) {
                                                None => Err(InvalidFenError::FullmoveNumber),
                                                Some(fm) => if fm < 1 {
                                                    Err(InvalidFenError::FullmoveNumber)
                                                } else {
                                                    Ok(
                                                        FenV {
                                                            position: PosV {
                                                                content,
                                                                side,
                                                                castling_rights: rights,
                                                                ep_target: ep,
                                                            },
                                                            halfmove_clock: h,
                                                            fullmove_number: fm,
                                                        },
                                                    )
                                                },
                                            }
                                        },
                                    },
                                },
                            }
                        }
                    }
                },
            }
        }
    }
}

/// Represents FEN (Forsyth-Edwards Notation): a position together with its
/// halfmove clock and fullmove number.
#[derive(Eq, PartialEq, Hash, Clone, Debug)]
pub struct Fen {
    pub position: Position,
    pub halfmove_clock: usize,
    pub fullmove_number: usize,
}

impl View for Fen {
    type V = FenV;

    open spec fn view(&self) -> FenV {
        FenV {
            position: self.position@,
            halfmove_clock: self.halfmove_clock,
            fullmove_number: self.fullmove_number,
        }
    }
}

impl Fen {
    /// Returns the position represented by the `Fen` object.
    pub fn position(&self) -> (r: &Position)
        ensures
            r@ == self@.position,
    {
        &self.position
    }

    /// Returns the halfmove clock.
    pub fn halfmove_clock(&self) -> (r: usize)
        ensures
            r == self@.halfmove_clock,
    {
        self.halfmove_clock
    }

    /// Returns the fullmove number.
    pub fn fullmove_number(&self) -> (r: usize)
        ensures
            r == self@.fullmove_number,
    {
        self.fullmove_number
    }

    /// Reads the castling-availability field against the board.
    fn read_castling(content: &Vec<Option<Piece>>, f: &str, wk: usize, bk: usize) -> (r: Result<
        Vec<Option<usize>>,
        InvalidFenError,
    >)
        requires
            content@.len() == 64,
            wk < 64,
            bk < 64,
        ensures
            match r {
                Ok(v) => castling_field(content@, f@, wk as int, bk as int) == Ok::<Seq<Option<usize>>, InvalidFenError>(v@) && v@.len()
                    == 4 && (v@[0] is Some ==> wk < v@[0]->0 < 8 && content@[v@[0]->0 as int]
                    == Some(Piece(PieceType::R, Color::White))) && (v@[1] is Some ==> v@[1]->0 < wk
                    && v@[1]->0 < 8 && content@[v@[1]->0 as int] == Some(
                    Piece(PieceType::R, Color::White),
                )) && (v@[2] is Some ==> bk < v@[2]->0 < 64 && 56 <= v@[2]->0
                    && content@[v@[2]->0 as int] == Some(Piece(PieceType::R, Color::Black))) && (
                v@[3] is Some ==> 56 <= v@[3]->0 < bk && content@[v@[3]->0 as int] == Some(
                    Piece(PieceType::R, Color::Black),
                )),
                Err(e) => castling_field(content@, f@, wk as int, bk as int) == Err::<Seq<Option<usize>>, InvalidFenError>(e),
            },
    {
        let n = f.unicode_len();
        if n < 1 || n > 4 {
            return Err(InvalidFenError::CastlingRights);
        }
        let dash = strutil::str_eq(f, "-");
        proof {
            reveal_strlit("-");
            assert("-"@ =~= seq!['-']);
        }
        let mut kf = false;
        let mut qf = false;
        let mut kkf = false;
        let mut qqf = false;
        if !dash {
            proof {
                assert(f@ != seq!['-']);
            }
            let mut i: usize = 0;
            while i < n
                invariant
                    0 <= i <= n,
                    n == f@.len(),
                    1 <= n <= 4,
                    f@ != seq!['-'],
                    wk < 64,
                    bk < 64,
                    kf ==> wk <= 6,
                    qf ==> 1 <= wk <= 7,
                    kkf ==> 56 <= bk <= 62,
                    qqf ==> 57 <= bk <= 63,
                    castling_scan(f@, 0, false, false, false, false, wk as int, bk as int)
                        == castling_scan(f@, i as int, kf, qf, kkf, qqf, wk as int, bk as int),
                decreases n - i,
            {
                let ch = f.get_char(i);
                if ch == 'K' {
                    if wk > 6 || kf {
                        return Err(InvalidFenError::CastlingRights);
                    }
                    kf = true;
                } else if ch == 'Q' {
                    if !(1 <= wk && wk <= 7) || qf {
                        return Err(InvalidFenError::CastlingRights);
                    }
                    qf = true;
                } else if ch == 'k' {
                    if !(56 <= bk && bk <= 62) || kkf {
                        return Err(InvalidFenError::CastlingRights);
                    }
                    kkf = true;
                } else if ch == 'q' {
                    if !(57 <= bk && bk <= 63) || qqf {
                        return Err(InvalidFenError::CastlingRights);
                    }
                    qqf = true;
                } else {
                    return Err(InvalidFenError::CastlingRights);
                }
                i = i + 1;
            }
        }
        let rw = Piece(PieceType::R, Color::White);
        let rb = Piece(PieceType::R, Color::Black);
        proof {
            helpers::lemma_count_piece_in_le(content@, rw, wk + 1, 8);
            helpers::lemma_count_piece_in_le(content@, rw, 0, wk as int);
            helpers::lemma_count_piece_in_le(content@, rb, bk + 1, 64);
            helpers::lemma_count_piece_in_le(content@, rb, 56, bk as int);
        }
        if kf && helpers::count_piece(wk + 1, 8, rw, content) != 1 {
            return Err(InvalidFenError::CastlingRights);
        }
        if qf && helpers::count_piece(0, wk, rw, content) != 1 {
            return Err(InvalidFenError::CastlingRights);
        }
        if kkf && helpers::count_piece(bk + 1, 64, rb, content) != 1 {
            return Err(InvalidFenError::CastlingRights);
        }
        if qqf && helpers::count_piece(56, bk, rb, content) != 1 {
            return Err(InvalidFenError::CastlingRights);
        }
        let mut v: Vec<Option<usize>> = Vec::new();
        if kf {
            let rooks = helpers::find_pieces(rw, wk + 1, 8, content);
            proof {
                helpers::lemma_piece_squares_count(content@, rw, wk + 1, 8);
            }
            v.push(Some(rooks[0]));
        } else {
            v.push(None);
        }
        if qf {
            let rooks = helpers::find_pieces(rw, 0, wk, content);
            proof {
                helpers::lemma_piece_squares_count(content@, rw, 0, wk as int);
            }
            v.push(Some(rooks[0]));
        } else {
            v.push(None);
        }
        if kkf {
            let rooks = helpers::find_pieces(rb, bk + 1, 64, content);
            proof {
                helpers::lemma_piece_squares_count(content@, rb, bk + 1, 64);
            }
            v.push(Some(rooks[0]));
        } else {
            v.push(None);
        }
        if qqf {
            let rooks = helpers::find_pieces(rb, 56, bk, content);
            proof {
                helpers::lemma_piece_squares_count(content@, rb, 56, bk as int);
            }
            v.push(Some(rooks[0]));
        } else {
            v.push(None);
        }
        proof {
            helpers::lemma_piece_squares_count(content@, rw, wk + 1, 8);
            helpers::lemma_piece_squares_count(content@, rw, 0, wk as int);
            helpers::lemma_piece_squares_count(content@, rb, bk + 1, 64);
            helpers::lemma_piece_squares_count(content@, rb, 56, bk as int);
            assert(v@ =~= (castling_field(content@, f@, wk as int, bk as int)->Ok_0));
        }
        Ok(v)
    }

    /// Reads the en-passant field.
    fn read_ep(f: &str) -> (r: Result<Option<usize>, InvalidFenError>)
        ensures
            match r {
                Ok(v) => ep_field(f@) == Ok::<Option<usize>, InvalidFenError>(v) && (v is Some ==> (16 <= v->0 < 24 || 40 <= v->0
                    < 48)),
                Err(e) => ep_field(f@) == Err::<Option<usize>, InvalidFenError>(e),
            },
    {
        let n = f.unicode_len();
        if n < 1 || n > 2 {
            return Err(InvalidFenError::EnPassantTargetSquare);
        }
        let dash = strutil::str_eq(f, "-");
        proof {
            reveal_strlit("-");
            assert("-"@ =~= seq!['-']);
        }
        if dash {
            return Ok(None);
        }
        if n != 2 {
            return Err(InvalidFenError::EnPassantTargetSquare);
        }
        let file = f.get_char(0);
        let rank = f.get_char(1);
        proof {
            assert(helpers::file_val(file) < 8 ==> 'a' <= file <= 'h');
        }
        if ('a' <= file && file <= 'h') && (rank == '3' || rank == '6') {
            let sq = helpers::sq_to_idx(file, rank);
            Ok(Some(sq))
        } else {
            Err(InvalidFenError::EnPassantTargetSquare)
        }
    }

    /// Attempts to read a `Fen` from snapshot text, returning exactly what
    /// the grammar accepts and rejecting exactly what it rejects. An
    /// accepted snapshot always carries a well-formed position.
    #[verifier::rlimit(80)]
    pub fn parse(s: &str) -> (r: Result<Fen, InvalidFenError>)
        ensures
            match r {
                Ok(f) => parse_fen_spec(s@) == Ok::<FenV, InvalidFenError>(f@) && f@.position.wf() && f@.halfmove_clock
                    <= 150 && f@.fullmove_number >= 1,
                Err(e) => parse_fen_spec(s@) == Err::<FenV, InvalidFenError>(e),
            },
    {
        let fields = split_str(s, ' ');
        proof {
            lemma_strs_views_index(fields@);
        }
        let ghost fviews = split_on(s@, ' ');
        if fields.len() != 6 {
            return Err(InvalidFenError::SixFields);
        }
        proof {
            assert(fviews == strs_views(fields@));
            assert(strs_views(fields@)[0] == fields@[0]@);
            assert(strs_views(fields@)[1] == fields@[1]@);
            assert(strs_views(fields@)[2] == fields@[2]@);
            assert(strs_views(fields@)[3] == fields@[3]@);
            assert(strs_views(fields@)[4] == fields@[4]@);
            assert(strs_views(fields@)[5] == fields@[5]@);
        }
        let ranks = split_str(fields[0].as_str(), '/');
        proof {
            lemma_strs_views_index(ranks@);
        }
        let ghost rviews = split_on(fviews[0], '/');
        if ranks.len() != 8 {
            return Err(InvalidFenError::BoardData);
        }
        let mut content: Vec<Option<Piece>> = Vec::new();
        let mut j: usize = 0;
        while j < 8
            invariant
                0 <= j <= 8,
                ranks@.len() == 8,
                fviews == split_on(s@, ' '),
                fviews.len() == 6,
                rviews == split_on(fviews[0], '/'),
                rviews == strs_views(ranks@),
                forall|i: int| 0 <= i < 8 ==> rviews[i] == ranks@[i]@,
                rviews.len() == 8,
                content_upto(rviews, j as int) == Some(content@),
            decreases 8 - j,
        {
            let rk = ranks[7 - j].as_str();
            proof {
                assert(rk@ == rviews[7 - (j as int)]);
                assert(rk@.subrange(0, rk@.len() as int) =~= rk@);
            }
            match expand_rank_from(rk, 0) {
                Some(mut e) => {
                    if e.len() != 8 {
                        proof {
                            assert(content_upto(rviews, j + 1) is None);
                            lemma_content_upto_none(rviews, j + 1, 8);
                        }
                        return Err(InvalidFenError::BoardData);
                    }
                    content.append(&mut e);
                },
                None => {
                    proof {
                        assert(content_upto(rviews, j + 1) is None);
                        lemma_content_upto_none(rviews, j + 1, 8);
                    }
                    return Err(InvalidFenError::BoardData);
                },
            }
            j = j + 1;
        }
        proof {
            lemma_content_upto_len(rviews, 8);
            assert(content@.len() == 64);
        }
        proof {
            helpers::lemma_count_piece_in_le(
                content@,
                Piece(PieceType::K, Color::White),
                0,
                64,
            );
            helpers::lemma_count_piece_in_le(
                content@,
                Piece(PieceType::K, Color::Black),
                0,
                64,
            );
        }
        let wk_count = helpers::count_piece(0, 64, Piece(PieceType::K, Color::White), &content);
        let bk_count = helpers::count_piece(0, 64, Piece(PieceType::K, Color::Black), &content);
        if wk_count != 1 || bk_count != 1 {
            return Err(InvalidFenError::BoardData);
        }
        let mut sq: usize = 0;
        while sq < 64
            invariant
                0 <= sq <= 64,
                content@.len() == 64,
                fviews == split_on(s@, ' '),
                fviews.len() == 6,
                rviews == split_on(fviews[0], '/'),
                content_upto(rviews, 8) == Some(content@),
                count_piece_in(content@, Piece(PieceType::K, Color::White), 0, 64) == 1,
                count_piece_in(content@, Piece(PieceType::K, Color::Black), 0, 64) == 1,
                forall|i: int|
                    0 <= i < sq && (i < 8 || i >= 56) ==> (content@[i] != Some(
                        Piece(PieceType::P, Color::White),
                    ) && content@[i] != Some(Piece(PieceType::P, Color::Black))),
            decreases 64 - sq,
        {
            if sq < 8 || sq >= 56 {
                match content[sq] {
                    Some(Piece(PieceType::P, _)) => {
                        return Err(InvalidFenError::BoardData);
                    },
                    _ => {},
                }
            }
            sq = sq + 1;
        }
        proof {
            assert(pawns_ok(content@, Color::White) && pawns_ok(content@, Color::Black));
        }
        let side = match Color::try_from_str(fields[1].as_str()) {
            Ok(c) => c,
            Err(_) => {
                proof {
                    reveal_strlit("w");
                    reveal_strlit("b");
                    assert(fviews[1] != seq!['w'] && fviews[1] != seq!['b']);
                }
                return Err(InvalidFenError::ActiveColor);
            },
        };
        proof {
            reveal_strlit("w");
            reveal_strlit("b");
            assert(seq!['b'][0] == 'b' && seq!['w'][0] == 'w');
            assert(seq!['b'] != seq!['w']);
            assert(side == (if fviews[1] == seq!['w'] {
                Color::White
            } else {
                Color::Black
            }));
        }
        if king_capture_pseudolegal(&content, side) {
            return Err(InvalidFenError::BoardData);
        }
        proof {
            helpers::lemma_count_piece_pos_exists(
                content@,
                Piece(PieceType::K, Color::White),
                0,
                64,
            );
            helpers::lemma_count_piece_pos_exists(
                content@,
                Piece(PieceType::K, Color::Black),
                0,
                64,
            );
        }
        let wk = helpers::find_king(Color::White, &content);
        let bk = helpers::find_king(Color::Black, &content);
        let rights = match Self::read_castling(&content, fields[2].as_str(), wk, bk) {
            Ok(v) => v,
            Err(e) => {
                return Err(e);
            },
        };
        let ep_target = match Self::read_ep(fields[3].as_str()) {
            Ok(v) => v,
            Err(e) => {
                return Err(e);
            },
        };
        let halfmove_clock = match strutil::parse_usize(fields[4].as_str()) {
            Some(h) => h,
            None => {
                return Err(InvalidFenError::HalfmoveClock);
            },
        };
        if halfmove_clock > 150 {
            return Err(InvalidFenError::HalfmoveClock);
        }
        let fullmove_number = match strutil::parse_usize(fields[5].as_str()) {
            Some(f) => f,
            None => {
                return Err(InvalidFenError::FullmoveNumber);
            },
        };
        if fullmove_number < 1 {
            return Err(InvalidFenError::FullmoveNumber);
        }
        let position = Position { content, side, castling_rights: rights, ep_target };
        let f = Fen { position, halfmove_clock, fullmove_number };
        proof {
            assert(parse_fen_spec(s@) == Ok::<FenV, InvalidFenError>(f@));
            assert(f@.position.wf());
        }
        Ok(f)
    }
}

} // verus!
// The serializer: the exact text a position and a snapshot print as.

use crate::strutil::{dec_str, digit_char};
use crate::{color_char, piece_char};
use crate::helpers::{file_char, file_of, rank_char, rank_of};

verus! {

/// The uppercase file letter of a file number.
pub open spec fn file_char_upper(f: int) -> char {
    if f == 0 {
        'A'
    } else if f == 1 {
        'B'
    } else if f == 2 {
        'C'
    } else if f == 3 {
        'D'
    } else if f == 4 {
        'E'
    } else if f == 5 {
        'F'
    } else if f == 6 {
        'G'
    } else if f == 7 {
        'H'
    } else {
        ' '
    }
}

/// The text of one rank from square `i` on, with `empty` pending empty
/// squares: runs of empty squares compress to their count digit.
pub open spec fn rank_str_from(rank: Seq<Option<Piece>>, i: int, empty: int) -> Seq<char>
    decreases rank.len() - i,
{
    if i < 0 || i >= rank.len() {
        if empty > 0 {
            seq![digit_char(empty)]
        } else {
            Seq::empty()
        }
    } else {
        match rank[i] {
            Some(p) => (if empty > 0 {
                seq![digit_char(empty)]
            } else {
                Seq::empty()
            }) + seq![piece_char(p)] + rank_str_from(rank, i + 1, 0),
            None => rank_str_from(rank, i + 1, empty + 1),
        }
    }
}

/// The text of one rank.
pub open spec fn rank_str(rank: Seq<Option<Piece>>) -> Seq<char> {
    rank_str_from(rank, 0, 0)
}

/// The board-data text of the topmost `n` ranks, '/'-separated, rank 8
/// first.
pub open spec fn board_ranks_str(content: Seq<Option<Piece>>, n: int) -> Seq<char>
    decreases n,
{
    if n <= 0 {
        Seq::empty()
    } else if n == 1 {
        rank_str(content.subrange(56, 64))
    } else {
        board_ranks_str(content, n - 1) + seq!['/'] + rank_str(
            content.subrange(8 * (8 - n), 8 * (8 - n) + 8),
        )
    }
}

/// The castling-availability text: 'K', 'Q', 'k' or 'q' for a right whose
/// side has exactly one rook on that side of its king, the rook's file
/// letter otherwise (uppercase for white), and '-' when no right remains.
pub open spec fn castling_str(v: PosV) -> Seq<char> {
    let wk = king_sq(v.content, Color::White);
    let bk = king_sq(v.content, Color::Black);
    let s0: Seq<char> = match v.castling_rights[0] {
        Some(r) => if count_piece_in(v.content, Piece(PieceType::R, Color::White), wk + 1, 8)
            == 1 {
            seq!['K']
        } else {
            seq![file_char_upper(file_of(r as int))]
        },
        None => Seq::empty(),
    };
    let s1: Seq<char> = match v.castling_rights[1] {
        Some(r) => if count_piece_in(v.content, Piece(PieceType::R, Color::White), 0, wk) == 1 {
            seq!['Q']
        } else {
            seq![file_char_upper(file_of(r as int))]
        },
        None => Seq::empty(),
    };
    let s2: Seq<char> = match v.castling_rights[2] {
        Some(r) => if count_piece_in(v.content, Piece(PieceType::R, Color::Black), bk + 1, 64)
            == 1 {
            seq!['k']
        } else {
            seq![file_char(file_of(r as int))]
        },
        None => Seq::empty(),
    };
    let s3: Seq<char> = match v.castling_rights[3] {
        Some(r) => if count_piece_in(v.content, Piece(PieceType::R, Color::Black), 56, bk) == 1 {
            seq!['q']
        } else {
            seq![file_char(file_of(r as int))]
        },
        None => Seq::empty(),
    };
    let all = s0 + s1 + s2 + s3;
    if all.len() == 0 {
        seq!['-']
    } else {
        all
    }
}

/// The en-passant text: the target's square name, or '-'.
pub open spec fn ep_str(ep: Option<usize>) -> Seq<char> {
    match ep {
        Some(t) => seq![file_char(file_of(t as int)), rank_char(rank_of(t as int))],
        None => seq!['-'],
    }
}

/// The four space-separated position fields of the snapshot text.
pub open spec fn position_fen_str(v: PosV) -> Seq<char> {
    board_ranks_str(v.content, 8) + seq![' ', color_char(v.side), ' '] + castling_str(v) + seq![
        ' ',
    ] + ep_str(v.ep_target)
}

/// The whole snapshot text: the position fields, the halfmove clock and the
/// fullmove number.
pub open spec fn fen_str(f: FenV) -> Seq<char> {
    position_fen_str(f.position) + seq![' '] + dec_str(f.halfmove_clock as int) + seq![' ']
        + dec_str(f.fullmove_number as int)
}

/// Renders the text of the eight board squares from `lo` on.
fn rank_to_str(content: &Vec<Option<Piece>>, lo: usize) -> (r: String)
    requires
        lo <= 56,
        content@.len() == 64,
    ensures
        r@ == rank_str(content@.subrange(lo as int, lo + 8)),
{
    let ghost rank = content@.subrange(lo as int, lo + 8);
    let mut s = String::new();
    let mut empty: usize = 0;
    let mut i: usize = 0;
    while i < 8
        invariant
            0 <= i <= 8,
            lo <= 56,
            content@.len() == 64,
            rank == content@.subrange(lo as int, lo + 8),
            empty <= i,
            rank_str(rank) == s@ + rank_str_from(rank, i as int, empty as int),
        decreases 8 - i,
    {
        proof {
            assert(rank[i as int] == content@[lo + i]);
        }
        match content[lo + i] {
            Some(p) => {
                if empty > 0 {
                    let d = match empty {
                        1 => '1',
                        2 => '2',
                        3 => '3',
                        4 => '4',
                        5 => '5',
                        6 => '6',
                        7 => '7',
                        _ => '8',
                    };
                    proof {
                        assert(d == digit_char(empty as int));
                    }
                    strutil::push_char(&mut s, d);
                    empty = 0;
                }
                strutil::push_char(&mut s, p.to_char());
            },
            None => {
                empty = empty + 1;
            },
        }
        i = i + 1;
    }
    if empty > 0 {
        let d = match empty {
            1 => '1',
            2 => '2',
            3 => '3',
            4 => '4',
            5 => '5',
            6 => '6',
            7 => '7',
            _ => '8',
        };
        proof {
            assert(d == digit_char(empty as int));
        }
        strutil::push_char(&mut s, d);
    }
    proof {
        assert(s@ =~= rank_str(rank));
    }
    s
}

impl Position {
    /// Generates an FEN string representing the board data, active color,
    /// castling rights, and en passant target in the position.
    #[verifier::rlimit(100)]
    pub fn to_fen(&self) -> (r: String)
        requires
            self@.base_wf(),
        ensures
            r@ == position_fen_str(self@),
    {
        let mut s = String::new();
        let mut j: usize = 0;
        while j < 8
            invariant
                0 <= j <= 8,
                self@.base_wf(),
                s@ == board_ranks_str(self@.content, j as int),
            decreases 8 - j,
        {
            if j > 0 {
                strutil::push_char(&mut s, '/');
            }
            let rk = rank_to_str(&self.content, 8 * (7 - j));
            s.append(rk.as_str());
            proof {
                assert(s@ =~= board_ranks_str(self@.content, j + 1));
            }
            j = j + 1;
        }
        strutil::push_char(&mut s, ' ');
        strutil::push_char(&mut s, self.side.to_char());
        strutil::push_char(&mut s, ' ');
        let wk = helpers::find_king(Color::White, &self.content);
        let bk = helpers::find_king(Color::Black, &self.content);
        let rw = Piece(PieceType::R, Color::White);
        let rb = Piece(PieceType::R, Color::Black);
        let mut wrote_any = false;
        match self.castling_rights[0] {
            Some(r) => {
                proof {
                    helpers::lemma_count_piece_in_le(self@.content, rw, wk + 1, 8);
                }
                let c = if helpers::count_piece(wk + 1, 8, rw, &self.content) == 1 {
                    'K'
                } else {
                    let (f, _) = helpers::idx_to_sq(r);
                    upper_file(f)
                };
                strutil::push_char(&mut s, c);
                wrote_any = true;
            },
            None => {},
        }
        match self.castling_rights[1] {
            Some(r) => {
                proof {
                    helpers::lemma_count_piece_in_le(self@.content, rw, 0, wk as int);
                }
                let c = if helpers::count_piece(0, wk, rw, &self.content) == 1 {
                    'Q'
                } else {
                    let (f, _) = helpers::idx_to_sq(r);
                    upper_file(f)
                };
                strutil::push_char(&mut s, c);
                wrote_any = true;
            },
            None => {},
        }
        match self.castling_rights[2] {
            Some(r) => {
                proof {
                    helpers::lemma_count_piece_in_le(self@.content, rb, bk + 1, 64);
                }
                let c = if helpers::count_piece(bk + 1, 64, rb, &self.content) == 1 {
                    'k'
                } else {
                    let (f, _) = helpers::idx_to_sq(r);
                    f
                };
                strutil::push_char(&mut s, c);
                wrote_any = true;
            },
            None => {},
        }
        match self.castling_rights[3] {
            Some(r) => {
                proof {
                    helpers::lemma_count_piece_in_le(self@.content, rb, 56, bk as int);
                }
                let c = if helpers::count_piece(56, bk, rb, &self.content) == 1 {
                    'q'
                } else {
                    let (f, _) = helpers::idx_to_sq(r);
                    f
                };
                strutil::push_char(&mut s, c);
                wrote_any = true;
            },
            None => {},
        }
        if !wrote_any {
            strutil::push_char(&mut s, '-');
        }
        strutil::push_char(&mut s, ' ');
        match self.ep_target {
            Some(t) => {
                let (f, rk) = helpers::idx_to_sq(t);
                strutil::push_char(&mut s, f);
                strutil::push_char(&mut s, rk);
            },
            None => {
                strutil::push_char(&mut s, '-');
            },
        }
        proof {
            assert(s@ =~= position_fen_str(self@));
        }
        s
    }
}

/// The uppercase form of a file letter.
fn upper_file(c: char) -> (r: char)
    ensures
        forall|f: int| 0 <= f < 8 && c == file_char(f) ==> r == file_char_upper(f),
{
    match c {
        'a' => 'A',
        'b' => 'B',
        'c' => 'C',
        'd' => 'D',
        'e' => 'E',
        'f' => 'F',
        'g' => 'G',
        'h' => 'H',
        _ => c,
    }
}

impl Fen {
    /// Returns the FEN text representing this object. If standard FEN is
    /// inadequate for representing castling rights, a mixture of standard
    /// FEN and Shredder-FEN is generated.
    pub fn to_fen_string(&self) -> (r: String)
        requires
            self@.position.base_wf(),
        ensures
            r@ == fen_str(self@),
    {
        let mut s = self.position.to_fen();
        strutil::push_char(&mut s, ' ');
        let h = strutil::usize_to_string(self.halfmove_clock);
        s.append(h.as_str());
        strutil::push_char(&mut s, ' ');
        let f = strutil::usize_to_string(self.fullmove_number);
        s.append(f.as_str());
        proof {
            assert(s@ =~= fen_str(self@));
        }
        s
    }
}

} // verus!
// The parse/serialize round trip: re-parsing the serialization of a parsed
// snapshot yields that snapshot back.

use crate::helpers::{file_val, rank_val};

verus! {

/// Piece characters read back as their pieces.
proof fn lemma_piece_char_rt(p: Piece)
    ensures
        piece_of_char(piece_char(p)) == Some(p),
        piece_char(p) != ' ' && piece_char(p) != '/' && piece_char(p) != '-',
        digit_val(piece_char(p)) == 10,
{
    match p {
        Piece(PieceType::K, _) => {},
        Piece(PieceType::Q, _) => {},
        Piece(PieceType::B, _) => {},
        Piece(PieceType::N, _) => {},
        Piece(PieceType::R, _) => {},
        Piece(PieceType::P, _) => {},
    }
}

/// Count digits read back as their values, and are no piece characters.
proof fn lemma_digit_char_rt(d: int)
    requires
        0 <= d <= 9,
    ensures
        digit_val(strutil::digit_char(d)) == d,
        piece_of_char(strutil::digit_char(d)) is None,
        strutil::digit_char(d) != ' ' && strutil::digit_char(d) != '/' && strutil::digit_char(d)
            != '+',
{
}

/// File letters read back as their file numbers.
proof fn lemma_file_char_rt(f: int)
    requires
        0 <= f < 8,
    ensures
        file_val(helpers::file_char(f)) == f,
        helpers::file_char(f) != ' ' && helpers::file_char(f) != '-',
{
}

/// Rank digits read back as their rank numbers.
proof fn lemma_rank_char_rt(r: int)
    requires
        0 <= r < 8,
    ensures
        rank_val(helpers::rank_char(r)) == r,
        helpers::rank_char(r) != ' ' && helpers::rank_char(r) != '-',
{
}

} // verus!
verus! {

/// A printed number is all digits, starts with one, and reads back as
/// itself.
proof fn lemma_dec_str_rt(n: int)
    requires
        0 <= n,
    ensures
        strutil::is_digits(strutil::dec_str(n)),
        strutil::dec_str(n).len() >= 1,
        strutil::dec_str(n)[0] != '+',
        strutil::dec_val(strutil::dec_str(n)) == n,
        forall|j: int|
            0 <= j < strutil::dec_str(n).len() ==> #[trigger] strutil::dec_str(n)[j] != ' ',
    decreases n,
{
    if n < 10 {
        lemma_digit_char_rt(n);
        let t = strutil::dec_str(n);
        assert(t =~= seq![strutil::digit_char(n)]);
        assert(t.drop_last() =~= Seq::<char>::empty());
        assert(t.last() == strutil::digit_char(n));
        assert(strutil::dec_val(Seq::<char>::empty()) == 0);
        assert(strutil::dec_val(t) == strutil::dec_val(t.drop_last()) * 10 + digit_val(t.last()));
    } else {
        lemma_dec_str_rt(n / 10);
        lemma_digit_char_rt(n % 10);
        let pre = strutil::dec_str(n / 10);
        let t = strutil::dec_str(n);
        assert(t == pre + seq![strutil::digit_char(n % 10)]);
        assert(t.drop_last() =~= pre);
        assert(t.last() == strutil::digit_char(n % 10));
        assert(strutil::dec_val(t) == strutil::dec_val(t.drop_last()) * 10 + digit_val(t.last()));
        assert forall|j: int| 0 <= j < t.len() implies digit_val(#[trigger] t[j]) < 10 by {
            if j < pre.len() {
                assert(t[j] == pre[j]);
            }
        }
        assert forall|j: int| 0 <= j < t.len() implies #[trigger] t[j] != ' ' by {
            if j < pre.len() {
                assert(t[j] == pre[j]);
            }
        }
        assert(t[0] == pre[0]);
    }
}

/// A printed number parses back as itself.
proof fn lemma_parse_dec_str(n: int)
    requires
        0 <= n <= usize::MAX,
    ensures
        parse_usize_spec(strutil::dec_str(n)) == Some(n as usize),
{
    lemma_dec_str_rt(n);
}

/// The text of an eight-square rank expands back to those squares.
proof fn lemma_rank_str_rt(rank: Seq<Option<Piece>>, i: int, e: int)
    requires
        rank.len() == 8,
        0 <= e <= i <= 8,
    ensures
        rank_expansion(rank_str_from(rank, i, e)) == Some(
            empty_squares(e) + rank.subrange(i, 8),
        ),
        forall|j: int|
            0 <= j < rank_str_from(rank, i, e).len() ==> (#[trigger] rank_str_from(rank, i, e)[j])
                != ' ' && rank_str_from(rank, i, e)[j] != '/',
    decreases 8 - i,
{
    let t = rank_str_from(rank, i, e);
    if i == 8 {
        if e > 0 {
            lemma_digit_char_rt(e);
            assert(t =~= seq![strutil::digit_char(e)]);
            assert(t.drop_first() =~= Seq::<char>::empty());
            assert(rank_expansion(t) == Some(empty_squares(e) + Seq::<Option<Piece>>::empty()));
            assert(empty_squares(e) + Seq::<Option<Piece>>::empty() =~= empty_squares(e)
                + rank.subrange(8, 8));
        } else {
            assert(t =~= Seq::<char>::empty());
            assert(empty_squares(0) + rank.subrange(8, 8) =~= Seq::<Option<Piece>>::empty());
        }
    } else {
        match rank[i] {
            Some(p) => {
                lemma_rank_str_rt(rank, i + 1, 0);
                lemma_piece_char_rt(p);
                let rest = rank_str_from(rank, i + 1, 0);
                let pc = seq![piece_char(p)];
                if e > 0 {
                    lemma_digit_char_rt(e);
                    assert(t == seq![strutil::digit_char(e)] + pc + rest);
                    assert(t[0] == strutil::digit_char(e));
                    assert(t.drop_first() =~= pc + rest);
                    assert((pc + rest)[0] == piece_char(p));
                    assert((pc + rest).drop_first() =~= rest);
                    assert(rank_expansion(rest) == Some(
                        empty_squares(0) + rank.subrange(i + 1, 8),
                    ));
                    assert(empty_squares(0) + rank.subrange(i + 1, 8) =~= rank.subrange(i + 1, 8));
                    assert(rank_expansion(pc + rest) == Some(
                        seq![Some(p)] + rank.subrange(i + 1, 8),
                    ));
                    assert(rank_expansion(t) == Some(
                        empty_squares(e) + (seq![Some(p)] + rank.subrange(i + 1, 8)),
                    ));
                    assert(empty_squares(e) + (seq![Some(p)] + rank.subrange(i + 1, 8))
                        =~= empty_squares(e) + rank.subrange(i, 8));
                } else {
                    assert(t =~= pc + rest);
                    assert((pc + rest)[0] == piece_char(p));
                    assert((pc + rest).drop_first() =~= rest);
                    assert(rank_expansion(rest) == Some(
                        empty_squares(0) + rank.subrange(i + 1, 8),
                    ));
                    assert(empty_squares(0) + rank.subrange(i + 1, 8) =~= rank.subrange(i + 1, 8));
                    assert(rank_expansion(t) == Some(
                        seq![Some(p)] + rank.subrange(i + 1, 8),
                    ));
                    assert(seq![Some(p)] + rank.subrange(i + 1, 8) =~= empty_squares(0)
                        + rank.subrange(i, 8));
                }
            },
            None => {
                lemma_rank_str_rt(rank, i + 1, e + 1);
                assert(t == rank_str_from(rank, i + 1, e + 1));
                assert(empty_squares(e + 1) + rank.subrange(i + 1, 8) =~= empty_squares(e)
                    + rank.subrange(i, 8));
            },
        }
    }
}

/// Splitting a separator-free field followed by a separator peels that
/// field.
proof fn lemma_split_cons(a: Seq<char>, rest: Seq<char>, sep: char)
    requires
        forall|j: int| 0 <= j < a.len() ==> a[j] != sep,
    ensures
        split_on(a + seq![sep] + rest, sep) == seq![a] + split_on(rest, sep),
{
    let t = a + seq![sep] + rest;
    assert(t[a.len() as int] == sep);
    assert forall|k: int| 0 <= k < a.len() implies t[k] != sep by {
        assert(t[k] == a[k]);
    }
    lemma_find_char_skip(t, sep, 0, a.len() as int);
    assert(find_char_from(t, sep, a.len() as int) == a.len());
    assert(find_char_from(t, sep, 0) == a.len());
    assert(t.subrange(0, a.len() as int) =~= a);
    assert(t.subrange(a.len() as int + 1, t.len() as int) =~= rest);
}

/// A separator-free text splits into itself alone.
proof fn lemma_split_single(a: Seq<char>, sep: char)
    requires
        forall|j: int| 0 <= j < a.len() ==> a[j] != sep,
    ensures
        split_on(a, sep) == seq![a],
{
    lemma_find_char_skip(a, sep, 0, a.len() as int);
    assert(find_char_from(a, sep, a.len() as int) == a.len());
}

} // verus!
verus! {

/// Scanning from an index equals scanning the suffix from its start.
proof fn lemma_scan_suffix(
    t: Seq<char>,
    n: int,
    k: bool,
    q: bool,
    kk: bool,
    qq: bool,
    wk: int,
    bk: int,
)
    requires
        0 <= n <= t.len(),
    ensures
        castling_scan(t, n, k, q, kk, qq, wk, bk) == castling_scan(
            t.subrange(n, t.len() as int),
            0,
            k,
            q,
            kk,
            qq,
            wk,
            bk,
        ),
    decreases t.len() - n,
{
    let sub = t.subrange(n, t.len() as int);
    if n == t.len() {
        assert(sub =~= Seq::<char>::empty());
    } else {
        assert(sub[0] == t[n]);
        assert(sub.subrange(1, sub.len() as int) =~= t.subrange(n + 1, t.len() as int));
        let ch = t[n];
        if ch == 'K' {
            if !(wk > 6 || k) {
                lemma_scan_suffix(t, n + 1, true, q, kk, qq, wk, bk);
                lemma_scan_suffix(sub, 1, true, q, kk, qq, wk, bk);
            }
        } else if ch == 'Q' {
            if !(!(1 <= wk <= 7) || q) {
                lemma_scan_suffix(t, n + 1, k, true, kk, qq, wk, bk);
                lemma_scan_suffix(sub, 1, k, true, kk, qq, wk, bk);
            }
        } else if ch == 'k' {
            if !(!(56 <= bk <= 62) || kk) {
                lemma_scan_suffix(t, n + 1, k, q, true, qq, wk, bk);
                lemma_scan_suffix(sub, 1, k, q, true, qq, wk, bk);
            }
        } else if ch == 'q' {
            if !(!(57 <= bk <= 63) || qq) {
                lemma_scan_suffix(t, n + 1, k, q, kk, true, wk, bk);
                lemma_scan_suffix(sub, 1, k, q, kk, true, wk, bk);
            }
        }
    }
}

} // verus!
verus! {

/// The printed castling availability reads back as the same rights: each
/// right whose side has exactly one rook on the proper side of its king
/// prints its plain letter, the scan accepts the letters in order, and the
/// rook lookups land on the same squares.
proof fn lemma_castling_rt(v: PosV)
    requires
        v.castling_rights.len() == 4,
        v.castling_rights[0] is Some ==> king_sq(v.content, Color::White) <= 6 && count_piece_in(
            v.content,
            Piece(PieceType::R, Color::White),
            king_sq(v.content, Color::White) + 1,
            8,
        ) == 1 && v.castling_rights[0]->0 == piece_squares_in(
            v.content,
            Piece(PieceType::R, Color::White),
            king_sq(v.content, Color::White) + 1,
            8,
        )[0],
        v.castling_rights[1] is Some ==> 1 <= king_sq(v.content, Color::White) <= 7
            && count_piece_in(
            v.content,
            Piece(PieceType::R, Color::White),
            0,
            king_sq(v.content, Color::White),
        ) == 1 && v.castling_rights[1]->0 == piece_squares_in(
            v.content,
            Piece(PieceType::R, Color::White),
            0,
            king_sq(v.content, Color::White),
        )[0],
        v.castling_rights[2] is Some ==> 56 <= king_sq(v.content, Color::Black) <= 62
            && count_piece_in(
            v.content,
            Piece(PieceType::R, Color::Black),
            king_sq(v.content, Color::Black) + 1,
            64,
        ) == 1 && v.castling_rights[2]->0 == piece_squares_in(
            v.content,
            Piece(PieceType::R, Color::Black),
            king_sq(v.content, Color::Black) + 1,
            64,
        )[0],
        v.castling_rights[3] is Some ==> 57 <= king_sq(v.content, Color::Black) <= 63
            && count_piece_in(
            v.content,
            Piece(PieceType::R, Color::Black),
            56,
            king_sq(v.content, Color::Black),
        ) == 1 && v.castling_rights[3]->0 == piece_squares_in(
            v.content,
            Piece(PieceType::R, Color::Black),
            56,
            king_sq(v.content, Color::Black),
        )[0],
    ensures
        castling_field(
            v.content,
            castling_str(v),
            king_sq(v.content, Color::White),
            king_sq(v.content, Color::Black),
        ) == Ok::<Seq<Option<usize>>, InvalidFenError>(v.castling_rights),
        forall|j: int|
            0 <= j < castling_str(v).len() ==> #[trigger] castling_str(v)[j] != ' ',
{
    let c = v.content;
    let wk = king_sq(c, Color::White);
    let bk = king_sq(c, Color::Black);
    let r = v.castling_rights;
    let s0: Seq<char> = if r[0] is Some {
        seq!['K']
    } else {
        Seq::empty()
    };
    let s1: Seq<char> = if r[1] is Some {
        seq!['Q']
    } else {
        Seq::empty()
    };
    let s2: Seq<char> = if r[2] is Some {
        seq!['k']
    } else {
        Seq::empty()
    };
    let s3: Seq<char> = if r[3] is Some {
        seq!['q']
    } else {
        Seq::empty()
    };
    let all = s0 + s1 + s2 + s3;
    let cs = castling_str(v);
    if r[0] is None && r[1] is None && r[2] is None && r[3] is None {
        assert(all.len() == 0);
        assert(cs =~= seq!['-']);
        assert(cs == seq!['-']);
        assert(castling_field(c, cs, wk, bk) == Ok::<Seq<Option<usize>>, InvalidFenError>(
            seq![None, None, None, None],
        ));
        assert(seq![Option::<usize>::None, None, None, None] =~= r);
    } else {
        assert(all.len() >= 1);
        assert(cs == all);
        assert(1 <= cs.len() <= 4);
        // The text is castling letters only, so it is not the '-' field.
        assert(cs != seq!['-']) by {
            if cs == seq!['-'] {
                if r[0] is Some {
                    assert(cs[0] == 'K');
                } else if r[1] is Some {
                    assert(cs[0] == 'Q');
                } else if r[2] is Some {
                    assert(cs[0] == 'k');
                } else {
                    assert(cs[0] == 'q');
                }
            }
        }
        // Peel the four optional letters in order.
        let t1 = s1 + s2 + s3;
        let st0 = castling_scan(cs, 0, false, false, false, false, wk, bk);
        if r[0] is Some {
            assert(cs[0] == 'K');
            lemma_scan_suffix(cs, 1, true, false, false, false, wk, bk);
            assert(cs.subrange(1, cs.len() as int) =~= t1);
            assert(st0 == castling_scan(t1, 0, true, false, false, false, wk, bk));
        } else {
            assert(cs =~= t1);
        }
        let k0 = r[0] is Some;
        assert(st0 == castling_scan(t1, 0, k0, false, false, false, wk, bk));
        let t2 = s2 + s3;
        if r[1] is Some {
            assert(t1[0] == 'Q');
            lemma_scan_suffix(t1, 1, k0, true, false, false, wk, bk);
            assert(t1.subrange(1, t1.len() as int) =~= t2);
            assert(st0 == castling_scan(t2, 0, k0, true, false, false, wk, bk));
        } else {
            assert(t1 =~= t2);
        }
        let q0 = r[1] is Some;
        assert(st0 == castling_scan(t2, 0, k0, q0, false, false, wk, bk));
        let t3 = s3;
        if r[2] is Some {
            assert(t2[0] == 'k');
            lemma_scan_suffix(t2, 1, k0, q0, true, false, wk, bk);
            assert(t2.subrange(1, t2.len() as int) =~= t3);
            assert(st0 == castling_scan(t3, 0, k0, q0, true, false, wk, bk));
        } else {
            assert(t2 =~= t3);
        }
        let kk0 = r[2] is Some;
        assert(st0 == castling_scan(t3, 0, k0, q0, kk0, false, wk, bk));
        if r[3] is Some {
            assert(t3[0] == 'q');
            lemma_scan_suffix(t3, 1, k0, q0, kk0, true, wk, bk);
            assert(t3.subrange(1, t3.len() as int) =~= Seq::<char>::empty());
            assert(st0 == castling_scan(Seq::<char>::empty(), 0, k0, q0, kk0, true, wk, bk));
        } else {
            assert(t3 =~= Seq::<char>::empty());
        }
        let qq0 = r[3] is Some;
        assert(st0 == Some((k0, q0, kk0, qq0)));
        let built: Seq<Option<usize>> = seq![
            if k0 {
                Some(
                    piece_squares_in(c, Piece(PieceType::R, Color::White), wk + 1, 8)[0],
                )
            } else {
                None
            },
            if q0 {
                Some(piece_squares_in(c, Piece(PieceType::R, Color::White), 0, wk)[0])
            } else {
                None
            },
            if kk0 {
                Some(
                    piece_squares_in(c, Piece(PieceType::R, Color::Black), bk + 1, 64)[0],
                )
            } else {
                None
            },
            if qq0 {
                Some(piece_squares_in(c, Piece(PieceType::R, Color::Black), 56, bk)[0])
            } else {
                None
            },
        ];
        assert(castling_field(c, cs, wk, bk) == Ok::<Seq<Option<usize>>, InvalidFenError>(built));
        assert(built =~= r);
    }
}

} // verus!
verus! {

/// A flag the scan newly set was set under its king-position condition.
proof fn lemma_scan_conditions(
    t: Seq<char>,
    i: int,
    k0: bool,
    q0: bool,
    kk0: bool,
    qq0: bool,
    wk: int,
    bk: int,
)
    requires
        0 <= i,
        castling_scan(t, i, k0, q0, kk0, qq0, wk, bk) is Some,
    ensures
        (castling_scan(t, i, k0, q0, kk0, qq0, wk, bk)->0).0 && !k0 ==> wk <= 6,
        (castling_scan(t, i, k0, q0, kk0, qq0, wk, bk)->0).1 && !q0 ==> 1 <= wk <= 7,
        (castling_scan(t, i, k0, q0, kk0, qq0, wk, bk)->0).2 && !kk0 ==> 56 <= bk <= 62,
        (castling_scan(t, i, k0, q0, kk0, qq0, wk, bk)->0).3 && !qq0 ==> 57 <= bk <= 63,
    decreases t.len() - i,
{
    if i < t.len() {
        let ch = t[i];
        if ch == 'K' {
            if !(wk > 6 || k0) {
                lemma_scan_conditions(t, i + 1, true, q0, kk0, qq0, wk, bk);
            }
        } else if ch == 'Q' {
            if !(!(1 <= wk <= 7) || q0) {
                lemma_scan_conditions(t, i + 1, k0, true, kk0, qq0, wk, bk);
            }
        } else if ch == 'k' {
            if !(!(56 <= bk <= 62) || kk0) {
                lemma_scan_conditions(t, i + 1, k0, q0, true, qq0, wk, bk);
            }
        } else if ch == 'q' {
            if !(!(57 <= bk <= 63) || qq0) {
                lemma_scan_conditions(t, i + 1, k0, q0, kk0, true, wk, bk);
            }
        }
    }
}

/// Everything an accepted parse certifies of its snapshot: the board shape
/// and king counts, the pawn placement, the no-king-capture condition, the
/// castling rights each backed by exactly one properly placed rook, the
/// en-passant range, and the clock bounds.
proof fn lemma_parse_facts(s: Seq<char>, f: FenV)
    requires
        parse_fen_spec(s) == Ok::<FenV, InvalidFenError>(f),
    ensures
        f.position.content.len() == 64,
        count_piece_in(f.position.content, Piece(PieceType::K, Color::White), 0, 64) == 1,
        count_piece_in(f.position.content, Piece(PieceType::K, Color::Black), 0, 64) == 1,
        pawns_ok(f.position.content, Color::White),
        pawns_ok(f.position.content, Color::Black),
        !kcp(f.position.content, f.position.side),
        f.position.castling_rights.len() == 4,
        f.position.castling_rights[0] is Some ==> king_sq(f.position.content, Color::White) <= 6
            && count_piece_in(
            f.position.content,
            Piece(PieceType::R, Color::White),
            king_sq(f.position.content, Color::White) + 1,
            8,
        ) == 1 && f.position.castling_rights[0]->0 == piece_squares_in(
            f.position.content,
            Piece(PieceType::R, Color::White),
            king_sq(f.position.content, Color::White) + 1,
            8,
        )[0],
        f.position.castling_rights[1] is Some ==> 1 <= king_sq(f.position.content, Color::White)
            <= 7 && count_piece_in(
            f.position.content,
            Piece(PieceType::R, Color::White),
            0,
            king_sq(f.position.content, Color::White),
        ) == 1 && f.position.castling_rights[1]->0 == piece_squares_in(
            f.position.content,
            Piece(PieceType::R, Color::White),
            0,
            king_sq(f.position.content, Color::White),
        )[0],
        f.position.castling_rights[2] is Some ==> 56 <= king_sq(f.position.content, Color::Black)
            <= 62 && count_piece_in(
            f.position.content,
            Piece(PieceType::R, Color::Black),
            king_sq(f.position.content, Color::Black) + 1,
            64,
        ) == 1 && f.position.castling_rights[2]->0 == piece_squares_in(
            f.position.content,
            Piece(PieceType::R, Color::Black),
            king_sq(f.position.content, Color::Black) + 1,
            64,
        )[0],
        f.position.castling_rights[3] is Some ==> 57 <= king_sq(f.position.content, Color::Black)
            <= 63 && count_piece_in(
            f.position.content,
            Piece(PieceType::R, Color::Black),
            56,
            king_sq(f.position.content, Color::Black),
        ) == 1 && f.position.castling_rights[3]->0 == piece_squares_in(
            f.position.content,
            Piece(PieceType::R, Color::Black),
            56,
            king_sq(f.position.content, Color::Black),
        )[0],
        f.position.ep_target is Some ==> (16 <= f.position.ep_target->0 < 24 || 40
            <= f.position.ep_target->0 < 48),
        f.halfmove_clock <= 150,
        f.fullmove_number >= 1,
{
    let fields = split_on(s, ' ');
    let ranks = split_on(fields[0], '/');
    let c = f.position.content;
    assert(fields.len() == 6);
    assert(ranks.len() == 8);
    assert(content_upto(ranks, 8) == Some(c));
    lemma_content_upto_len(ranks, 8);
    let wk = king_sq(c, Color::White);
    let bk = king_sq(c, Color::Black);
    let cf = castling_field(c, fields[2], wk, bk);
    assert(cf == Ok::<Seq<Option<usize>>, InvalidFenError>(f.position.castling_rights));
    let flags = if fields[2] == seq!['-'] {
        Some((false, false, false, false))
    } else {
        castling_scan(fields[2], 0, false, false, false, false, wk, bk)
    };
    assert(flags is Some);
    let (k0, q0, kk0, qq0) = flags->0;
    if !(fields[2] == seq!['-']) {
        lemma_scan_conditions(fields[2], 0, false, false, false, false, wk, bk);
    }
    assert(f.position.castling_rights[0] is Some == k0);
    assert(f.position.castling_rights[1] is Some == q0);
    assert(f.position.castling_rights[2] is Some == kk0);
    assert(f.position.castling_rights[3] is Some == qq0);
    let ef = ep_field(fields[3]);
    assert(ef == Ok::<Option<usize>, InvalidFenError>(f.position.ep_target));
    if f.position.ep_target is Some {
        let fld = fields[3];
        assert(helpers::file_val(fld[0]) < 8 && (fld[1] == '3' || fld[1] == '6'));
        assert(f.position.ep_target->0 == helpers::sq_index(fld[0], fld[1]) as usize);
    }
}

} // verus!
verus! {

/// The board text holds piece letters, count digits and rank separators
/// only — never a space.
proof fn lemma_board_str_chars(c: Seq<Option<Piece>>, n: int)
    requires
        c.len() == 64,
        0 <= n <= 8,
    ensures
        forall|j: int|
            0 <= j < board_ranks_str(c, n).len() ==> #[trigger] board_ranks_str(c, n)[j] != ' ',
    decreases n,
{
    if n == 1 {
        lemma_rank_str_rt(c.subrange(56, 64), 0, 0);
    } else if n > 1 {
        lemma_board_str_chars(c, n - 1);
        lemma_rank_str_rt(c.subrange(8 * (8 - n), 8 * (8 - n) + 8), 0, 0);
        let pre = board_ranks_str(c, n - 1);
        let rk = rank_str(c.subrange(8 * (8 - n), 8 * (8 - n) + 8));
        let t = board_ranks_str(c, n);
        assert(t == pre + seq!['/'] + rk);
        assert forall|j: int| 0 <= j < t.len() implies #[trigger] t[j] != ' ' by {
            if j < pre.len() {
                assert(t[j] == pre[j]);
            } else if j == pre.len() {
                assert(t[j] == '/');
            } else {
                assert(t[j] == rk[j - pre.len() - 1]);
            }
        }
    }
}

/// The board text splits back into the eight rank texts, and those expand
/// back to the original content.
proof fn lemma_board_rt(c: Seq<Option<Piece>>)
    requires
        c.len() == 64,
    ensures
        split_on(board_ranks_str(c, 8), '/').len() == 8,
        content_upto(split_on(board_ranks_str(c, 8), '/'), 8) == Some(c),
{
    let r1 = rank_str(c.subrange(0, 8));
    let r2 = rank_str(c.subrange(8, 16));
    let r3 = rank_str(c.subrange(16, 24));
    let r4 = rank_str(c.subrange(24, 32));
    let r5 = rank_str(c.subrange(32, 40));
    let r6 = rank_str(c.subrange(40, 48));
    let r7 = rank_str(c.subrange(48, 56));
    let r8 = rank_str(c.subrange(56, 64));
    lemma_rank_str_rt(c.subrange(0, 8), 0, 0);
    lemma_rank_str_rt(c.subrange(8, 16), 0, 0);
    lemma_rank_str_rt(c.subrange(16, 24), 0, 0);
    lemma_rank_str_rt(c.subrange(24, 32), 0, 0);
    lemma_rank_str_rt(c.subrange(32, 40), 0, 0);
    lemma_rank_str_rt(c.subrange(40, 48), 0, 0);
    lemma_rank_str_rt(c.subrange(48, 56), 0, 0);
    lemma_rank_str_rt(c.subrange(56, 64), 0, 0);
    let sep = seq!['/'];
    assert(board_ranks_str(c, 2) == board_ranks_str(c, 1) + sep + r7);
    assert(board_ranks_str(c, 3) == board_ranks_str(c, 2) + sep + r6);
    assert(board_ranks_str(c, 4) == board_ranks_str(c, 3) + sep + r5);
    assert(board_ranks_str(c, 5) == board_ranks_str(c, 4) + sep + r4);
    assert(board_ranks_str(c, 6) == board_ranks_str(c, 5) + sep + r3);
    assert(board_ranks_str(c, 7) == board_ranks_str(c, 6) + sep + r2);
    assert(board_ranks_str(c, 8) == board_ranks_str(c, 7) + sep + r1);
    let b = board_ranks_str(c, 8);
    let w1 = r1;
    let w2 = r2 + sep + w1;
    let w3 = r3 + sep + w2;
    let w4 = r4 + sep + w3;
    let w5 = r5 + sep + w4;
    let w6 = r6 + sep + w5;
    let w7 = r7 + sep + w6;
    assert(b =~= r8 + sep + w7);
    lemma_split_cons(r8, w7, '/');
    assert(w7.subrange(r7.len() as int + 1, w7.len() as int) =~= w6);
    lemma_split_cons(r7, w6, '/');
    lemma_split_cons(r6, w5, '/');
    lemma_split_cons(r5, w4, '/');
    lemma_split_cons(r4, w3, '/');
    lemma_split_cons(r3, w2, '/');
    lemma_split_cons(r2, w1, '/');
    lemma_split_single(r1, '/');
    let ranks = split_on(b, '/');
    assert(ranks =~= seq![r8, r7, r6, r5, r4, r3, r2, r1]);
    assert(rank_expansion(r1) == Some(empty_squares(0) + c.subrange(0, 8).subrange(0, 8)));
    assert(empty_squares(0) + c.subrange(0, 8).subrange(0, 8) =~= c.subrange(0, 8));
    assert(empty_squares(0) + c.subrange(8, 16).subrange(0, 8) =~= c.subrange(8, 16));
    assert(empty_squares(0) + c.subrange(16, 24).subrange(0, 8) =~= c.subrange(16, 24));
    assert(empty_squares(0) + c.subrange(24, 32).subrange(0, 8) =~= c.subrange(24, 32));
    assert(empty_squares(0) + c.subrange(32, 40).subrange(0, 8) =~= c.subrange(32, 40));
    assert(empty_squares(0) + c.subrange(40, 48).subrange(0, 8) =~= c.subrange(40, 48));
    assert(empty_squares(0) + c.subrange(48, 56).subrange(0, 8) =~= c.subrange(48, 56));
    assert(empty_squares(0) + c.subrange(56, 64).subrange(0, 8) =~= c.subrange(56, 64));
    assert(content_upto(ranks, 0) == Some(Seq::<Option<Piece>>::empty()));
    assert(ranks[7] == r1 && rank_expansion(r1) == Some(c.subrange(0, 8)));
    assert(Seq::<Option<Piece>>::empty() + c.subrange(0, 8) =~= c.subrange(0, 8));
    assert(content_upto(ranks, 1) == Some(c.subrange(0, 8)));
    assert(c.subrange(0, 8) + c.subrange(8, 16) =~= c.subrange(0, 16));
    assert(content_upto(ranks, 2) == Some(c.subrange(0, 16)));
    assert(c.subrange(0, 16) + c.subrange(16, 24) =~= c.subrange(0, 24));
    assert(content_upto(ranks, 3) == Some(c.subrange(0, 24)));
    assert(c.subrange(0, 24) + c.subrange(24, 32) =~= c.subrange(0, 32));
    assert(content_upto(ranks, 4) == Some(c.subrange(0, 32)));
    assert(c.subrange(0, 32) + c.subrange(32, 40) =~= c.subrange(0, 40));
    assert(content_upto(ranks, 5) == Some(c.subrange(0, 40)));
    assert(c.subrange(0, 40) + c.subrange(40, 48) =~= c.subrange(0, 48));
    assert(content_upto(ranks, 6) == Some(c.subrange(0, 48)));
    assert(c.subrange(0, 48) + c.subrange(48, 56) =~= c.subrange(0, 56));
    assert(content_upto(ranks, 7) == Some(c.subrange(0, 56)));
    assert(c.subrange(0, 56) + c.subrange(56, 64) =~= c.subrange(0, 64));
    assert(content_upto(ranks, 8) == Some(c.subrange(0, 64)));
    assert(c.subrange(0, 64) =~= c);
}

} // verus!
verus! {

/// The parse/serialize round trip: re-parsing the serialization of any
/// parsed snapshot yields that snapshot back — the same placement, side,
/// castling rights, en-passant target and clocks.
#[verifier::rlimit(100)]
pub proof fn lemma_fen_round_trip(s: Seq<char>, f: FenV)
    requires
        parse_fen_spec(s) == Ok::<FenV, InvalidFenError>(f),
    ensures
        parse_fen_spec(fen_str(f)) == Ok::<FenV, InvalidFenError>(f),
{
    lemma_parse_facts(s, f);
    let v = f.position;
    let c = v.content;
    let wk = king_sq(c, Color::White);
    let bk = king_sq(c, Color::Black);
    let b = board_ranks_str(c, 8);
    let cc = castling_str(v);
    let e = ep_str(v.ep_target);
    let h = strutil::dec_str(f.halfmove_clock as int);
    let fm = strutil::dec_str(f.fullmove_number as int);
    let sp = seq![' '];
    let col = seq![color_char(v.side)];
    let t = fen_str(f);
    lemma_board_str_chars(c, 8);
    lemma_castling_rt(v);
    lemma_dec_str_rt(f.halfmove_clock as int);
    lemma_dec_str_rt(f.fullmove_number as int);
    assert(color_char(v.side) != ' ');
    // The en-passant field never holds a space, and reads back.
    if v.ep_target is Some {
        let t0 = v.ep_target->0 as int;
        lemma_file_char_rt(helpers::file_of(t0));
        lemma_rank_char_rt(helpers::rank_of(t0));
        assert(e == seq![
            helpers::file_char(helpers::file_of(t0)),
            helpers::rank_char(helpers::rank_of(t0)),
        ]);
    } else {
        assert(e == seq!['-']);
    }
    assert(forall|j: int| 0 <= j < e.len() ==> #[trigger] e[j] != ' ');
    // Peel the six space-separated fields.
    let g5 = fm;
    let g4 = h + sp + g5;
    let g3 = e + sp + g4;
    let g2 = cc + sp + g3;
    let g1 = col + sp + g2;
    assert(t =~= b + sp + g1);
    lemma_split_cons(b, g1, ' ');
    lemma_split_cons(col, g2, ' ');
    lemma_split_cons(cc, g3, ' ');
    lemma_split_cons(e, g4, ' ');
    lemma_split_cons(h, g5, ' ');
    lemma_split_single(fm, ' ');
    let fields = split_on(t, ' ');
    assert(fields =~= seq![b, col, cc, e, h, fm]);
    assert(fields.len() == 6);
    // The board field reads back to the same content.
    lemma_board_rt(c);
    let ranks = split_on(fields[0], '/');
    assert(ranks.len() == 8);
    assert(content_upto(ranks, 8) == Some(c));
    // The active-color field reads back to the same side.
    reveal_strlit("w");
    reveal_strlit("b");
    let side2 = if fields[1] == seq!['w'] {
        Color::White
    } else {
        Color::Black
    };
    assert(side2 == v.side) by {
        if v.side == Color::White {
            assert(col =~= seq!['w']);
        } else {
            assert(col =~= seq!['b']);
            assert(seq!['b'][0] == 'b' && seq!['w'][0] == 'w');
            assert(seq!['b'] != seq!['w']);
        }
    }
    assert(!(fields[1] != seq!['w'] && fields[1] != seq!['b'])) by {
        if v.side == Color::White {
            assert(col =~= seq!['w']);
        } else {
            assert(col =~= seq!['b']);
        }
    }
    // The castling field reads back to the same rights.
    assert(castling_field(c, fields[2], wk, bk) == Ok::<Seq<Option<usize>>, InvalidFenError>(
        v.castling_rights,
    ));
    // The en-passant field reads back to the same target.
    assert(ep_field(fields[3]) == Ok::<Option<usize>, InvalidFenError>(v.ep_target)) by {
        if v.ep_target is Some {
            let t0 = v.ep_target->0 as int;
            lemma_file_char_rt(helpers::file_of(t0));
            lemma_rank_char_rt(helpers::rank_of(t0));
            assert(e.len() == 2);
            assert(e != seq!['-']);
            let fc = e[0];
            let rc = e[1];
            assert(helpers::file_val(fc) == helpers::file_of(t0) < 8);
            assert(helpers::rank_of(t0) == 2 || helpers::rank_of(t0) == 5);
            assert(rc == '3' || rc == '6');
            assert(helpers::sq_index(fc, rc) == helpers::rank_of(t0) * 8 + helpers::file_of(t0));
            assert(helpers::rank_of(t0) * 8 + helpers::file_of(t0) == t0);
        } else {
            assert(e == seq!['-']);
        }
    }
    // The clocks read back to themselves.
    lemma_parse_dec_str(f.halfmove_clock as int);
    lemma_parse_dec_str(f.fullmove_number as int);
    assert(parse_usize_spec(fields[4]) == Some(f.halfmove_clock));
    assert(parse_usize_spec(fields[5]) == Some(f.fullmove_number));
    // Assemble: the reparse takes every accepting branch and rebuilds f.
    let rebuilt = FenV {
        position: PosV {
            content: c,
            side: side2,
            castling_rights: v.castling_rights,
            ep_target: v.ep_target,
        },
        halfmove_clock: f.halfmove_clock,
        fullmove_number: f.fullmove_number,
    };
    assert(rebuilt.position =~= v);
    assert(rebuilt =~= f);
    assert(parse_fen_spec(t) == Ok::<FenV, InvalidFenError>(rebuilt));
}

} // verus!
