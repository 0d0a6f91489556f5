//! Standard Algebraic Notation: rendering a move as SAN, and reading SAN by
//! exhaustive matching against the legal-move set.

use vstd::prelude::*;
use crate::{Color, Move, Piece, PieceType, SpecialMoveType, piece_type_char};
use crate::errors::{IllegalMoveError, InvalidSanMoveError};
use crate::helpers;
use crate::helpers::{as_legal_spec, file_char, file_of, rank_char, rank_of};
use crate::legal::{legal_moves, move_sane};
use crate::position::{PosV, Position};
use crate::rules::{
    is_check_spec,
    is_checkmate_spec,
    lemma_as_legal_member,
    lemma_legal_moves_sane,
    make_move_spec,
};
use crate::strutil;

verus! {

/// The check/checkmate suffix of a move: '#' when the resulting position is
/// checkmate, '+' when it is check, nothing otherwise.
pub open spec fn san_suffix(v: PosV, m: Move) -> Seq<char> {
    let w = make_move_spec(v, m);
    if is_checkmate_spec(w) {
        seq!['#']
    } else if is_check_spec(w) {
        seq!['+']
    } else {
        Seq::empty()
    }
}

/// How many of the first `n` legal moves land a piece of type `pt` on
/// square `dest`.
pub open spec fn count_dest(v: PosV, legal: Seq<Move>, dest: usize, pt: PieceType, n: int) -> int
    decreases n,
{
    if n <= 0 {
        0
    } else {
        count_dest(v, legal, dest, pt, n - 1) + if legal[n - 1].1 == dest && (match v.content[
            legal[n - 1].0 as int
        ] {
            Some(p) => p.0 == pt,
            None => false,
        }) {
            1int
        } else {
            0int
        }
    }
}

/// How many of the first `n` legal moves land a piece of type `pt` from
/// file `f` on square `dest`.
pub open spec fn count_dest_file(
    v: PosV,
    legal: Seq<Move>,
    dest: usize,
    pt: PieceType,
    f: int,
    n: int,
) -> int
    decreases n,
{
    if n <= 0 {
        0
    } else {
        count_dest_file(v, legal, dest, pt, f, n - 1) + if legal[n - 1].1 == dest && (match v.content[
            legal[n - 1].0 as int
        ] {
            Some(p) => p.0 == pt,
            None => false,
        }) && file_of(legal[n - 1].0 as int) == f {
            1int
        } else {
            0int
        }
    }
}

/// How many of the first `n` legal moves land a piece of type `pt` from
/// rank `r` on square `dest`.
pub open spec fn count_dest_rank(
    v: PosV,
    legal: Seq<Move>,
    dest: usize,
    pt: PieceType,
    r: int,
    n: int,
) -> int
    decreases n,
{
    if n <= 0 {
        0
    } else {
        count_dest_rank(v, legal, dest, pt, r, n - 1) + if legal[n - 1].1 == dest && (match v.content[
            legal[n - 1].0 as int
        ] {
            Some(p) => p.0 == pt,
            None => false,
        }) && rank_of(legal[n - 1].0 as int) == r {
            1int
        } else {
            0int
        }
    }
}

/// The disambiguator of a non-pawn, non-king move: nothing when no other
/// legal move of the same piece type reaches the destination; else the
/// source file when that alone disambiguates; else the source rank when
/// that alone disambiguates; else file and rank.
pub open spec fn san_disambiguator(v: PosV, m: Move, pt: PieceType) -> Seq<char> {
    let legal = legal_moves(v);
    let n = legal.len() as int;
    let src = m.0 as int;
    if count_dest(v, legal, m.1, pt, n) > 1 {
        if count_dest_file(v, legal, m.1, pt, file_of(src), n) > 1 {
            if count_dest_rank(v, legal, m.1, pt, rank_of(src), n) > 1 {
                seq![file_char(file_of(src)), rank_char(rank_of(src))]
            } else {
                seq![rank_char(rank_of(src))]
            }
        } else {
            seq![file_char(file_of(src))]
        }
    } else {
        Seq::empty()
    }
}

/// The SAN text of a legal move: pawn moves print their destination with a
/// file-and-'x' prefix on captures and an '=piece' suffix on promotions;
/// castling prints as O-O or O-O-O; king moves print as 'K' plus the
/// destination; other moves print their piece letter, the minimal
/// disambiguator, 'x' on captures and the destination; every move carries
/// the check or checkmate suffix of its resulting position.
pub open spec fn san_of(v: PosV, m: Move) -> Seq<char> {
    let src = m.0 as int;
    let dest = m.1 as int;
    let srcf = file_char(file_of(src));
    let destf = file_char(file_of(dest));
    let destr = rank_char(rank_of(dest));
    let suffix = san_suffix(v, m);
    let dest_occ = v.content[dest];
    match v.content[src] {
        Some(p) => match p.0 {
            PieceType::P => (match m.2 {
                Some(SpecialMoveType::EnPassant) => seq![srcf, 'x', destf, destr],
                _ => (if dest_occ is Some {
                    seq![srcf, 'x', destf, destr]
                } else {
                    seq![destf, destr]
                }) + (match m.2 {
                    Some(SpecialMoveType::Promotion(t)) => seq!['=', piece_type_char(t)],
                    _ => Seq::<char>::empty(),
                }),
            }) + suffix,
            PieceType::K => (match m.2 {
                Some(SpecialMoveType::CastlingKingside) => seq!['O', '-', 'O'],
                Some(SpecialMoveType::CastlingQueenside) => seq!['O', '-', 'O', '-', 'O'],
                _ => seq!['K'] + (if dest_occ is Some {
                    seq!['x']
                } else {
                    Seq::<char>::empty()
                }) + seq![destf, destr],
            }) + suffix,
            pt => seq![piece_type_char(pt)] + san_disambiguator(v, m, pt) + (if dest_occ is Some {
                seq!['x']
            } else {
                Seq::<char>::empty()
            }) + seq![destf, destr] + suffix,
        },
        None => Seq::empty(),
    }
}

impl Position {
    /// Counts the legal moves landing a piece of type `pt` on `dest`,
    /// filtered by nothing, by source file, or by source rank.
    fn count_dest_matches(
        &self,
        legal: &Vec<Move>,
        dest: usize,
        pt: PieceType,
        by_file: Option<usize>,
        by_rank: Option<usize>,
    ) -> (r: usize)
        requires
            self@.base_wf(),
            forall|k: int| 0 <= k < legal@.len() ==> (#[trigger] legal@[k]).0 < 64,
        ensures
            by_file is None && by_rank is None ==> r == count_dest(
                self@,
                legal@,
                dest,
                pt,
                legal@.len() as int,
            ),
            by_file is Some && by_rank is None ==> r == count_dest_file(
                self@,
                legal@,
                dest,
                pt,
                by_file->0 as int,
                legal@.len() as int,
            ),
            by_file is None && by_rank is Some ==> r == count_dest_rank(
                self@,
                legal@,
                dest,
                pt,
                by_rank->0 as int,
                legal@.len() as int,
            ),
    {
        let mut count: usize = 0;
        let mut i: usize = 0;
        while i < legal.len()
            invariant
                0 <= i <= legal@.len(),
                self@.base_wf(),
                forall|k: int| 0 <= k < legal@.len() ==> (#[trigger] legal@[k]).0 < 64,
                count <= i,
                by_file is None && by_rank is None ==> count == count_dest(
                    self@,
                    legal@,
                    dest,
                    pt,
                    i as int,
                ),
                by_file is Some && by_rank is None ==> count == count_dest_file(
                    self@,
                    legal@,
                    dest,
                    pt,
                    by_file->0 as int,
                    i as int,
                ),
                by_file is None && by_rank is Some ==> count == count_dest_rank(
                    self@,
                    legal@,
                    dest,
                    pt,
                    by_rank->0 as int,
                    i as int,
                ),
            decreases legal@.len() - i,
        {
            let m = legal[i];
            let base = m.1 == dest && (match self.content[m.0] {
                Some(p) => p.0 == pt,
                None => false,
            });
            let extra = match (by_file, by_rank) {
                (Some(f), _) => m.0 % 8 == f,
                (_, Some(rk)) => m.0 / 8 == rk,
                _ => true,
            };
            if base && extra {
                count = count + 1;
            }
            i = i + 1;
        }
        count
    }

    /// Converts a `Move` to SAN, returning an error if the move is illegal.
    pub fn move_to_san(&self, move_: Move) -> (r: Result<String, IllegalMoveError>)
        requires
            self@.wf(),
        ensures
            match r {
                Ok(s) => as_legal_spec(move_, legal_moves(self@)) is Some && s@ == san_of(
                    self@,
                    as_legal_spec(move_, legal_moves(self@))->0,
                ),
                Err(e) => as_legal_spec(move_, legal_moves(self@)) is None && e
                    == (IllegalMoveError(move_)),
            },
    {
        let legal = self.gen_non_illegal_moves();
        let mv = match helpers::as_legal(move_, &legal) {
            Some(m) => m,
            None => {
                return Err(IllegalMoveError(move_));
            },
        };
        proof {
            lemma_as_legal_member(move_, legal@);
            lemma_legal_moves_sane(self@);
            let j = choose|j: int| 0 <= j < legal_moves(self@).len() && legal_moves(self@)[j] == mv;
            assert(move_sane(self@, legal_moves(self@)[j]));
            assert(forall|k: int| 0 <= k < legal@.len() ==> (#[trigger] legal@[k]).0 < 64) by {
                assert(forall|k: int|
                    0 <= k < legal_moves(self@).len() ==> move_sane(
                        self@,
                        #[trigger] legal_moves(self@)[k],
                    ));
            }
        }
        let src = mv.0;
        let dest = mv.1;
        let src_occ = self.content[src];
        let dest_occ = self.content[dest];
        let (srcf, srcr) = helpers::idx_to_sq(src);
        let (destf, destr) = helpers::idx_to_sq(dest);
        let new_position = match self.make_move(mv) {
            Ok(p) => p,
            Err(e) => {
                proof {
                    assert(legal@.contains(mv));
                    assert(false);
                }
                return Err(e);
            },
        };
        let suffix: char = if new_position.is_checkmate() {
            '#'
        } else if new_position.is_check() {
            '+'
        } else {
            ' '
        };
        let has_suffix = !(suffix == ' ');
        let mut san = String::new();
        match src_occ {
            Some(Piece(PieceType::P, _)) => {
                match mv.2 {
                    Some(SpecialMoveType::EnPassant) => {
                        strutil::push_char(&mut san, srcf);
                        strutil::push_char(&mut san, 'x');
                        strutil::push_char(&mut san, destf);
                        strutil::push_char(&mut san, destr);
                    },
                    _ => {
                        if dest_occ.is_some() {
                            strutil::push_char(&mut san, srcf);
                            strutil::push_char(&mut san, 'x');
                        }
                        strutil::push_char(&mut san, destf);
                        strutil::push_char(&mut san, destr);
                        match mv.2 {
                            Some(SpecialMoveType::Promotion(t)) => {
                                strutil::push_char(&mut san, '=');
                                strutil::push_char(&mut san, t.to_char());
                            },
                            _ => {},
                        }
                    },
                }
            },
            Some(Piece(PieceType::K, _)) => {
                match mv.2 {
                    Some(SpecialMoveType::CastlingKingside) => {
                        strutil::push_char(&mut san, 'O');
                        strutil::push_char(&mut san, '-');
                        strutil::push_char(&mut san, 'O');
                    },
                    Some(SpecialMoveType::CastlingQueenside) => {
                        strutil::push_char(&mut san, 'O');
                        strutil::push_char(&mut san, '-');
                        strutil::push_char(&mut san, 'O');
                        strutil::push_char(&mut san, '-');
                        strutil::push_char(&mut san, 'O');
                    },
                    _ => {
                        strutil::push_char(&mut san, 'K');
                        if dest_occ.is_some() {
                            strutil::push_char(&mut san, 'x');
                        }
                        strutil::push_char(&mut san, destf);
                        strutil::push_char(&mut san, destr);
                    },
                }
            },
            Some(Piece(pt, _)) => {
                strutil::push_char(&mut san, pt.to_char());
                let n_all = self.count_dest_matches(&legal, dest, pt, None, None);
                if n_all > 1 {
                    let n_file = self.count_dest_matches(&legal, dest, pt, Some(src % 8), None);
                    if n_file > 1 {
                        let n_rank = self.count_dest_matches(&legal, dest, pt, None, Some(src / 8));
                        if n_rank > 1 {
                            strutil::push_char(&mut san, srcf);
                        }
                        strutil::push_char(&mut san, srcr);
                    } else {
                        strutil::push_char(&mut san, srcf);
                    }
                }
                if dest_occ.is_some() {
                    strutil::push_char(&mut san, 'x');
                }
                strutil::push_char(&mut san, destf);
                strutil::push_char(&mut san, destr);
            },
            None => {
                proof {
                    assert(false);
                }
            },
        }
        if has_suffix {
            strutil::push_char(&mut san, suffix);
        }
        proof {
            assert(san@ =~= san_of(self@, mv));
        }
        Ok(san)
    }
}

/// The SAN input text normalized as the matcher reads it: '0' becomes 'O'
/// and the check and checkmate marks are dropped.
pub open spec fn normalize_san(s: Seq<char>) -> Seq<char>
    decreases s.len(),
{
    if s.len() == 0 {
        Seq::empty()
    } else {
        let c0 = if s[0] == '0' {
            'O'
        } else {
            s[0]
        };
        (if c0 == '+' || c0 == '#' {
            Seq::<char>::empty()
        } else {
            seq![c0]
        }) + normalize_san(s.drop_first())
    }
}

/// A SAN text with its check and checkmate marks dropped.
pub open spec fn strip_checks(s: Seq<char>) -> Seq<char>
    decreases s.len(),
{
    if s.len() == 0 {
        Seq::empty()
    } else {
        (if s[0] == '+' || s[0] == '#' {
            Seq::<char>::empty()
        } else {
            seq![s[0]]
        }) + strip_checks(s.drop_first())
    }
}

/// The first legal move from index `i` on whose SAN, marks dropped, equals
/// `target`.
pub open spec fn san_match_from(v: PosV, legal: Seq<Move>, target: Seq<char>, i: int) -> Option<
    Move,
>
    decreases legal.len() - i,
{
    if i < 0 || i >= legal.len() {
        None
    } else if strip_checks(san_of(v, legal[i])) == target {
        Some(legal[i])
    } else {
        san_match_from(v, legal, target, i + 1)
    }
}

/// Skipping non-matching moves does not change the first SAN match.
proof fn lemma_san_match_skip(v: PosV, legal: Seq<Move>, target: Seq<char>, i: int, j: int)
    requires
        0 <= i <= j <= legal.len(),
        forall|k: int| i <= k < j ==> strip_checks(san_of(v, #[trigger] legal[k])) != target,
    ensures
        san_match_from(v, legal, target, i) == san_match_from(v, legal, target, j),
    decreases j - i,
{
    if i < j {
        lemma_san_match_skip(v, legal, target, i + 1, j);
    }
}

/// Normalizes SAN input: '0' becomes 'O', check and checkmate marks drop.
pub(crate) fn normalize(s: &str) -> (r: String)
    ensures
        r@ == normalize_san(s@),
{
    let n = s.unicode_len();
    let mut out = String::new();
    proof {
        assert(s@.subrange(0, n as int) =~= s@);
        assert(out@ + normalize_san(s@) =~= normalize_san(s@));
    }
    let mut i: usize = 0;
    while i < n
        invariant
            0 <= i <= n,
            n == s@.len(),
            normalize_san(s@) == out@ + normalize_san(s@.subrange(i as int, n as int)),
        decreases n - i,
    {
        let ghost sfx = s@.subrange(i as int, n as int);
        proof {
            assert(sfx[0] == s@[i as int]);
            assert(sfx.drop_first() =~= s@.subrange(i + 1, n as int));
        }
        let mut c = s.get_char(i);
        if c == '0' {
            c = 'O';
        }
        if !(c == '+' || c == '#') {
            strutil::push_char(&mut out, c);
        }
        i = i + 1;
    }
    proof {
        assert(s@.subrange(n as int, n as int) =~= Seq::<char>::empty());
        assert(out@ =~= normalize_san(s@));
    }
    out
}

/// Drops the check and checkmate marks of a SAN text.
fn strip_check_marks(s: &str) -> (r: String)
    ensures
        r@ == strip_checks(s@),
{
    let n = s.unicode_len();
    let mut out = String::new();
    proof {
        assert(s@.subrange(0, n as int) =~= s@);
        assert(out@ + strip_checks(s@) =~= strip_checks(s@));
    }
    let mut i: usize = 0;
    while i < n
        invariant
            0 <= i <= n,
            n == s@.len(),
            strip_checks(s@) == out@ + strip_checks(s@.subrange(i as int, n as int)),
        decreases n - i,
    {
        let ghost sfx = s@.subrange(i as int, n as int);
        proof {
            assert(sfx[0] == s@[i as int]);
            assert(sfx.drop_first() =~= s@.subrange(i + 1, n as int));
        }
        let c = s.get_char(i);
        if !(c == '+' || c == '#') {
            strutil::push_char(&mut out, c);
        }
        i = i + 1;
    }
    proof {
        assert(s@.subrange(n as int, n as int) =~= Seq::<char>::empty());
        assert(out@ =~= strip_checks(s@));
    }
    out
}

impl Position {
    /// Constructs a `Move` from a SAN representation by matching the text,
    /// marks dropped, against the SAN of each legal move; returns an error
    /// if no legal move matches.
    pub fn san_to_move(&self, san: &str) -> (r: Result<Move, InvalidSanMoveError>)
        requires
            self@.wf(),
        ensures
            match r {
                Ok(m) => san_match_from(self@, legal_moves(self@), normalize_san(san@), 0) == Some(
                    m,
                ),
                Err(e) => san_match_from(self@, legal_moves(self@), normalize_san(san@), 0)
                    is None && e.0@ == normalize_san(san@),
            },
    {
        let norm = normalize(san);
        let legal = self.gen_non_illegal_moves();
        let mut i: usize = 0;
        while i < legal.len()
            invariant
                0 <= i <= legal@.len(),
                self@.wf(),
                legal@ == legal_moves(self@),
                norm@ == normalize_san(san@),
                forall|k: int|
                    0 <= k < i ==> strip_checks(san_of(self@, #[trigger] legal@[k])) != norm@,
            decreases legal@.len() - i,
        {
            let m = legal[i];
            proof {
                assert(legal@.contains(m)) by {
                    assert(legal@[i as int] == m);
                }
            }
            let rendered = match self.move_to_san(m) {
                Ok(s) => s,
                Err(_) => {
                    proof {
                        assert(false);
                    }
                    return Err(InvalidSanMoveError(norm));
                },
            };
            let stripped = strip_check_marks(rendered.as_str());
            if stripped == norm {
                proof {
                    lemma_san_match_skip(self@, legal@, norm@, 0, i as int);
                }
                return Ok(m);
            }
            i = i + 1;
        }
        proof {
            lemma_san_match_skip(self@, legal@, norm@, 0, legal@.len() as int);
        }
        Err(InvalidSanMoveError(norm))
    }
}

} // verus!
