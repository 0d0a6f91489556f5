//! Making moves, check and mate queries, and the material rules.

use vstd::prelude::*;
use crate::{Color, Move, Piece, PieceType, SpecialMoveType};
use crate::errors::IllegalMoveError;
use crate::helpers;
use crate::helpers::{as_legal_spec, change_content_spec, find_unclear_from, is_light};
use crate::legal::{
    is_legal_move,
    kcp,
    king_capture_pseudolegal,
    legal_moves,
    legal_upto,
    lemma_change_wf,
    lemma_pseudolegal_sane,
    lemma_sane_change_pre,
    move_sane,
};
use crate::movegen::pseudolegal_moves;
use crate::position::{PosV, Position, pawns_ok, copy_rights};

verus! {

/// The index of the first castling-rights entry naming square `sq`, from
/// entry `i` on; 4 if none does.
pub open spec fn first_right_idx(rights: Seq<Option<usize>>, sq: usize, i: int) -> int
    decreases 4 - i,
{
    if i < 0 || i >= 4 {
        4
    } else if rights[i] == Some(sq) {
        i
    } else {
        first_right_idx(rights, sq, i + 1)
    }
}

/// The castling rights with the first entry naming `sq` revoked.
pub open spec fn clear_right(rights: Seq<Option<usize>>, sq: usize) -> Seq<Option<usize>> {
    let idx = first_right_idx(rights, sq, 0);
    if idx < 4 {
        rights.update(idx, None)
    } else {
        rights
    }
}

/// The castling rights after a move: a king move revokes both rights of the
/// side to move, and a move leaving or entering a square named by a right
/// revokes that right.
pub open spec fn next_rights(v: PosV, m: Move) -> Seq<Option<usize>> {
    let r1 = match v.content[m.0 as int] {
        Some(p) => if p.0 == PieceType::K {
            if v.side == Color::White {
                v.castling_rights.update(0, None).update(1, None)
            } else {
                v.castling_rights.update(2, None).update(3, None)
            }
        } else {
            v.castling_rights
        },
        None => v.castling_rights,
    };
    clear_right(clear_right(r1, m.0), m.1)
}

/// The en-passant target after a move: the square passed over by a pawn
/// advancing two squares, and nothing otherwise.
pub open spec fn next_ep(v: PosV, m: Move) -> Option<usize> {
    match v.content[m.0 as int] {
        Some(p) => if p.0 == PieceType::P && (m.1 == m.0 + 16 || m.0 == m.1 + 16) {
            if v.side == Color::White {
                Some((m.0 + 8) as usize)
            } else {
                Some((m.0 - 8) as usize)
            }
        } else {
            None
        },
        None => None,
    }
}

/// The position after a move: the changed content, the other side to move,
/// the surviving castling rights and the new en-passant target.
pub open spec fn make_move_spec(v: PosV, m: Move) -> PosV {
    PosV {
        content: change_content_spec(v.content, m, v.castling_rights),
        side: v.side.spec_other(),
        castling_rights: next_rights(v, m),
        ep_target: next_ep(v, m),
    }
}

/// Skipping entries that do not name `sq` does not change the first-match
/// search.
proof fn lemma_first_right_skip(rights: Seq<Option<usize>>, sq: usize, i: int, j: int)
    requires
        0 <= i <= j <= 4,
        forall|k: int| i <= k < j ==> rights[k] != Some(sq),
    ensures
        first_right_idx(rights, sq, i) == first_right_idx(rights, sq, j),
    decreases j - i,
{
    if i < j {
        lemma_first_right_skip(rights, sq, i + 1, j);
    }
}

/// The first-match search lands on a match when one exists.
proof fn lemma_first_right_props(rights: Seq<Option<usize>>, sq: usize, i: int)
    requires
        0 <= i <= 4,
    ensures
        i <= first_right_idx(rights, sq, i) <= 4,
        first_right_idx(rights, sq, i) < 4 ==> rights[first_right_idx(rights, sq, i)] == Some(sq),
        forall|k: int| i <= k < first_right_idx(rights, sq, i) ==> rights[k] != Some(sq),
    decreases 4 - i,
{
    if i < 4 {
        lemma_first_right_props(rights, sq, i + 1);
    }
}

/// When the entries naming squares are pairwise distinct, revoking the
/// first entry naming `sq` leaves no entry naming `sq`, only revokes (never
/// grants), and touches no other entry.
proof fn lemma_clear_right(rights: Seq<Option<usize>>, sq: usize)
    requires
        rights.len() == 4,
        forall|a: int, b: int|
            0 <= a < b < 4 && rights[a] is Some ==> rights[a] != rights[b],
    ensures
        clear_right(rights, sq).len() == 4,
        forall|j: int| 0 <= j < 4 ==> clear_right(rights, sq)[j] != Some(sq),
        forall|j: int|
            0 <= j < 4 && clear_right(rights, sq)[j] is Some ==> clear_right(rights, sq)[j]
                == rights[j],
        forall|j: int|
            0 <= j < 4 && rights[j] != Some(sq) ==> clear_right(rights, sq)[j] == rights[j],
{
    lemma_first_right_props(rights, sq, 0);
    let idx = first_right_idx(rights, sq, 0);
    if idx < 4 {
        assert forall|j: int| 0 <= j < 4 implies clear_right(rights, sq)[j] != Some(sq) by {
            if j != idx && rights[j] == Some(sq) {
                if j < idx {
                    assert(rights[j] != Some(sq));
                } else {
                    assert(rights[idx] == rights[j]);
                    if idx < j {
                        assert(rights[idx] != rights[j]);
                    }
                }
            }
        }
    }
}

/// The rights of one well-formed position are pairwise distinct where
/// present: the two rooks of one side stand on different squares, and a
/// white rook and a black rook never share a square.
proof fn lemma_rights_distinct(v: PosV)
    requires
        v.base_wf(),
        v.rights_wf(),
    ensures
        forall|a: int, b: int|
            0 <= a < b < 4 && v.castling_rights[a] is Some ==> v.castling_rights[a]
                != v.castling_rights[b],
{
    assert forall|a: int, b: int|
        0 <= a < b < 4 && v.castling_rights[a] is Some implies v.castling_rights[a]
        != v.castling_rights[b] by {
        if v.castling_rights[b] is Some && v.castling_rights[a] == v.castling_rights[b] {
            assert((a == 0 || a == 1) && (b == 2 || b == 3) ==> false);
        }
    }
}

/// Making a sane move of a well-formed position yields a well-formed
/// position.
pub proof fn lemma_make_move_wf(v: PosV, m: Move)
    requires
        v.wf(),
        move_sane(v, m),
    ensures
        make_move_spec(v, m).wf(),
{
    let w = make_move_spec(v, m);
    lemma_change_wf(v, m);
    lemma_rights_distinct(v);
    let r1 = match v.content[m.0 as int] {
        Some(p) => if p.0 == PieceType::K {
            if v.side == Color::White {
                v.castling_rights.update(0, None).update(1, None)
            } else {
                v.castling_rights.update(2, None).update(3, None)
            }
        } else {
            v.castling_rights
        },
        None => v.castling_rights,
    };
    assert(forall|j: int| 0 <= j < 4 && r1[j] is Some ==> r1[j] == v.castling_rights[j]);
    assert(forall|a: int, b: int| 0 <= a < b < 4 && r1[a] is Some ==> r1[a] != r1[b]);
    lemma_clear_right(r1, m.0);
    let r2 = clear_right(r1, m.0);
    assert(forall|a: int, b: int| 0 <= a < b < 4 && r2[a] is Some ==> r2[a] != r2[b]);
    lemma_clear_right(r2, m.1);
    let r3 = clear_right(r2, m.1);
    assert(w.castling_rights == r3);
    assert(forall|j: int| 0 <= j < 4 && r3[j] is Some ==> r3[j] == v.castling_rights[j]);
    assert(forall|j: int| 0 <= j < 4 ==> r3[j] != Some(m.0) && r3[j] != Some(m.1));
    // The surviving rights still name squares holding their rooks: the move
    // touches its source and destination, the relocated castling rook's
    // squares, and an en-passant captured pawn's square, and none of these
    // is a surviving right's square.
    let src = m.0 as int;
    let dest = m.1 as int;
    let c = v.content;
    let base = c.update(src, None).update(dest, c[src]);
    assert forall|j: int| 0 <= j < 4 && r3[j] is Some implies w.content[r3[j]->0 as int] == Some(
        Piece(
            PieceType::R,
            if j < 2 {
                Color::White
            } else {
                Color::Black
            },
        ),
    ) by {
        let rq = r3[j]->0 as int;
        assert(r3[j] == v.castling_rights[j]);
        assert(rq != src && rq != dest);
        match m.2 {
            Some(SpecialMoveType::CastlingKingside) | Some(SpecialMoveType::CastlingQueenside) => {
                let (kr, tgt): (int, int) = if dest == 6 {
                    (v.castling_rights[0]->0 as int, 5int)
                } else if dest == 2 {
                    (v.castling_rights[1]->0 as int, 3int)
                } else if dest == 62 {
                    (v.castling_rights[2]->0 as int, 61int)
                } else {
                    (v.castling_rights[3]->0 as int, 59int)
                };
                // A castling move is a king move, so both rights of the
                // mover were revoked: the surviving right belongs to the
                // other side, whose squares lie on the other back rank.
                assert(v.content[src] == Some(Piece(PieceType::K, v.side)));
                if v.side == Color::White {
                    assert(r1[0] is None && r1[1] is None);
                    assert(j == 2 || j == 3);
                    assert(56 <= rq < 64);
                    assert(kr < 8 && tgt < 8);
                } else {
                    assert(r1[2] is None && r1[3] is None);
                    assert(j == 0 || j == 1);
                    assert(rq < 8);
                    assert(56 <= kr && tgt >= 56);
                }
                assert(w.content == base.update(kr, None).update(tgt, base[kr]));
                assert(w.content[rq] == c[rq]);
            },
            Some(SpecialMoveType::EnPassant) => {
                let cap: int = if 16 <= dest < 24 {
                    dest + 8
                } else {
                    dest - 8
                };
                assert(16 <= cap < 56);
                assert(rq < 8 || rq >= 56);
                assert(w.content == base.update(cap, None));
                assert(w.content[rq] == c[rq]);
            },
            Some(SpecialMoveType::Promotion(t)) => {
                assert(w.content == base.update(dest, Some(Piece(t, (c[src]->0).1))));
                assert(w.content[rq] == c[rq]);
            },
            _ => {
                assert(w.content == base);
                assert(w.content[rq] == c[rq]);
            },
        }
    }
}

/// Every legal move is a sane, legality-passing pseudolegal move.
pub proof fn lemma_legal_in_pseudolegal(v: PosV, ps: Seq<Move>, n: int)
    requires
        n <= ps.len(),
    ensures
        forall|k: int|
            0 <= k < legal_upto(v, ps, n).len() ==> ps.contains(#[trigger] legal_upto(v, ps, n)[k])
                && is_legal_move(v, legal_upto(v, ps, n)[k]),
    decreases n,
{
    if n > 0 {
        lemma_legal_in_pseudolegal(v, ps, n - 1);
        let pre = legal_upto(v, ps, n - 1);
        let cur = legal_upto(v, ps, n);
        assert forall|k: int|
            0 <= k < cur.len() implies ps.contains(#[trigger] cur[k]) && is_legal_move(
            v,
            cur[k],
        ) by {
            if k < pre.len() {
                assert(cur[k] == pre[k]);
            } else {
                assert(cur[k] == ps[n - 1]);
                assert(ps.contains(ps[n - 1]));
            }
        }
    }
}

/// A move that resolves against a move list resolves to a member of it.
pub proof fn lemma_as_legal_member(m: Move, legal: Seq<Move>)
    requires
        as_legal_spec(m, legal) is Some,
    ensures
        legal.contains(as_legal_spec(m, legal)->0),
{
    if !legal.contains(m) && m.2 == Some(SpecialMoveType::Unclear) {
        lemma_find_unclear_member(m, legal, 0);
    }
}

proof fn lemma_find_unclear_member(m: Move, legal: Seq<Move>, i: int)
    requires
        0 <= i,
        find_unclear_from(m, legal, i) is Some,
    ensures
        legal.contains(find_unclear_from(m, legal, i)->0),
    decreases legal.len() - i,
{
    if i < legal.len() {
        if legal[i].0 == m.0 && legal[i].1 == m.1 && !(legal[i].2 matches Some(
            SpecialMoveType::Promotion(_),
        )) {
            assert(legal.contains(legal[i]));
        } else {
            lemma_find_unclear_member(m, legal, i + 1);
        }
    }
}

/// Every move of a position's legal-move list is sane and passes the
/// legality filter.
pub proof fn lemma_legal_moves_sane(v: PosV)
    requires
        v.base_wf(),
        pawns_ok(v.content, v.side),
    ensures
        forall|k: int|
            0 <= k < legal_moves(v).len() ==> move_sane(v, #[trigger] legal_moves(v)[k])
                && is_legal_move(v, legal_moves(v)[k]),
{
    let ps = pseudolegal_moves(v);
    lemma_pseudolegal_sane(v);
    lemma_legal_in_pseudolegal(v, ps, ps.len() as int);
}

impl Position {
    /// Returns the position which would occur if the given move is played,
    /// returning an error if the move is illegal. An `Unclear` promotion
    /// wildcard resolves to the first matching legal non-promotion move.
    pub fn make_move(&self, move_: Move) -> (r: Result<Position, IllegalMoveError>)
        requires
            self@.wf(),
        ensures
            match r {
                Ok(p) => as_legal_spec(move_, legal_moves(self@)) is Some && p@ == make_move_spec(
                    self@,
                    as_legal_spec(move_, legal_moves(self@))->0,
                ) && p@.wf(),
                Err(e) => as_legal_spec(move_, legal_moves(self@)) is None && e
                    == (IllegalMoveError(move_)),
            },
    {
        let legal = self.gen_non_illegal_moves();
        let mv = match helpers::as_legal(move_, &legal) {
            Some(m) => m,
            None => {
                return Err(IllegalMoveError(move_));
            },
        };
        proof {
            lemma_as_legal_member(move_, legal@);
            lemma_legal_moves_sane(self@);
            let j = choose|j: int| 0 <= j < legal_moves(self@).len() && legal_moves(self@)[j] == mv;
            assert(move_sane(self@, legal_moves(self@)[j]));
            lemma_sane_change_pre(self@, mv);
            lemma_make_move_wf(self@, mv);
        }
        let src = mv.0;
        let dest = mv.1;
        let mut castling_rights = copy_rights(&self.castling_rights);
        let offset: usize = if self.side.is_white() {
            0
        } else {
            2
        };
        let mut ep_target: Option<usize> = None;
        let moved_piece = self.content[src];
        match moved_piece {
            Some(Piece(PieceType::K, _)) => {
                castling_rights.set(offset, None);
                castling_rights.set(offset + 1, None);
            },
            Some(Piece(PieceType::P, _)) => {
                let diff = if src < dest {
                    dest - src
                } else {
                    src - dest
                };
                if diff == 16 {
                    ep_target = Some(
                        if self.side.is_white() {
                            src + 8
                        } else {
                            src - 8
                        },
                    );
                }
            },
            _ => {},
        }
        proof {
            assert(ep_target == next_ep(self@, mv));
        }
        let mut maybe_rook = src;
        let mut pass: usize = 0;
        while pass < 2
            invariant
                pass <= 2,
                maybe_rook == if pass == 0 {
                    src
                } else {
                    dest
                },
                src == mv.0 && dest == mv.1,
                castling_rights@.len() == 4,
                pass == 0 ==> castling_rights@ == (match self@.content[mv.0 as int] {
                    Some(p) => if p.0 == PieceType::K {
                        if self@.side == Color::White {
                            self@.castling_rights.update(0, None).update(1, None)
                        } else {
                            self@.castling_rights.update(2, None).update(3, None)
                        }
                    } else {
                        self@.castling_rights
                    },
                    None => self@.castling_rights,
                }),
                pass == 1 ==> castling_rights@ == clear_right(
                    match self@.content[mv.0 as int] {
                        Some(p) => if p.0 == PieceType::K {
                            if self@.side == Color::White {
                                self@.castling_rights.update(0, None).update(1, None)
                            } else {
                                self@.castling_rights.update(2, None).update(3, None)
                            }
                        } else {
                            self@.castling_rights
                        },
                        None => self@.castling_rights,
                    },
                    mv.0,
                ),
                pass == 2 ==> castling_rights@ == next_rights(self@, mv),
            decreases 2 - pass,
        {
            let ghost rights_before = castling_rights@;
            let mut idx: usize = 4;
            let mut j: usize = 0;
            while j < 4
                invariant
                    j <= 4,
                    idx <= 4,
                    castling_rights@ == rights_before,
                    castling_rights@.len() == 4,
                    idx == 4 ==> forall|k: int| 0 <= k < j ==> rights_before[k] != Some(maybe_rook),
                    idx < 4 ==> idx == first_right_idx(rights_before, maybe_rook, 0),
                decreases 4 - j,
            {
                let matches_rook = match castling_rights[j] {
                    Some(r) => r == maybe_rook,
                    None => false,
                };
                if idx == 4 && matches_rook {
                    idx = j;
                    proof {
                        lemma_first_right_skip(rights_before, maybe_rook, 0, idx as int);
                    }
                }
                j = j + 1;
            }
            if idx < 4 {
                castling_rights.set(idx, None);
            } else {
                proof {
                    lemma_first_right_skip(rights_before, maybe_rook, 0, 4);
                }
            }
            proof {
                assert(castling_rights@ == clear_right(rights_before, maybe_rook));
            }
            maybe_rook = dest;
            pass = pass + 1;
        }
        let new_content = helpers::change_content(&self.content, &mv, &self.castling_rights);
        let result = Position {
            content: new_content,
            side: self.side.other(),
            castling_rights,
            ep_target,
        };
        proof {
            assert(result@ =~= make_move_spec(self@, mv));
        }
        Ok(result)
    }
}

/// The side in check, if any: white when black could pseudolegally capture
/// the white king, else black when white could capture the black king.
pub open spec fn checked_side_spec(v: PosV) -> Option<Color> {
    if kcp(v.content, Color::Black) {
        Some(Color::White)
    } else if kcp(v.content, Color::White) {
        Some(Color::Black)
    } else {
        None
    }
}

/// Whether any side is in check.
pub open spec fn is_check_spec(v: PosV) -> bool {
    checked_side_spec(v) is Some
}

/// Whether the position is stalemate: no side in check, no legal move.
pub open spec fn is_stalemate_spec(v: PosV) -> bool {
    !is_check_spec(v) && legal_moves(v).len() == 0
}

/// Whether the position is checkmate: a side in check, no legal move.
pub open spec fn is_checkmate_spec(v: PosV) -> bool {
    is_check_spec(v) && legal_moves(v).len() == 0
}

impl Position {
    /// Returns the side in check (`None` if neither side is in check).
    pub fn checked_side(&self) -> (r: Option<Color>)
        requires
            self@.wf(),
        ensures
            r == checked_side_spec(self@),
    {
        if king_capture_pseudolegal(&self.content, Color::Black) {
            Some(Color::White)
        } else if king_capture_pseudolegal(&self.content, Color::White) {
            Some(Color::Black)
        } else {
            None
        }
    }

    /// Checks whether any side is in check (a checkmate is also considered
    /// a check). Use [`Position::checked_side`] to know which side it is.
    pub fn is_check(&self) -> (r: bool)
        requires
            self@.wf(),
        ensures
            r == is_check_spec(self@),
    {
        self.checked_side().is_some()
    }

    /// Checks whether the game is drawn by stalemate. Use
    /// [`Position::stalemated_side`] to know which side is in stalemate.
    pub fn is_stalemate(&self) -> (r: bool)
        requires
            self@.wf(),
        ensures
            r == is_stalemate_spec(self@),
    {
        !self.is_check() && self.gen_non_illegal_moves().is_empty()
    }

    /// Checks whether any side is in checkmate. Use
    /// [`Position::checkmated_side`] to know which side it is.
    pub fn is_checkmate(&self) -> (r: bool)
        requires
            self@.wf(),
        ensures
            r == is_checkmate_spec(self@),
    {
        self.is_check() && self.gen_non_illegal_moves().is_empty()
    }

    /// Returns the side in stalemate (`None` if neither side is).
    pub fn stalemated_side(&self) -> (r: Option<Color>)
        requires
            self@.wf(),
        ensures
            r == if is_stalemate_spec(self@) {
                Some(self@.side)
            } else {
                Option::<Color>::None
            },
    {
        if self.is_stalemate() {
            Some(self.side)
        } else {
            None
        }
    }

    /// Returns the side in checkmate (`None` if neither side is).
    pub fn checkmated_side(&self) -> (r: Option<Color>)
        requires
            self@.wf(),
        ensures
            r == if is_checkmate_spec(self@) {
                Some(self@.side)
            } else {
                Option::<Color>::None
            },
    {
        if self.is_checkmate() {
            Some(self.side)
        } else {
            None
        }
    }
}

/// Represents a piece of material: a knight, a bishop on a light (`true`)
/// or dark (`false`) square, or anything else but a king.
#[derive(Eq, PartialEq, Structural, Copy, Clone, Debug)]
pub enum Material {
    Knight,
    Bishop(bool),
    Other,
}

/// The material categories of the non-king pieces on the first `n` squares,
/// in board order: knights, bishops with their color complex, and everything
/// else lumped together.
pub open spec fn material_upto(c: Seq<Option<Piece>>, n: int) -> Seq<Material>
    decreases n,
{
    if n <= 0 {
        Seq::empty()
    } else {
        material_upto(c, n - 1) + match c[n - 1] {
            Some(p) => match p.0 {
                PieceType::K => Seq::<Material>::empty(),
                PieceType::N => seq![Material::Knight],
                PieceType::B => seq![Material::Bishop(is_light(n - 1))],
                _ => seq![Material::Other],
            },
            None => Seq::<Material>::empty(),
        }
    }
}

/// The material categories of all non-king pieces on the board.
pub open spec fn material_of(v: PosV) -> Seq<Material> {
    material_upto(v.content, 64)
}

/// Whether material is insufficient for checkmate: no material at all, a
/// lone knight, or only bishops that all share one color complex.
pub open spec fn insufficient_spec(m: Seq<Material>) -> bool {
    ||| m.len() == 0
    ||| (m.len() == 1 && m[0] == Material::Knight)
    ||| (m.len() >= 1 && (m[0] matches Material::Bishop(_)) && forall|i: int|
        0 <= i < m.len() ==> #[trigger] m[i] == m[0])
}

impl Position {
    /// Counts the material on the board. This function is used by
    /// [`Position::is_insufficient_material`] to determine whether there is
    /// insufficient checkmating material.
    pub fn count_material(&self) -> (r: Vec<Material>)
        requires
            self@.base_wf(),
        ensures
            r@ == material_of(self@),
    {
        let mut material: Vec<Material> = Vec::new();
        let mut sq: usize = 0;
        while sq < 64
            invariant
                0 <= sq <= 64,
                self@.base_wf(),
                material@ == material_upto(self@.content, sq as int),
            decreases 64 - sq,
        {
            match self.content[sq] {
                Some(Piece(piece_type, _)) => {
                    match piece_type {
                        PieceType::K => {},
                        PieceType::N => material.push(Material::Knight),
                        PieceType::B => material.push(
                            Material::Bishop(helpers::color_complex_of(sq)),
                        ),
                        _ => material.push(Material::Other),
                    }
                },
                None => {},
            }
            proof {
                assert(material@ =~= material_upto(self@.content, sq + 1));
            }
            sq = sq + 1;
        }
        material
    }

    /// Checks whether the game is drawn by insufficient material: bare
    /// kings, king and knight vs. king, or king and bishops vs. king and
    /// bishops with every bishop on one color complex.
    pub fn is_insufficient_material(&self) -> (r: bool)
        requires
            self@.base_wf(),
        ensures
            r == insufficient_spec(material_of(self@)),
    {
        let material = self.count_material();
        if material.len() == 0 {
            return true;
        }
        if material.len() == 1 && matches!(material[0], Material::Knight) {
            return true;
        }
        let first = material[0];
        match first {
            Material::Bishop(_) => {
                let mut i: usize = 1;
                while i < material.len()
                    invariant
                        1 <= i <= material@.len(),
                        material@ == material_of(self@),
                        material@.len() >= 1,
                        first == material@[0],
                        forall|k: int| 0 <= k < i ==> #[trigger] material@[k] == material@[0],
                    decreases material@.len() - i,
                {
                    let same = match (material[i], first) {
                        (Material::Knight, Material::Knight) => true,
                        (Material::Bishop(x), Material::Bishop(y)) => x == y,
                        (Material::Other, Material::Other) => true,
                        _ => false,
                    };
                    if !same {
                        return false;
                    }
                    i = i + 1;
                }
                true
            },
            _ => false,
        }
    }

    /// Checks whether the given move is a capture (an en-passant move or a
    /// move onto an occupied square), returning an error if it is illegal
    /// in this position.
    pub fn is_capture(&self, move_: Move) -> (r: Result<bool, IllegalMoveError>)
        requires
            self@.wf(),
        ensures
            match r {
                Ok(b) => as_legal_spec(move_, legal_moves(self@)) is Some && b == {
                    let mv = as_legal_spec(move_, legal_moves(self@))->0;
                    mv.2 == Some(SpecialMoveType::EnPassant) || self@.content[mv.1 as int] is Some
                },
                Err(e) => as_legal_spec(move_, legal_moves(self@)) is None && e
                    == (IllegalMoveError(move_)),
            },
    {
        let legal = self.gen_non_illegal_moves();
        let mv = match helpers::as_legal(move_, &legal) {
            Some(m) => m,
            None => {
                return Err(IllegalMoveError(move_));
            },
        };
        proof {
            lemma_as_legal_member(move_, legal@);
            lemma_legal_moves_sane(self@);
            let j = choose|j: int| 0 <= j < legal_moves(self@).len() && legal_moves(self@)[j] == mv;
            assert(move_sane(self@, legal_moves(self@)[j]));
        }
        let is_ep = matches!(mv.2, Some(SpecialMoveType::EnPassant));
        Ok(is_ep || self.content[mv.1].is_some())
    }
}

} // verus!
