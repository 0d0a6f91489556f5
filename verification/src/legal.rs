//! Square control and the legality filter.
//!
//! A pseudolegal move is legal iff it does not leave the mover's own king
//! capturable; a castling move is legal iff no square on the king's path is
//! controlled by the opponent. Square control is decided by one primitive:
//! place an enemy pawn marker on the square and ask whether any pseudolegal
//! move of the controlling side lands there.

use vstd::prelude::*;
use crate::{Color, Move, Piece, PieceType, SpecialMoveType};
use crate::helpers;
use crate::helpers::{can_step, change_content_pre, change_content_spec, king_sq};
use crate::movegen::{
    castle_kingside,
    castle_queenside,
    friendly,
    king_dir,
    king_moves_spec,
    king_steps_upto,
    knight_b,
    knight_moves_upto,
    knight_r,
    pawn_capture_at,
    pawn_expand,
    pawn_moves_spec,
    pseudolegal_moves,
    ray_moves,
    slider_axes_len,
    slider_axis,
    slider_moves_spec,
    slider_moves_upto,
    square_moves,
    squares_moves_upto,
};
use crate::position::{PosV, Position, pawns_ok, copy_rights};

verus! {

/// Whether `side` controls square `sq` on the board `c` (with castling
/// rights `rights` and en-passant target `ep` in force): with an enemy pawn
/// marker placed on `sq`, some pseudolegal move of `side` lands on `sq`.
pub open spec fn controls(
    c: Seq<Option<Piece>>,
    rights: Seq<Option<usize>>,
    ep: Option<usize>,
    sq: int,
    side: Color,
) -> bool {
    let v2 = PosV {
        content: c.update(sq, Some(Piece(PieceType::P, side.spec_other()))),
        side: side,
        castling_rights: rights,
        ep_target: ep,
    };
    exists|k: int|
        0 <= k < pseudolegal_moves(v2).len() && pseudolegal_moves(v2)[k].1 == sq
}

/// Whether capturing the enemy king is pseudolegal for `side` on the board
/// `c`: `side` controls the square of the first enemy king, castling rights
/// and en-passant target out of force.
pub open spec fn kcp(c: Seq<Option<Piece>>, side: Color) -> bool {
    let ksq = king_sq(c, side.spec_other());
    &&& ksq < 64
    &&& controls(c, seq![None, None, None, None], None, ksq, side)
}

impl Position {
    /// Checks whether the given side controls a specified square in this
    /// position.
    pub fn controls_square(&self, sq: usize, side: Color) -> (r: bool)
        requires
            self@.base_wf(),
            sq < 64,
            pawns_ok(self@.content, side),
        ensures
            r == controls(self@.content, self@.castling_rights, self@.ep_target, sq as int, side),
    {
        let mut content2 = helpers::copy_occupants(&self.content);
        content2.set(sq, Some(Piece(PieceType::P, side.other())));
        let pos2 = Position {
            content: content2,
            side: side,
            castling_rights: copy_rights(&self.castling_rights),
            ep_target: self.ep_target,
        };
        let ghost v2 = PosV {
            content: self@.content.update(sq as int, Some(Piece(PieceType::P, side.spec_other()))),
            side: side,
            castling_rights: self@.castling_rights,
            ep_target: self@.ep_target,
        };
        proof {
            assert(pawns_ok(pos2@.content, side));
            assert(pos2@ =~= v2);
        }
        let ps = pos2.gen_pseudolegal_moves();
        let mut i: usize = 0;
        while i < ps.len()
            invariant
                0 <= i <= ps@.len(),
                ps@ == pseudolegal_moves(v2),
                v2 == (PosV {
                    content: self@.content.update(
                        sq as int,
                        Some(Piece(PieceType::P, side.spec_other())),
                    ),
                    side: side,
                    castling_rights: self@.castling_rights,
                    ep_target: self@.ep_target,
                }),
                forall|k: int| 0 <= k < i ==> ps@[k].1 != sq,
            decreases ps@.len() - i,
        {
            if ps[i].1 == sq {
                proof {
                    assert(0 <= i < pseudolegal_moves(v2).len() && pseudolegal_moves(v2)[i as int].1
                        == sq);
                    assert(controls(
                        self@.content,
                        self@.castling_rights,
                        self@.ep_target,
                        sq as int,
                        side,
                    ));
                }
                return true;
            }
            i = i + 1;
        }
        proof {
            assert(!controls(
                self@.content,
                self@.castling_rights,
                self@.ep_target,
                sq as int,
                side,
            ));
        }
        false
    }
}

/// Checks whether capturing a king is pseudolegal for the specified side on
/// the given board content.
pub fn king_capture_pseudolegal(content: &Vec<Option<Piece>>, side: Color) -> (r: bool)
    requires
        content@.len() == 64,
        pawns_ok(content@, side),
    ensures
        r == kcp(content@, side),
{
    let enemy_king = helpers::find_king(side.other(), content);
    if enemy_king == 64 {
        return false;
    }
    let mut rights: Vec<Option<usize>> = Vec::new();
    rights.push(None);
    rights.push(None);
    rights.push(None);
    rights.push(None);
    proof {
        assert(rights@ =~= seq![None, None, None, None]);
    }
    let pos = Position {
        content: helpers::copy_occupants(content),
        side: side,
        castling_rights: rights,
        ep_target: None,
    };
    pos.controls_square(enemy_king, side)
}

/// Whether a pseudolegal move of the position `v` is legal: a castling move
/// must have no square on the king's inclusive path controlled by the
/// opponent; any other move must not leave the mover's own king capturable
/// after its content change.
pub open spec fn is_legal_move(v: PosV, m: Move) -> bool {
    if m.2 == Some(SpecialMoveType::CastlingKingside) || m.2 == Some(
        SpecialMoveType::CastlingQueenside,
    ) {
        let lo: int = if m.0 <= m.1 {
            m.0 as int
        } else {
            m.1 as int
        };
        let hi: int = if m.0 <= m.1 {
            m.1 as int
        } else {
            m.0 as int
        };
        forall|t: int|
            lo <= t <= hi ==> !controls(
                v.content,
                v.castling_rights,
                v.ep_target,
                t,
                v.side.spec_other(),
            )
    } else {
        !kcp(change_content_spec(v.content, m, v.castling_rights), v.side.spec_other())
    }
}

/// The legal moves among the first `n` entries of the pseudolegal list `ps`.
pub open spec fn legal_upto(v: PosV, ps: Seq<Move>, n: int) -> Seq<Move>
    decreases n,
{
    if n <= 0 {
        Seq::empty()
    } else {
        legal_upto(v, ps, n - 1) + if is_legal_move(v, ps[n - 1]) {
            seq![ps[n - 1]]
        } else {
            Seq::empty()
        }
    }
}

/// The legal moves of a position: its pseudolegal moves that pass the
/// legality filter, in generation order.
pub open spec fn legal_moves(v: PosV) -> Seq<Move> {
    legal_upto(v, pseudolegal_moves(v), pseudolegal_moves(v).len() as int)
}

/// What every generated pseudolegal move looks like: source and destination
/// on the board, the source held by a piece of the side to move, castling
/// tags on king moves to the fixed castling squares with the right in hand,
/// the en-passant tag on a pawn move to an empty third- or sixth-rank
/// square, promotion tags exactly on the pawn moves to the farthest rank,
/// and a pawn advance of two squares only from the starting rank.
pub open spec fn move_sane(v: PosV, m: Move) -> bool {
    &&& m.0 < 64
    &&& m.1 < 64
    &&& friendly(v.content[m.0 as int], v.side)
    &&& m.2 != Some(SpecialMoveType::Unclear)
    &&& (m.2 == Some(SpecialMoveType::CastlingKingside) ==> v.content[m.0 as int] == Some(
        Piece(PieceType::K, v.side),
    ) && if v.side == Color::White {
        m.1 == 6 && v.castling_rights[0] is Some
    } else {
        m.1 == 62 && v.castling_rights[2] is Some
    })
    &&& (m.2 == Some(SpecialMoveType::CastlingQueenside) ==> v.content[m.0 as int] == Some(
        Piece(PieceType::K, v.side),
    ) && if v.side == Color::White {
        m.1 == 2 && v.castling_rights[1] is Some
    } else {
        m.1 == 58 && v.castling_rights[3] is Some
    })
    &&& (m.2 == Some(SpecialMoveType::EnPassant) ==> v.content[m.0 as int] == Some(
        Piece(PieceType::P, v.side),
    ) && (16 <= m.1 < 24 || 40 <= m.1 < 48) && v.ep_target == Some(m.1))
    &&& (m.2 matches Some(SpecialMoveType::Promotion(t)) ==> (t == PieceType::Q || t
        == PieceType::R || t == PieceType::B || t == PieceType::N) && v.content[m.0 as int] == Some(
        Piece(PieceType::P, v.side),
    ) && (m.1 < 8 || m.1 >= 56))
    &&& (v.content[m.0 as int] == Some(Piece(PieceType::P, v.side)) && (m.1 < 8 || m.1 >= 56)
        ==> m.2 matches Some(SpecialMoveType::Promotion(_)))
    &&& (v.content[m.0 as int] == Some(Piece(PieceType::P, v.side)) ==> (m.1 == m.0 + 16
        ==> v.side == Color::White && 8 <= m.0 < 16) && (m.0 == m.1 + 16 ==> v.side == Color::Black
        && 48 <= m.0 < 56))
}

/// Every move of the king's step-and-castle list is sane.
proof fn lemma_king_sane(v: PosV, i: int)
    requires
        v.base_wf(),
        0 <= i < 64,
        v.content[i] == Some(Piece(PieceType::K, v.side)),
    ensures
        forall|k: int|
            0 <= k < king_moves_spec(v, i).len() ==> move_sane(v, #[trigger] king_moves_spec(v, i)[k]),
{
    lemma_king_steps_sane(v, i, 8);
    let steps = king_steps_upto(v.content, v.side, i, 8);
    let ck = castle_kingside(v, i);
    let cq = castle_queenside(v, i);
    let all = king_moves_spec(v, i);
    assert forall|k: int| 0 <= k < all.len() implies move_sane(v, #[trigger] all[k]) by {
        if k < steps.len() {
            assert(all[k] == steps[k]);
        } else if k < steps.len() + ck.len() {
            assert(all[k] == ck[k - steps.len()]);
            assert(ck.len() == 1 && ck[0].2 == Some(SpecialMoveType::CastlingKingside));
        } else {
            assert(all[k] == cq[k - steps.len() - ck.len()]);
            assert(cq.len() == 1 && cq[0].2 == Some(SpecialMoveType::CastlingQueenside));
        }
    }
}

/// Every king step move is sane.
proof fn lemma_king_steps_sane(v: PosV, i: int, k: int)
    requires
        v.base_wf(),
        0 <= i < 64,
        v.content[i] == Some(Piece(PieceType::K, v.side)),
        k <= 8,
    ensures
        forall|j: int|
            0 <= j < king_steps_upto(v.content, v.side, i, k).len() ==> move_sane(
                v,
                #[trigger] king_steps_upto(v.content, v.side, i, k)[j],
            ),
    decreases k,
{
    if k > 0 {
        lemma_king_steps_sane(v, i, k - 1);
        let pre = king_steps_upto(v.content, v.side, i, k - 1);
        let cur = king_steps_upto(v.content, v.side, i, k);
        let d = king_dir(k - 1);
        assert forall|j: int| 0 <= j < cur.len() implies move_sane(v, #[trigger] cur[j]) by {
            if j < pre.len() {
                assert(cur[j] == pre[j]);
            } else {
                helpers::lemma_can_step_in_bounds(i, d);
                assert(cur[j] == Move(i as usize, (i + d) as usize, None));
            }
        }
    }
}

/// Every knight move is sane.
proof fn lemma_knight_sane(v: PosV, i: int, k: int)
    requires
        v.base_wf(),
        0 <= i < 64,
        v.content[i] == Some(Piece(PieceType::N, v.side)),
        k <= 8,
    ensures
        forall|j: int|
            0 <= j < knight_moves_upto(v.content, v.side, i, k).len() ==> move_sane(
                v,
                #[trigger] knight_moves_upto(v.content, v.side, i, k)[j],
            ),
    decreases k,
{
    if k > 0 {
        lemma_knight_sane(v, i, k - 1);
        let pre = knight_moves_upto(v.content, v.side, i, k - 1);
        let cur = knight_moves_upto(v.content, v.side, i, k);
        let b = knight_b(k - 1);
        let r = knight_r(k - 1);
        assert forall|j: int| 0 <= j < cur.len() implies move_sane(v, #[trigger] cur[j]) by {
            if j < pre.len() {
                assert(cur[j] == pre[j]);
            } else {
                helpers::lemma_can_step_in_bounds(i, b);
                helpers::lemma_can_step_in_bounds(i + b, r);
                assert(cur[j] == Move(i as usize, (i + b + r) as usize, None));
            }
        }
    }
}

/// Every move of a pawn expansion whose inputs obey the pawn rules is sane.
proof fn lemma_pawn_expand_sane(v: PosV, i: int, dest: int, ep: bool)
    requires
        v.base_wf(),
        0 <= i < 64,
        0 <= dest < 64,
        v.content[i] == Some(Piece(PieceType::P, v.side)),
        ep ==> v.ep_target == Some(dest as usize) && v.content[dest] is None,
        ep ==> !(dest < 8 || dest >= 56),
        i != dest,
        dest == i + 16 ==> v.side == Color::White && 8 <= i < 16,
        i == dest + 16 ==> v.side == Color::Black && 48 <= i < 56,
    ensures
        forall|j: int|
            0 <= j < pawn_expand(i, dest, ep).len() ==> move_sane(
                v,
                #[trigger] pawn_expand(i, dest, ep)[j],
            ),
{
}

/// Every pawn move is sane.
#[verifier::rlimit(60)]
proof fn lemma_pawn_sane(v: PosV, i: int)
    requires
        v.base_wf(),
        pawns_ok(v.content, v.side),
        0 <= i < 64,
        v.content[i] == Some(Piece(PieceType::P, v.side)),
    ensures
        forall|j: int|
            0 <= j < pawn_moves_spec(v.content, v.ep_target, v.side, i).len() ==> move_sane(
                v,
                #[trigger] pawn_moves_spec(v.content, v.ep_target, v.side, i)[j],
            ),
{
    assert(8 <= i < 56);
    let c = v.content;
    let ep = v.ep_target;
    let side = v.side;
    let all = pawn_moves_spec(c, ep, side, i);
    if side == Color::White {
        let fwd = if c[i + 8] is None {
            pawn_expand(i, i + 8, false)
        } else {
            Seq::empty()
        };
        let dbl = if c[i + 8] is None && 8 <= i < 16 && c[i + 16] is None {
            pawn_expand(i, i + 16, false)
        } else {
            Seq::empty()
        };
        let cap_a = if can_step(i, 7) {
            pawn_capture_at(c, ep, side, i, i + 7)
        } else {
            Seq::empty()
        };
        let cap_b = if can_step(i, 9) {
            pawn_capture_at(c, ep, side, i, i + 9)
        } else {
            Seq::empty()
        };
        if c[i + 8] is None {
            lemma_pawn_expand_sane(v, i, i + 8, false);
            if 8 <= i < 16 && c[i + 16] is None {
                lemma_pawn_expand_sane(v, i, i + 16, false);
            }
        }
        if can_step(i, 7) {
            helpers::lemma_can_step_in_bounds(i, 7);
            if c[i + 7] is None && ep == Some((i + 7) as usize) {
                lemma_pawn_expand_sane(v, i, i + 7, true);
            } else {
                lemma_pawn_expand_sane(v, i, i + 7, false);
            }
        }
        if can_step(i, 9) {
            helpers::lemma_can_step_in_bounds(i, 9);
            if c[i + 9] is None && ep == Some((i + 9) as usize) {
                lemma_pawn_expand_sane(v, i, i + 9, true);
            } else {
                lemma_pawn_expand_sane(v, i, i + 9, false);
            }
        }
        assert forall|j: int| 0 <= j < all.len() implies move_sane(v, #[trigger] all[j]) by {
            if j < fwd.len() {
                assert(all[j] == fwd[j]);
            } else if j < fwd.len() + dbl.len() {
                assert(all[j] == dbl[j - fwd.len()]);
            } else if j < fwd.len() + dbl.len() + cap_a.len() {
                assert(all[j] == cap_a[j - fwd.len() - dbl.len()]);
            } else {
                assert(all[j] == cap_b[j - fwd.len() - dbl.len() - cap_a.len()]);
            }
        }
    } else {
        let fwd = if c[i - 8] is None {
            pawn_expand(i, i - 8, false)
        } else {
            Seq::empty()
        };
        let dbl = if c[i - 8] is None && 48 <= i < 56 && c[i - 16] is None {
            pawn_expand(i, i - 16, false)
        } else {
            Seq::empty()
        };
        let cap_a = if can_step(i, -9) {
            pawn_capture_at(c, ep, side, i, i - 9)
        } else {
            Seq::empty()
        };
        let cap_b = if can_step(i, -7) {
            pawn_capture_at(c, ep, side, i, i - 7)
        } else {
            Seq::empty()
        };
        if c[i - 8] is None {
            lemma_pawn_expand_sane(v, i, i - 8, false);
            if 48 <= i < 56 && c[i - 16] is None {
                lemma_pawn_expand_sane(v, i, i - 16, false);
            }
        }
        if can_step(i, -9) {
            helpers::lemma_can_step_in_bounds(i, -9);
            if c[i - 9] is None && ep == Some((i - 9) as usize) {
                lemma_pawn_expand_sane(v, i, i - 9, true);
            } else {
                lemma_pawn_expand_sane(v, i, i - 9, false);
            }
        }
        if can_step(i, -7) {
            helpers::lemma_can_step_in_bounds(i, -7);
            if c[i - 7] is None && ep == Some((i - 7) as usize) {
                lemma_pawn_expand_sane(v, i, i - 7, true);
            } else {
                lemma_pawn_expand_sane(v, i, i - 7, false);
            }
        }
        assert forall|j: int| 0 <= j < all.len() implies move_sane(v, #[trigger] all[j]) by {
            if j < fwd.len() {
                assert(all[j] == fwd[j]);
            } else if j < fwd.len() + dbl.len() {
                assert(all[j] == dbl[j - fwd.len()]);
            } else if j < fwd.len() + dbl.len() + cap_a.len() {
                assert(all[j] == cap_a[j - fwd.len() - dbl.len()]);
            } else {
                assert(all[j] == cap_b[j - fwd.len() - dbl.len() - cap_a.len()]);
            }
        }
    }
}

/// Every move of a ray walk is a plain move from the origin to a board
/// square.
proof fn lemma_ray_sane(
    c: Seq<Option<Piece>>,
    side: Color,
    origin: int,
    sq: int,
    dir: int,
    fuel: nat,
)
    requires
        0 <= sq < 64,
        0 <= origin < 64,
        dir == 1 || dir == -1 || dir == 8 || dir == -8 || dir == 7 || dir == -7 || dir == 9 || dir
            == -9,
    ensures
        forall|j: int|
            0 <= j < ray_moves(c, side, origin, sq, dir, fuel).len() ==> (#[trigger] ray_moves(
                c,
                side,
                origin,
                sq,
                dir,
                fuel,
            )[j]).0 == origin && 0 <= ray_moves(c, side, origin, sq, dir, fuel)[j].1 < 64
                && ray_moves(c, side, origin, sq, dir, fuel)[j].2 is None,
    decreases fuel,
{
    if fuel > 0 && can_step(sq, dir) {
        helpers::lemma_can_step_in_bounds(sq, dir);
        let nxt = sq + dir;
        if c[nxt] is None {
            lemma_ray_sane(c, side, origin, nxt, dir, (fuel - 1) as nat);
            let cur = ray_moves(c, side, origin, sq, dir, fuel);
            let rest = ray_moves(c, side, origin, nxt, dir, (fuel - 1) as nat);
            assert forall|j: int|
                0 <= j < cur.len() implies (#[trigger] cur[j]).0 == origin && 0 <= cur[j].1 < 64
                && cur[j].2 is None by {
                if j == 0 {
                    assert(cur[0] == Move(origin as usize, nxt as usize, None));
                } else {
                    assert(cur[j] == rest[j - 1]);
                }
            }
        }
    }
}

/// Every long-range piece move is sane.
proof fn lemma_slider_sane(v: PosV, i: int, t: PieceType, k: int)
    requires
        v.base_wf(),
        0 <= i < 64,
        friendly(v.content[i], v.side),
        (v.content[i]->0).0 != PieceType::P,
        k <= slider_axes_len(t),
    ensures
        forall|j: int|
            0 <= j < slider_moves_upto(v.content, v.side, i, t, k).len() ==> move_sane(
                v,
                #[trigger] slider_moves_upto(v.content, v.side, i, t, k)[j],
            ),
    decreases k,
{
    if k > 0 {
        lemma_slider_sane(v, i, t, k - 1);
        let pre = slider_moves_upto(v.content, v.side, i, t, k - 1);
        let cur = slider_moves_upto(v.content, v.side, i, t, k);
        let a = slider_axis(t, k - 1);
        let neg = ray_moves(v.content, v.side, i, i, -a, 8);
        let pos = ray_moves(v.content, v.side, i, i, a, 8);
        lemma_ray_sane(v.content, v.side, i, i, -a, 8);
        lemma_ray_sane(v.content, v.side, i, i, a, 8);
        assert forall|j: int| 0 <= j < cur.len() implies move_sane(v, #[trigger] cur[j]) by {
            if j < pre.len() {
                assert(cur[j] == pre[j]);
            } else if j < pre.len() + neg.len() {
                assert(cur[j] == neg[j - pre.len()]);
            } else {
                assert(cur[j] == pos[j - pre.len() - neg.len()]);
            }
        }
    }
}

/// Every move generated for one square is sane.
proof fn lemma_square_moves_sane(v: PosV, i: int)
    requires
        v.base_wf(),
        pawns_ok(v.content, v.side),
        0 <= i < 64,
    ensures
        forall|k: int|
            0 <= k < square_moves(v, i).len() ==> move_sane(v, #[trigger] square_moves(v, i)[k]),
{
    match v.content[i] {
        Some(p) => {
            if p.1 == v.side {
                match p.0 {
                    PieceType::K => lemma_king_sane(v, i),
                    PieceType::N => lemma_knight_sane(v, i, 8),
                    PieceType::P => lemma_pawn_sane(v, i),
                    t => lemma_slider_sane(v, i, t, slider_axes_len(t)),
                }
            }
        },
        None => {},
    }
}

/// Every pseudolegal move of the first `n` squares is sane.
proof fn lemma_squares_upto_sane(v: PosV, n: int)
    requires
        v.base_wf(),
        pawns_ok(v.content, v.side),
        n <= 64,
    ensures
        forall|k: int|
            0 <= k < squares_moves_upto(v, n).len() ==> move_sane(
                v,
                #[trigger] squares_moves_upto(v, n)[k],
            ),
    decreases n,
{
    if n > 0 {
        lemma_squares_upto_sane(v, n - 1);
        lemma_square_moves_sane(v, n - 1);
        let pre = squares_moves_upto(v, n - 1);
        let cur = squares_moves_upto(v, n);
        let sqm = square_moves(v, n - 1);
        assert forall|k: int| 0 <= k < cur.len() implies move_sane(v, #[trigger] cur[k]) by {
            if k < pre.len() {
                assert(cur[k] == pre[k]);
            } else {
                assert(cur[k] == sqm[k - pre.len()]);
            }
        }
    }
}

/// Every pseudolegal move of a position is sane.
pub proof fn lemma_pseudolegal_sane(v: PosV)
    requires
        v.base_wf(),
        pawns_ok(v.content, v.side),
    ensures
        forall|k: int|
            0 <= k < pseudolegal_moves(v).len() ==> move_sane(v, #[trigger] pseudolegal_moves(v)[k]),
{
    lemma_squares_upto_sane(v, 64);
}

/// A sane move meets the content-change precondition.
pub proof fn lemma_sane_change_pre(v: PosV, m: Move)
    requires
        v.base_wf(),
        move_sane(v, m),
    ensures
        change_content_pre(v.content, m, v.castling_rights),
{
}

/// Applying a sane move keeps the board 64 squares and keeps pawns off the
/// first and last ranks: a pawn reaching the farthest rank promotes, an
/// en-passant capture happens in mid-board, and a castling move relocates a
/// rook or the king, never a pawn.
pub proof fn lemma_change_wf(v: PosV, m: Move)
    requires
        v.wf(),
        move_sane(v, m),
    ensures
        change_content_spec(v.content, m, v.castling_rights).len() == 64,
        pawns_ok(change_content_spec(v.content, m, v.castling_rights), Color::White),
        pawns_ok(change_content_spec(v.content, m, v.castling_rights), Color::Black),
{
    let src = m.0 as int;
    let dest = m.1 as int;
    let c = v.content;
    let base = c.update(src, None).update(dest, c[src]);
    let c2 = change_content_spec(c, m, v.castling_rights);
    assert forall|j: int|
        0 <= j < 64 && (j < 8 || j >= 56) implies c2[j] != Some(Piece(PieceType::P, Color::White))
        && c2[j] != Some(Piece(PieceType::P, Color::Black)) by {
        match m.2 {
            Some(SpecialMoveType::CastlingKingside) | Some(SpecialMoveType::CastlingQueenside) => {
                let (kr, tgt): (int, int) = if dest == 6 {
                    (v.castling_rights[0]->0 as int, 5int)
                } else if dest == 2 {
                    (v.castling_rights[1]->0 as int, 3int)
                } else if dest == 62 {
                    (v.castling_rights[2]->0 as int, 61int)
                } else {
                    (v.castling_rights[3]->0 as int, 59int)
                };
                assert(c[kr] is Some && (c[kr]->0).0 == PieceType::R);
                assert(c2 == base.update(kr, None).update(tgt, base[kr]));
                if j == tgt {
                    assert(c2[j] == base[kr]);
                    assert(base[kr] == (if kr == dest {
                        c[src]
                    } else if kr == src {
                        Option::<Piece>::None
                    } else {
                        c[kr]
                    }));
                } else if j == kr {
                    assert(c2[j] is None);
                } else if j == dest {
                    assert(c2[j] == c[src]);
                } else if j == src {
                    assert(c2[j] is None);
                } else {
                    assert(c2[j] == c[j]);
                }
            },
            Some(SpecialMoveType::EnPassant) => {
                let cap: int = if 16 <= dest < 24 {
                    dest + 8
                } else {
                    dest - 8
                };
                assert(c2 == base.update(cap, None));
                if j == cap {
                    assert(c2[j] is None);
                } else if j == dest {
                    assert(c2[j] == c[src]);
                } else if j == src {
                    assert(c2[j] is None);
                } else {
                    assert(c2[j] == c[j]);
                }
            },
            Some(SpecialMoveType::Promotion(t)) => {
                assert(base[dest] == c[src]);
                assert(c[src] is Some);
                assert(c2 == base.update(dest, Some(Piece(t, (c[src]->0).1))));
                if j == dest {
                    assert(c2[j] == Some(Piece(t, (c[src]->0).1)));
                    assert(t != PieceType::P);
                } else if j == src {
                    assert(c2[j] is None);
                } else {
                    assert(c2[j] == c[j]);
                }
            },
            _ => {
                assert(c2 == base);
                if j == dest {
                    assert(c2[j] == c[src]);
                    if c[src] == Some(Piece(PieceType::P, v.side)) {
                        assert(m.2 matches Some(SpecialMoveType::Promotion(_)));
                        assert(false);
                    }
                } else if j == src {
                    assert(c2[j] is None);
                } else {
                    assert(c2[j] == c[j]);
                }
            },
        }
    }
}

impl Position {
    /// Generates the legal moves in the position, assuming the game is
    /// ongoing: the pseudolegal moves that leave the mover's own king safe,
    /// with castling additionally requiring the king's whole path to be
    /// uncontrolled by the opponent.
    pub fn gen_non_illegal_moves(&self) -> (r: Vec<Move>)
        requires
            self@.wf(),
        ensures
            r@ == legal_moves(self@),
    {
        let ps = self.gen_pseudolegal_moves();
        proof {
            lemma_pseudolegal_sane(self@);
        }
        let mut v: Vec<Move> = Vec::new();
        let mut idx: usize = 0;
        while idx < ps.len()
            invariant
                0 <= idx <= ps@.len(),
                self@.wf(),
                ps@ == pseudolegal_moves(self@),
                forall|k: int|
                    0 <= k < ps@.len() ==> move_sane(self@, #[trigger] pseudolegal_moves(self@)[k]),
                v@ == legal_upto(self@, ps@, idx as int),
            decreases ps@.len() - idx,
        {
            let m = ps[idx];
            proof {
                assert(move_sane(self@, pseudolegal_moves(self@)[idx as int]));
            }
            let is_castle = matches!(
                m.2,
                Some(SpecialMoveType::CastlingKingside) | Some(SpecialMoveType::CastlingQueenside)
            );
            let keep: bool;
            if is_castle {
                let lo = if m.0 <= m.1 {
                    m.0
                } else {
                    m.1
                };
                let hi = if m.0 <= m.1 {
                    m.1
                } else {
                    m.0
                };
                let mut safe = true;
                let mut sq = lo;
                while sq <= hi
                    invariant
                        lo <= sq <= hi + 1,
                        hi < 64,
                        self@.wf(),
                        safe == forall|t: int|
                            lo <= t < sq ==> !controls(
                                self@.content,
                                self@.castling_rights,
                                self@.ep_target,
                                t,
                                self@.side.spec_other(),
                            ),
                    decreases hi + 1 - sq,
                {
                    if self.controls_square(sq, self.side.other()) {
                        safe = false;
                    }
                    sq = sq + 1;
                }
                keep = safe;
            } else {
                proof {
                    lemma_sane_change_pre(self@, m);
                    lemma_change_wf(self@, m);
                }
                let new_content = helpers::change_content(&self.content, &m, &self.castling_rights);
                keep = !king_capture_pseudolegal(&new_content, self.side.other());
            }
            proof {
                assert(keep == is_legal_move(self@, ps@[idx as int]));
            }
            if keep {
                v.push(m);
            }
            proof {
                assert(v@ =~= legal_upto(self@, ps@, idx + 1));
            }
            idx = idx + 1;
        }
        proof {
            assert(v@ == legal_moves(self@));
        }
        v
    }
}

} // verus!
