//! Pseudolegal move generation.
//!
//! A pseudolegal move obeys the movement rules of its piece but may leave
//! the mover's own king capturable; the legality filter sits on top of this
//! module. The specification functions here are the move-generation rules;
//! each executable function returns exactly the sequence its specification
//! describes, in a fixed generation order (squares a1..h8; for each piece,
//! its directions in a fixed order).

use vstd::prelude::*;
use crate::{Color, Move, Piece, PieceType, SpecialMoveType};
use crate::helpers;
use crate::helpers::{can_step, count_occupied_in, occupied_squares_in};
use crate::position::{PosV, Position, pawns_ok};

verus! {

/// Whether the occupant is a piece of color `side`.
pub open spec fn friendly(o: Option<Piece>, side: Color) -> bool {
    match o {
        Some(p) => p.1 == side,
        None => false,
    }
}

/// The king's eight step directions, in generation order.
pub open spec fn king_dir(k: int) -> int {
    if k == 0 {
        1
    } else if k == 1 {
        -1
    } else if k == 2 {
        8
    } else if k == 3 {
        -8
    } else if k == 4 {
        7
    } else if k == 5 {
        -7
    } else if k == 6 {
        9
    } else {
        -9
    }
}

/// The king step moves from square `i` along the first `k` of its eight
/// directions: one step each, on the board, not onto a friendly piece.
pub open spec fn king_steps_upto(c: Seq<Option<Piece>>, side: Color, i: int, k: int) -> Seq<Move>
    decreases k,
{
    if k <= 0 {
        Seq::empty()
    } else {
        king_steps_upto(c, side, i, k - 1) + {
            let d = king_dir(k - 1);
            if can_step(i, d) && !friendly(c[i + d], side) {
                seq![Move(i as usize, (i + d) as usize, None)]
            } else {
                Seq::empty()
            }
        }
    }
}

/// The kingside castling candidate for the king on square `i`: emitted when
/// the side holds the kingside right and the squares strictly between the
/// king and the kingside target square are empty except for at most the
/// named rook itself. King safety along the path is deferred to the
/// legality filter.
pub open spec fn castle_kingside(v: PosV, i: int) -> Seq<Move> {
    let off: int = if v.side == Color::White {
        0
    } else {
        2
    };
    let oo: int = if v.side == Color::White {
        6
    } else {
        62
    };
    match v.castling_rights[off] {
        Some(r) => {
            let cnt = count_occupied_in(v.content, i + 1, oo + 1);
            if cnt == 0 {
                seq![Move(i as usize, oo as usize, Some(SpecialMoveType::CastlingKingside))]
            } else if cnt == 1 && occupied_squares_in(v.content, i + 1, oo + 1)[0] == r {
                seq![Move(i as usize, oo as usize, Some(SpecialMoveType::CastlingKingside))]
            } else {
                Seq::empty()
            }
        },
        None => Seq::empty(),
    }
}

/// The queenside castling candidate for the king on square `i`, as for
/// `castle_kingside` with the queenside right and target square.
pub open spec fn castle_queenside(v: PosV, i: int) -> Seq<Move> {
    let off: int = if v.side == Color::White {
        1
    } else {
        3
    };
    let ooo: int = if v.side == Color::White {
        2
    } else {
        58
    };
    match v.castling_rights[off] {
        Some(r) => {
            let cnt = count_occupied_in(v.content, ooo, i);
            if cnt == 0 {
                seq![Move(i as usize, ooo as usize, Some(SpecialMoveType::CastlingQueenside))]
            } else if cnt == 1 && occupied_squares_in(v.content, ooo, i)[0] == r {
                seq![Move(i as usize, ooo as usize, Some(SpecialMoveType::CastlingQueenside))]
            } else {
                Seq::empty()
            }
        },
        None => Seq::empty(),
    }
}

/// All pseudolegal moves of a king on square `i`: the step moves, then the
/// kingside castling candidate, then the queenside one.
pub open spec fn king_moves_spec(v: PosV, i: int) -> Seq<Move> {
    king_steps_upto(v.content, v.side, i, 8) + castle_kingside(v, i) + castle_queenside(v, i)
}

impl Position {
    /// Generates the pseudolegal moves of a king on square `i`.
    pub(crate) fn king_moves(&self, i: usize) -> (r: Vec<Move>)
        requires
            self@.base_wf(),
            i < 64,
        ensures
            r@ == king_moves_spec(self@, i as int),
    {
        let mut v: Vec<Move> = Vec::new();
        let mut k: usize = 0;
        while k < 8
            invariant
                0 <= k <= 8,
                self@.base_wf(),
                i < 64,
                v@ == king_steps_upto(self@.content, self@.side, i as int, k as int),
            decreases 8 - k,
        {
            let dir: isize = match k {
                0 => 1,
                1 => -1,
                2 => 8,
                3 => -8,
                4 => 7,
                5 => -7,
                6 => 9,
                _ => -9,
            };
            proof {
                assert(dir as int == king_dir(k as int));
            }
            if helpers::long_range_can_move(i, dir) {
                proof {
                    helpers::lemma_can_step_in_bounds(i as int, dir as int);
                }
                let dest = ((i as isize) + dir) as usize;
                let ok = match self.content[dest] {
                    Some(p) => p.1 != self.side,
                    None => true,
                };
                if ok {
                    v.push(Move(i, dest, None));
                }
            }
            proof {
                assert(v@ =~= king_steps_upto(self@.content, self@.side, i as int, k + 1));
            }
            k = k + 1;
        }
        let off: usize = if self.side.is_white() {
            0
        } else {
            2
        };
        let oo_sq: usize = if self.side.is_white() {
            6
        } else {
            62
        };
        let ooo_sq: usize = if self.side.is_white() {
            2
        } else {
            58
        };
        match self.castling_rights[off] {
            Some(r) => {
                proof {
                    helpers::lemma_count_occupied_le(self@.content, i + 1, oo_sq + 1);
                }
                let cnt = helpers::count_pieces(i + 1, oo_sq + 1, &self.content);
                if cnt == 0 {
                    v.push(Move(i, oo_sq, Some(SpecialMoveType::CastlingKingside)));
                } else if cnt == 1 {
                    let occ = helpers::find_all_pieces(i + 1, oo_sq + 1, &self.content);
                    proof {
                        helpers::lemma_occupied_squares_count(self@.content, i + 1, oo_sq + 1);
                    }
                    if occ[0] == r {
                        v.push(Move(i, oo_sq, Some(SpecialMoveType::CastlingKingside)));
                    }
                }
            },
            None => {},
        }
        proof {
            assert(v@ =~= king_steps_upto(self@.content, self@.side, i as int, 8) + castle_kingside(
                self@,
                i as int,
            ));
        }
        match self.castling_rights[off + 1] {
            Some(r) => {
                proof {
                    helpers::lemma_count_occupied_le(self@.content, ooo_sq as int, i as int);
                }
                let cnt = helpers::count_pieces(ooo_sq, i, &self.content);
                if cnt == 0 {
                    v.push(Move(i, ooo_sq, Some(SpecialMoveType::CastlingQueenside)));
                } else if cnt == 1 {
                    let occ = helpers::find_all_pieces(ooo_sq, i, &self.content);
                    proof {
                        helpers::lemma_occupied_squares_count(self@.content, ooo_sq as int, i as int);
                    }
                    if occ[0] == r {
                        v.push(Move(i, ooo_sq, Some(SpecialMoveType::CastlingQueenside)));
                    }
                }
            },
            None => {},
        }
        proof {
            assert(v@ =~= king_moves_spec(self@, i as int));
        }
        v
    }
}

/// The first leg of the knight's eight composite steps, in generation order.
pub open spec fn knight_b(k: int) -> int {
    if k == 0 || k == 1 {
        7
    } else if k == 2 || k == 3 {
        9
    } else if k == 4 || k == 5 {
        -7
    } else {
        -9
    }
}

/// The second leg of the knight's eight composite steps, in generation order.
pub open spec fn knight_r(k: int) -> int {
    if k == 0 {
        -1
    } else if k == 1 {
        8
    } else if k == 2 {
        8
    } else if k == 3 {
        1
    } else if k == 4 {
        1
    } else if k == 5 {
        -8
    } else if k == 6 {
        -8
    } else {
        -1
    }
}

/// The knight moves from square `i` along the first `k` of its eight
/// composite steps: a diagonal step followed by an orthogonal step, each leg
/// independently kept on the board, not onto a friendly piece.
pub open spec fn knight_moves_upto(c: Seq<Option<Piece>>, side: Color, i: int, k: int) -> Seq<Move>
    decreases k,
{
    if k <= 0 {
        Seq::empty()
    } else {
        knight_moves_upto(c, side, i, k - 1) + {
            let b = knight_b(k - 1);
            let r = knight_r(k - 1);
            if can_step(i, b) && can_step(i + b, r) && !friendly(c[i + b + r], side) {
                seq![Move(i as usize, (i + b + r) as usize, None)]
            } else {
                Seq::empty()
            }
        }
    }
}

impl Position {
    /// Generates the pseudolegal moves of a knight on square `i`.
    pub(crate) fn knight_moves(&self, i: usize) -> (r: Vec<Move>)
        requires
            self@.base_wf(),
            i < 64,
        ensures
            r@ == knight_moves_upto(self@.content, self@.side, i as int, 8),
    {
        let mut v: Vec<Move> = Vec::new();
        let mut k: usize = 0;
        while k < 8
            invariant
                0 <= k <= 8,
                self@.base_wf(),
                i < 64,
                v@ == knight_moves_upto(self@.content, self@.side, i as int, k as int),
            decreases 8 - k,
        {
            let b: isize = match k {
                0 | 1 => 7,
                2 | 3 => 9,
                4 | 5 => -7,
                _ => -9,
            };
            let r_axis: isize = match k {
                0 => -1,
                1 => 8,
                2 => 8,
                3 => 1,
                4 => 1,
                5 => -8,
                6 => -8,
                _ => -1,
            };
            proof {
                assert(b as int == knight_b(k as int) && r_axis as int == knight_r(k as int));
            }
            if helpers::long_range_can_move(i, b) {
                proof {
                    helpers::lemma_can_step_in_bounds(i as int, b as int);
                }
                let b_dest = ((i as isize) + b) as usize;
                if helpers::long_range_can_move(b_dest, r_axis) {
                    proof {
                        helpers::lemma_can_step_in_bounds(b_dest as int, r_axis as int);
                    }
                    let dest = ((b_dest as isize) + r_axis) as usize;
                    let ok = match self.content[dest] {
                        Some(p) => p.1 != self.side,
                        None => true,
                    };
                    if ok {
                        v.push(Move(i, dest, None));
                    }
                }
            }
            proof {
                assert(v@ =~= knight_moves_upto(self@.content, self@.side, i as int, k + 1));
            }
            k = k + 1;
        }
        v
    }
}

/// The moves a pawn move from `i` to `dest` expands to: a destination on the
/// farthest rank yields the four promotion moves (Q, R, B, N); any other
/// destination yields one move, tagged en passant when `ep` holds.
pub open spec fn pawn_expand(i: int, dest: int, ep: bool) -> Seq<Move> {
    if dest < 8 || dest >= 56 {
        seq![
            Move(i as usize, dest as usize, Some(SpecialMoveType::Promotion(PieceType::Q))),
            Move(i as usize, dest as usize, Some(SpecialMoveType::Promotion(PieceType::R))),
            Move(i as usize, dest as usize, Some(SpecialMoveType::Promotion(PieceType::B))),
            Move(i as usize, dest as usize, Some(SpecialMoveType::Promotion(PieceType::N))),
        ]
    } else {
        seq![
            Move(
                i as usize,
                dest as usize,
                if ep {
                    Some(SpecialMoveType::EnPassant)
                } else {
                    None
                },
            ),
        ]
    }
}

/// A pawn's diagonal move from `i` to `d`: a capture when an enemy piece
/// stands there, an en-passant capture when `d` is the en-passant target.
pub open spec fn pawn_capture_at(
    c: Seq<Option<Piece>>,
    ep: Option<usize>,
    side: Color,
    i: int,
    d: int,
) -> Seq<Move> {
    match c[d] {
        Some(p) => if p.1 != side {
            pawn_expand(i, d, false)
        } else {
            Seq::empty()
        },
        None => if ep == Some(d as usize) {
            pawn_expand(i, d, true)
        } else {
            Seq::empty()
        },
    }
}

/// All pseudolegal moves of a pawn on square `i`: one square forward onto an
/// empty square; two squares forward from the starting rank when both are
/// empty; then the two diagonal captures, each kept on the board.
pub open spec fn pawn_moves_spec(
    c: Seq<Option<Piece>>,
    ep: Option<usize>,
    side: Color,
    i: int,
) -> Seq<Move> {
    if side == Color::White {
        let fwd = if c[i + 8] is None {
            pawn_expand(i, i + 8, false)
        } else {
            Seq::empty()
        };
        let dbl = if c[i + 8] is None && 8 <= i < 16 && c[i + 16] is None {
            pawn_expand(i, i + 16, false)
        } else {
            Seq::empty()
        };
        let cap_a = if can_step(i, 7) {
            pawn_capture_at(c, ep, side, i, i + 7)
        } else {
            Seq::empty()
        };
        let cap_b = if can_step(i, 9) {
            pawn_capture_at(c, ep, side, i, i + 9)
        } else {
            Seq::empty()
        };
        fwd + dbl + cap_a + cap_b
    } else {
        let fwd = if c[i - 8] is None {
            pawn_expand(i, i - 8, false)
        } else {
            Seq::empty()
        };
        let dbl = if c[i - 8] is None && 48 <= i < 56 && c[i - 16] is None {
            pawn_expand(i, i - 16, false)
        } else {
            Seq::empty()
        };
        let cap_a = if can_step(i, -9) {
            pawn_capture_at(c, ep, side, i, i - 9)
        } else {
            Seq::empty()
        };
        let cap_b = if can_step(i, -7) {
            pawn_capture_at(c, ep, side, i, i - 7)
        } else {
            Seq::empty()
        };
        fwd + dbl + cap_a + cap_b
    }
}

/// Appends to `v` the expansion of a pawn move from `i` to `dest`.
fn push_pawn_dest(v: &mut Vec<Move>, i: usize, dest: usize, ep: bool)
    ensures
        final(v)@ == old(v)@ + pawn_expand(i as int, dest as int, ep),
{
    if dest < 8 || dest >= 56 {
        v.push(Move(i, dest, Some(SpecialMoveType::Promotion(PieceType::Q))));
        v.push(Move(i, dest, Some(SpecialMoveType::Promotion(PieceType::R))));
        v.push(Move(i, dest, Some(SpecialMoveType::Promotion(PieceType::B))));
        v.push(Move(i, dest, Some(SpecialMoveType::Promotion(PieceType::N))));
    } else {
        v.push(
            Move(
                i,
                dest,
                if ep {
                    Some(SpecialMoveType::EnPassant)
                } else {
                    None
                },
            ),
        );
    }
    proof {
        assert(v@ =~= old(v)@ + pawn_expand(i as int, dest as int, ep));
    }
}

/// Appends to `v` the diagonal pawn move from `i` to `d`, when there is one.
fn push_pawn_capture(
    v: &mut Vec<Move>,
    content: &Vec<Option<Piece>>,
    ep_target: Option<usize>,
    side: Color,
    i: usize,
    d: usize,
)
    requires
        content@.len() == 64,
        d < 64,
    ensures
        final(v)@ == old(v)@ + pawn_capture_at(content@, ep_target, side, i as int, d as int),
{
    match content[d] {
        Some(p) => {
            if p.1 != side {
                push_pawn_dest(v, i, d, false);
            } else {
                proof {
                    assert(v@ =~= old(v)@ + Seq::<Move>::empty());
                }
            }
        },
        None => {
            let is_ep = match ep_target {
                Some(t) => t == d,
                None => false,
            };
            if is_ep {
                push_pawn_dest(v, i, d, true);
            } else {
                proof {
                    assert(v@ =~= old(v)@ + Seq::<Move>::empty());
                }
            }
        },
    }
}

impl Position {
    /// Generates the pseudolegal moves of a pawn of the side to move on
    /// square `i`.
    pub(crate) fn pawn_moves(&self, i: usize) -> (r: Vec<Move>)
        requires
            self@.base_wf(),
            i < 64,
            self@.content[i as int] == Some(Piece(PieceType::P, self@.side)),
            pawns_ok(self@.content, self@.side),
        ensures
            r@ == pawn_moves_spec(self@.content, self@.ep_target, self@.side, i as int),
    {
        proof {
            assert(8 <= i < 56);
        }
        let mut v: Vec<Move> = Vec::new();
        let ghost c = self@.content;
        let ghost ep = self@.ep_target;
        let ghost side = self@.side;
        if self.side.is_white() {
            let ghost fwd: Seq<Move> = if c[i + 8] is None {
                pawn_expand(i as int, i + 8, false)
            } else {
                Seq::empty()
            };
            let ghost dbl: Seq<Move> = if c[i + 8] is None && 8 <= i < 16 && c[i + 16] is None {
                pawn_expand(i as int, i + 16, false)
            } else {
                Seq::empty()
            };
            if self.content[i + 8].is_none() {
                push_pawn_dest(&mut v, i, i + 8, false);
                if i >= 8 && i < 16 && self.content[i + 16].is_none() {
                    push_pawn_dest(&mut v, i, i + 16, false);
                }
            }
            proof {
                assert(v@ =~= fwd + dbl);
            }
            if helpers::long_range_can_move(i, 7) {
                proof {
                    helpers::lemma_can_step_in_bounds(i as int, 7);
                }
                push_pawn_capture(&mut v, &self.content, self.ep_target, self.side, i, i + 7);
            }
            proof {
                assert(v@ =~= fwd + dbl + if can_step(i as int, 7) {
                    pawn_capture_at(c, ep, side, i as int, i + 7)
                } else {
                    Seq::empty()
                });
            }
            if helpers::long_range_can_move(i, 9) {
                proof {
                    helpers::lemma_can_step_in_bounds(i as int, 9);
                }
                push_pawn_capture(&mut v, &self.content, self.ep_target, self.side, i, i + 9);
            }
            proof {
                assert(v@ =~= pawn_moves_spec(c, ep, side, i as int));
            }
        } else {
            let ghost fwd: Seq<Move> = if c[i - 8] is None {
                pawn_expand(i as int, i - 8, false)
            } else {
                Seq::empty()
            };
            let ghost dbl: Seq<Move> = if c[i - 8] is None && 48 <= i < 56 && c[i - 16] is None {
                pawn_expand(i as int, i - 16, false)
            } else {
                Seq::empty()
            };
            if self.content[i - 8].is_none() {
                push_pawn_dest(&mut v, i, i - 8, false);
                if i >= 48 && i < 56 && self.content[i - 16].is_none() {
                    push_pawn_dest(&mut v, i, i - 16, false);
                }
            }
            proof {
                assert(v@ =~= fwd + dbl);
            }
            if helpers::long_range_can_move(i, -9) {
                proof {
                    helpers::lemma_can_step_in_bounds(i as int, -9);
                }
                push_pawn_capture(&mut v, &self.content, self.ep_target, self.side, i, i - 9);
            }
            proof {
                assert(v@ =~= fwd + dbl + if can_step(i as int, -9) {
                    pawn_capture_at(c, ep, side, i as int, i - 9)
                } else {
                    Seq::empty()
                });
            }
            if helpers::long_range_can_move(i, -7) {
                proof {
                    helpers::lemma_can_step_in_bounds(i as int, -7);
                }
                push_pawn_capture(&mut v, &self.content, self.ep_target, self.side, i, i - 7);
            }
            proof {
                assert(v@ =~= pawn_moves_spec(c, ep, side, i as int));
            }
        }
        v
    }
}

/// The moves found walking outward from `sq` along direction `dir`: the walk
/// stops at the board edge, after a square holding an enemy piece (a
/// capture), and before a square holding a friendly piece. `origin` is the
/// moving piece's square; `fuel` bounds the walk (seven steps span a board).
pub open spec fn ray_moves(
    c: Seq<Option<Piece>>,
    side: Color,
    origin: int,
    sq: int,
    dir: int,
    fuel: nat,
) -> Seq<Move>
    decreases fuel,
{
    if fuel == 0 || !can_step(sq, dir) {
        Seq::empty()
    } else {
        let nxt = sq + dir;
        match c[nxt] {
            Some(p) => if p.1 == side {
                Seq::empty()
            } else {
                seq![Move(origin as usize, nxt as usize, None)]
            },
            None => seq![Move(origin as usize, nxt as usize, None)] + ray_moves(
                c,
                side,
                origin,
                nxt,
                dir,
                (fuel - 1) as nat,
            ),
        }
    }
}

/// Walks one ray, collecting the moves `ray_moves` describes.
fn ray_walk(
    content: &Vec<Option<Piece>>,
    side: Color,
    origin: usize,
    sq: usize,
    dir: isize,
    fuel: usize,
) -> (r: Vec<Move>)
    requires
        content@.len() == 64,
        sq < 64,
        dir == 1 || dir == -1 || dir == 8 || dir == -8 || dir == 7 || dir == -7 || dir == 9 || dir
            == -9,
    ensures
        r@ == ray_moves(content@, side, origin as int, sq as int, dir as int, fuel as nat),
    decreases fuel,
{
    let mut v: Vec<Move> = Vec::new();
    if fuel == 0 {
        return v;
    }
    if !helpers::long_range_can_move(sq, dir) {
        return v;
    }
    proof {
        helpers::lemma_can_step_in_bounds(sq as int, dir as int);
    }
    let nxt = ((sq as isize) + dir) as usize;
    match content[nxt] {
        Some(p) => {
            if p.1 == side {
                v
            } else {
                v.push(Move(origin, nxt, None));
                v
            }
        },
        None => {
            v.push(Move(origin, nxt, None));
            let mut rest = ray_walk(content, side, origin, nxt, dir, fuel - 1);
            v.append(&mut rest);
            proof {
                assert(v@ =~= ray_moves(
                    content@,
                    side,
                    origin as int,
                    sq as int,
                    dir as int,
                    fuel as nat,
                ));
            }
            v
        },
    }
}

/// The axes of a long-range piece: both rank-and-file axes for a rook, both
/// diagonal axes for a bishop, all four for a queen; 0 axes otherwise.
pub open spec fn slider_axes_len(t: PieceType) -> int {
    match t {
        PieceType::Q => 4,
        PieceType::R => 2,
        PieceType::B => 2,
        _ => 0,
    }
}

/// The `k`-th axis of a long-range piece, in generation order.
pub open spec fn slider_axis(t: PieceType, k: int) -> int {
    match t {
        PieceType::Q => if k == 0 {
            1
        } else if k == 1 {
            8
        } else if k == 2 {
            7
        } else {
            9
        },
        PieceType::R => if k == 0 {
            1
        } else {
            8
        },
        _ => if k == 0 {
            7
        } else {
            9
        },
    }
}

/// The moves of a long-range piece of type `t` on square `i` along its first
/// `k` axes, each axis walked in its negative direction and then in its
/// positive one.
pub open spec fn slider_moves_upto(
    c: Seq<Option<Piece>>,
    side: Color,
    i: int,
    t: PieceType,
    k: int,
) -> Seq<Move>
    decreases k,
{
    if k <= 0 {
        Seq::empty()
    } else {
        slider_moves_upto(c, side, i, t, k - 1) + ray_moves(
            c,
            side,
            i,
            i,
            -slider_axis(t, k - 1),
            8,
        ) + ray_moves(c, side, i, i, slider_axis(t, k - 1), 8)
    }
}

/// All pseudolegal moves of a long-range piece of type `t` on square `i`.
pub open spec fn slider_moves_spec(c: Seq<Option<Piece>>, side: Color, i: int, t: PieceType) -> Seq<
    Move,
> {
    slider_moves_upto(c, side, i, t, slider_axes_len(t))
}

impl Position {
    /// Generates pseudolegal moves for a long-range piece (queen, rook or
    /// bishop) on square `sq`.
    pub(crate) fn gen_long_range_piece_pseudolegal_moves(&self, sq: usize, piece_type: PieceType) -> (r:
        Vec<Move>)
        requires
            self@.base_wf(),
            sq < 64,
            piece_type == PieceType::Q || piece_type == PieceType::R || piece_type == PieceType::B,
        ensures
            r@ == slider_moves_spec(self@.content, self@.side, sq as int, piece_type),
    {
        let naxes: usize = match piece_type {
            PieceType::Q => 4,
            _ => 2,
        };
        proof {
            assert(naxes == slider_axes_len(piece_type));
        }
        let mut v: Vec<Move> = Vec::new();
        let mut k: usize = 0;
        while k < naxes
            invariant
                0 <= k <= naxes,
                naxes == slider_axes_len(piece_type),
                self@.base_wf(),
                sq < 64,
                v@ == slider_moves_upto(self@.content, self@.side, sq as int, piece_type, k as int),
            decreases naxes - k,
        {
            let axis: isize = match piece_type {
                PieceType::Q => match k {
                    0 => 1,
                    1 => 8,
                    2 => 7,
                    _ => 9,
                },
                PieceType::R => if k == 0 {
                    1
                } else {
                    8
                },
                _ => if k == 0 {
                    7
                } else {
                    9
                },
            };
            proof {
                assert(axis as int == slider_axis(piece_type, k as int));
            }
            let mut neg = ray_walk(&self.content, self.side, sq, sq, -axis, 8);
            v.append(&mut neg);
            let mut pos = ray_walk(&self.content, self.side, sq, sq, axis, 8);
            v.append(&mut pos);
            proof {
                assert(v@ =~= slider_moves_upto(
                    self@.content,
                    self@.side,
                    sq as int,
                    piece_type,
                    k + 1,
                ));
            }
            k = k + 1;
        }
        v
    }
}

/// All pseudolegal moves of the piece on square `i`, when it belongs to the
/// side to move; no moves otherwise.
pub open spec fn square_moves(v: PosV, i: int) -> Seq<Move> {
    match v.content[i] {
        Some(p) => if p.1 != v.side {
            Seq::empty()
        } else {
            match p.0 {
                PieceType::K => king_moves_spec(v, i),
                PieceType::N => knight_moves_upto(v.content, v.side, i, 8),
                PieceType::P => pawn_moves_spec(v.content, v.ep_target, v.side, i),
                t => slider_moves_spec(v.content, v.side, i, t),
            }
        },
        None => Seq::empty(),
    }
}

/// The pseudolegal moves of the pieces on the first `n` squares, in board
/// order.
pub open spec fn squares_moves_upto(v: PosV, n: int) -> Seq<Move>
    decreases n,
{
    if n <= 0 {
        Seq::empty()
    } else {
        squares_moves_upto(v, n - 1) + square_moves(v, n - 1)
    }
}

/// All pseudolegal moves of the side to move, iterating the squares a1..h8.
pub open spec fn pseudolegal_moves(v: PosV) -> Seq<Move> {
    squares_moves_upto(v, 64)
}

impl Position {
    /// Generates the pseudolegal moves in the position: every move that obeys
    /// piece movement rules for the side to move, whether or not it would
    /// leave the mover's own king capturable.
    pub fn gen_pseudolegal_moves(&self) -> (r: Vec<Move>)
        requires
            self@.base_wf(),
            pawns_ok(self@.content, self@.side),
        ensures
            r@ == pseudolegal_moves(self@),
    {
        let mut v: Vec<Move> = Vec::new();
        let mut i: usize = 0;
        while i < 64
            invariant
                0 <= i <= 64,
                self@.base_wf(),
                pawns_ok(self@.content, self@.side),
                v@ == squares_moves_upto(self@, i as int),
            decreases 64 - i,
        {
            let mut sq_moves: Vec<Move> = match self.content[i] {
                Some(p) => {
                    if !(p.1 == self.side) {
                        Vec::new()
                    } else {
                        match p.0 {
                            PieceType::K => self.king_moves(i),
                            PieceType::N => self.knight_moves(i),
                            PieceType::P => self.pawn_moves(i),
                            t => self.gen_long_range_piece_pseudolegal_moves(i, t),
                        }
                    }
                },
                None => Vec::new(),
            };
            proof {
                assert(sq_moves@ == square_moves(self@, i as int));
            }
            v.append(&mut sq_moves);
            proof {
                assert(v@ =~= squares_moves_upto(self@, i + 1));
            }
            i = i + 1;
        }
        v
    }
}

} // verus!
