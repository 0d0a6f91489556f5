//! The `Position` type: one immutable board snapshot.

use vstd::prelude::*;
use crate::{Color, Piece, PieceType};
use crate::helpers;

verus! {

/// The structure for a chess position: piece placement, side to move,
/// castling rights and en-passant target. A position carries no clocks and
/// no history; `Board` layers those on top.
#[derive(Eq, PartialEq, Hash, Clone, Debug)]
pub struct Position {
    /// The board content; each square is represented by a number 0..64 where
    /// a1 is 0, h1 is 7, and h8 is 63.
    pub content: Vec<Option<Piece>>,
    /// The side to move.
    pub side: Color,
    /// The indices of rook locations representing castling rights for both
    /// sides in the format [K, Q, k, q].
    pub castling_rights: Vec<Option<usize>>,
    /// The index of the en passant target square, 0..64.
    pub ep_target: Option<usize>,
}

/// The mathematical value of a position.
#[verifier::ext_equal]
pub ghost struct PosV {
    pub content: Seq<Option<Piece>>,
    pub side: Color,
    pub castling_rights: Seq<Option<usize>>,
    pub ep_target: Option<usize>,
}

impl View for Position {
    type V = PosV;

    open spec fn view(&self) -> PosV {
        PosV {
            content: self.content@,
            side: self.side,
            castling_rights: self.castling_rights@,
            ep_target: self.ep_target,
        }
    }
}

/// Whether the board `content` has no pawn of color `color` on the first or
/// last rank. A pawn can never stand there: it would have promoted.
pub open spec fn pawns_ok(content: Seq<Option<Piece>>, color: Color) -> bool {
    forall|i: int|
        0 <= i < 64 && (i < 8 || i >= 56) ==> content[i] != Some(Piece(PieceType::P, color))
}

impl PosV {
    /// The structural part of position well-formedness: 64 squares, four
    /// castling-rights slots naming white squares on the first rank and
    /// black squares on the last, and an en-passant target on the third or
    /// sixth rank.
    pub open spec fn base_wf(self) -> bool {
        &&& self.content.len() == 64
        &&& self.castling_rights.len() == 4
        &&& (self.castling_rights[0] is Some ==> self.castling_rights[0]->0 < 8)
        &&& (self.castling_rights[1] is Some ==> self.castling_rights[1]->0 < 8)
        &&& (self.castling_rights[2] is Some ==> 56 <= self.castling_rights[2]->0 < 64)
        &&& (self.castling_rights[3] is Some ==> 56 <= self.castling_rights[3]->0 < 64)
        &&& (self.ep_target is Some ==> (16 <= self.ep_target->0 < 24 || 40 <= self.ep_target->0
            < 48))
    }

    /// Each castling right names a square that holds a rook of its color,
    /// and the two rights of one side name distinct squares.
    pub open spec fn rights_wf(self) -> bool {
        &&& (self.castling_rights[0] is Some ==> self.content[self.castling_rights[0]->0 as int]
            == Some(Piece(PieceType::R, Color::White)))
        &&& (self.castling_rights[1] is Some ==> self.content[self.castling_rights[1]->0 as int]
            == Some(Piece(PieceType::R, Color::White)))
        &&& (self.castling_rights[2] is Some ==> self.content[self.castling_rights[2]->0 as int]
            == Some(Piece(PieceType::R, Color::Black)))
        &&& (self.castling_rights[3] is Some ==> self.content[self.castling_rights[3]->0 as int]
            == Some(Piece(PieceType::R, Color::Black)))
        &&& (self.castling_rights[0] is Some && self.castling_rights[1] is Some
            ==> self.castling_rights[0] != self.castling_rights[1])
        &&& (self.castling_rights[2] is Some && self.castling_rights[3] is Some
            ==> self.castling_rights[2] != self.castling_rights[3])
    }

    /// Position well-formedness, established at construction from a snapshot
    /// and preserved by making legal moves.
    pub open spec fn wf(self) -> bool {
        &&& self.base_wf()
        &&& self.rights_wf()
        &&& pawns_ok(self.content, Color::White)
        &&& pawns_ok(self.content, Color::Black)
    }
}

impl Position {
    /// Position well-formedness, stated of the executable value.
    pub open spec fn wf(&self) -> bool {
        self@.wf()
    }

    /// Returns which side's turn it is to move.
    pub fn side_to_move(&self) -> (r: Color)
        ensures
            r == self@.side,
    {
        self.side
    }

    /// Copies the position.
    pub fn duplicate(&self) -> (r: Position)
        ensures
            r@ == self@,
    {
        let r = Position {
            content: helpers::copy_occupants(&self.content),
            side: self.side,
            castling_rights: copy_rights(&self.castling_rights),
            ep_target: self.ep_target,
        };
        proof {
            assert(r@ =~= self@);
        }
        r
    }
}

/// Copies a castling-rights vector.
pub(crate) fn copy_rights(rights: &Vec<Option<usize>>) -> (r: Vec<Option<usize>>)
    ensures
        r@ == rights@,
{
    let mut v: Vec<Option<usize>> = Vec::new();
    let mut i: usize = 0;
    while i < rights.len()
        invariant
            0 <= i <= rights@.len(),
            v@ == rights@.subrange(0, i as int),
        decreases rights@.len() - i,
    {
        v.push(rights[i]);
        proof {
            assert(v@ =~= rights@.subrange(0, i + 1));
        }
        i = i + 1;
    }
    proof {
        assert(rights@.subrange(0, rights@.len() as int) =~= rights@);
    }
    v
}

/// Checks whether two positions hold the same value: same placement, same
/// side to move, same castling rights, same en-passant target. Two
/// independently reached positions of equal value are the same position for
/// repetition counting and caching.
pub fn pos_eq(a: &Position, b: &Position) -> (r: bool)
    ensures
        r == (a@ == b@),
{
    if a.content.len() != b.content.len() {
        return false;
    }
    let mut i: usize = 0;
    while i < a.content.len()
        invariant
            0 <= i <= a.content@.len(),
            a.content@.len() == b.content@.len(),
            forall|k: int| 0 <= k < i ==> a.content@[k] == b.content@[k],
        decreases a.content@.len() - i,
    {
        if !helpers::occupant_eq(a.content[i], b.content[i]) {
            return false;
        }
        i = i + 1;
    }
    proof {
        assert(a.content@ =~= b.content@);
    }
    if !(a.side == b.side) {
        return false;
    }
    if a.castling_rights.len() != b.castling_rights.len() {
        return false;
    }
    let mut j: usize = 0;
    while j < a.castling_rights.len()
        invariant
            0 <= j <= a.castling_rights@.len(),
            a.castling_rights@.len() == b.castling_rights@.len(),
            forall|k: int| 0 <= k < j ==> a.castling_rights@[k] == b.castling_rights@[k],
        decreases a.castling_rights@.len() - j,
    {
        let same = match (a.castling_rights[j], b.castling_rights[j]) {
            (None, None) => true,
            (Some(x), Some(y)) => x == y,
            _ => false,
        };
        if !same {
            return false;
        }
        j = j + 1;
    }
    proof {
        assert(a.castling_rights@ =~= b.castling_rights@);
    }
    let ep_same = match (a.ep_target, b.ep_target) {
        (None, None) => true,
        (Some(x), Some(y)) => x == y,
        _ => false,
    };
    if !ep_same {
        return false;
    }
    proof {
        assert(a@ =~= b@);
    }
    true
}

} // verus!
