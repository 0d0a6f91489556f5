//! Laws of the engine: general properties that hold of every position, each
//! proved from the contracts the rest of the library states.

use vstd::prelude::*;
use crate::{Color, Move, SpecialMoveType};
use crate::legal::{is_legal_move, kcp, legal_moves, move_sane};
use crate::position::PosV;
use crate::rules::{
    Material,
    insufficient_spec,
    is_check_spec,
    is_checkmate_spec,
    is_stalemate_spec,
    lemma_legal_moves_sane,
    make_move_spec,
};

verus! {

/// Checkmate is check with no legal move; stalemate is no legal move
/// without check; no position is both.
pub proof fn lemma_mate_stalemate(v: PosV)
    ensures
        is_checkmate_spec(v) ==> legal_moves(v).len() == 0 && is_check_spec(v),
        is_stalemate_spec(v) ==> legal_moves(v).len() == 0 && !is_check_spec(v),
        !(is_checkmate_spec(v) && is_stalemate_spec(v)),
{
}

/// After any legal non-castling move, the pseudolegal moves of the
/// resulting position include no king capture against the side that just
/// moved: the legality filter is exactly the demand that the mover's own
/// king not be left capturable. (A castling move of a position with a
/// non-standard rook placement can evade this: its path test looks at the
/// pre-move board, where the castling rook may still shield its king.)
pub proof fn lemma_legality_invariant(v: PosV, m: Move)
    requires
        v.wf(),
        legal_moves(v).contains(m),
        m.2 != Some(SpecialMoveType::CastlingKingside),
        m.2 != Some(SpecialMoveType::CastlingQueenside),
    ensures
        !kcp(make_move_spec(v, m).content, make_move_spec(v, m).side),
{
    lemma_legal_moves_sane(v);
    let j = choose|j: int| 0 <= j < legal_moves(v).len() && legal_moves(v)[j] == m;
    assert(is_legal_move(v, legal_moves(v)[j]));
}

/// A lone knight beside the kings is insufficient material.
pub proof fn lemma_insufficient_lone_knight(m: Seq<Material>)
    requires
        m == seq![Material::Knight],
    ensures
        insufficient_spec(m),
{
}

/// Bishops all on one color complex (and nothing else beside the kings) are
/// insufficient material.
pub proof fn lemma_insufficient_same_complex_bishops(m: Seq<Material>, complex: bool)
    requires
        m.len() >= 1,
        forall|i: int| 0 <= i < m.len() ==> m[i] == Material::Bishop(complex),
    ensures
        insufficient_spec(m),
{
    assert(m[0] == Material::Bishop(complex));
}

/// Bishops on opposite color complexes are sufficient material.
pub proof fn lemma_sufficient_opposite_bishops(m: Seq<Material>, i: int, j: int)
    requires
        0 <= i < m.len(),
        0 <= j < m.len(),
        m[i] == Material::Bishop(true),
        m[j] == Material::Bishop(false),
    ensures
        !insufficient_spec(m),
{
    if m.len() == 1 {
        assert(m[i] == m[j]);
    }
}

/// Any queen, rook or pawn on the board is sufficient material.
pub proof fn lemma_sufficient_heavy_material(m: Seq<Material>, i: int)
    requires
        0 <= i < m.len(),
        m[i] == Material::Other,
    ensures
        !insufficient_spec(m),
{
    if m.len() == 1 {
        assert(m[0] == Material::Other);
    }
}

/// Every legal move is pseudolegal for the side to move and passes the
/// legality filter.
pub proof fn lemma_legal_moves_are_filtered(v: PosV, m: Move)
    requires
        v.wf(),
        legal_moves(v).contains(m),
    ensures
        move_sane(v, m),
        is_legal_move(v, m),
{
    lemma_legal_moves_sane(v);
    let j = choose|j: int| 0 <= j < legal_moves(v).len() && legal_moves(v)[j] == m;
    assert(move_sane(v, legal_moves(v)[j]) && is_legal_move(v, legal_moves(v)[j]));
}

} // verus!
