//! The `Board` type: a stateful game around a sequence of positions.
//!
//! A board tracks the current position, the halfmove clock and fullmove
//! number, the move and position history (for repetition counting), the
//! initial snapshot, and the administrative endings (resignation and draw
//! agreement). Every accepted move pushes the pre-move position onto the
//! history, replaces the current position, recomputes the clocks, and
//! re-evaluates termination.

use vstd::prelude::*;
use crate::{Color, DrawType, GameResult, Move, Piece, PieceType, WinType};
use crate::errors::{IllegalMoveError, InvalidSanMoveError};
use crate::fen::{Fen, FenV};
use crate::helpers;
use crate::helpers::as_legal_spec;
use crate::legal::{legal_moves};
use crate::rules::lemma_legal_moves_sane;
use crate::position::{PosV, Position, pos_eq};
use crate::rules::{
    insufficient_spec,
    is_check_spec,
    is_checkmate_spec,
    is_stalemate_spec,
    make_move_spec,
    material_of,
    checked_side_spec,
};

verus! {

/// The views of a list of positions.
pub open spec fn poss_views(ps: Seq<Position>) -> Seq<PosV>
    decreases ps.len(),
{
    if ps.len() == 0 {
        Seq::empty()
    } else {
        poss_views(ps.drop_last()).push(ps.last()@)
    }
}

/// The views of a position list index into the positions.
pub proof fn lemma_poss_views_index(ps: Seq<Position>)
    ensures
        poss_views(ps).len() == ps.len(),
        forall|i: int| 0 <= i < ps.len() ==> poss_views(ps)[i] == ps[i]@,
    decreases ps.len(),
{
    if ps.len() > 0 {
        lemma_poss_views_index(ps.drop_last());
    }
}

/// Appending one position appends its view.
pub proof fn lemma_poss_views_push(ps: Seq<Position>, p: Position)
    ensures
        poss_views(ps.push(p)) == poss_views(ps).push(p@),
{
    assert(ps.push(p).drop_last() =~= ps);
    assert(ps.push(p).last() == p);
}

/// How many of the first `n` history positions equal `p`.
pub open spec fn rep_upto(hist: Seq<PosV>, p: PosV, n: int) -> int
    decreases n,
{
    if n <= 0 {
        0
    } else {
        rep_upto(hist, p, n - 1) + if hist[n - 1] == p {
            1int
        } else {
            0int
        }
    }
}

/// How many history positions equal `p`.
pub open spec fn rep_count(hist: Seq<PosV>, p: PosV) -> int {
    rep_upto(hist, p, hist.len() as int)
}

/// A repetition count never exceeds the history's length.
pub proof fn lemma_rep_upto_le(hist: Seq<PosV>, p: PosV, n: int)
    ensures
        0 <= rep_upto(hist, p, n) <= if n >= 0 {
            n
        } else {
            0
        },
    decreases n,
{
    if n > 0 {
        lemma_rep_upto_le(hist, p, n - 1);
    }
}

/// The structure for a chessboard/game.
#[derive(PartialEq, Clone, Debug)]
pub struct Board {
    /// The position on the board.
    pub position: Position,
    /// The number of halfmoves since the last pawn push or capture.
    pub halfmove_clock: usize,
    /// The current fullmove number.
    pub fullmove_number: usize,
    /// Whether or not the game is still in progress.
    pub ongoing: bool,
    /// The list of positions that have occurred on the board.
    pub position_history: Vec<Position>,
    /// The list of moves that have occurred on the board.
    pub move_history: Vec<Move>,
    /// The FEN representing the initial game state.
    pub initial_fen: Fen,
    /// The side that has resigned (or lost by timeout).
    pub resigned_side: Option<Color>,
    /// Whether a draw has been made by agreement (or claimed).
    pub draw_agreed: bool,
}

/// The mathematical value of a board.
#[verifier::ext_equal]
pub ghost struct BoardV {
    pub position: PosV,
    pub halfmove_clock: usize,
    pub fullmove_number: usize,
    pub ongoing: bool,
    pub position_history: Seq<PosV>,
    pub move_history: Seq<Move>,
    pub initial_fen: FenV,
    pub resigned_side: Option<Color>,
    pub draw_agreed: bool,
}

impl View for Board {
    type V = BoardV;

    open spec fn view(&self) -> BoardV {
        BoardV {
            position: self.position@,
            halfmove_clock: self.halfmove_clock,
            fullmove_number: self.fullmove_number,
            ongoing: self.ongoing,
            position_history: poss_views(self.position_history@),
            move_history: self.move_history@,
            initial_fen: self.initial_fen@,
            resigned_side: self.resigned_side,
            draw_agreed: self.draw_agreed,
        }
    }
}

/// Whether one of the five automatic termination rules ends the game:
/// fivefold repetition, the 75-move rule, stalemate, insufficient material
/// or checkmate.
pub open spec fn auto_end(hist: Seq<PosV>, pos: PosV, clock: usize) -> bool {
    ||| rep_count(hist, pos) == 5
    ||| clock == 150
    ||| is_stalemate_spec(pos)
    ||| insufficient_spec(material_of(pos))
    ||| is_checkmate_spec(pos)
}

impl BoardV {
    /// Board well-formedness: a well-formed current position and history,
    /// a clock within the 75-move bound (and strictly within it while the
    /// game goes on), and a game over only for one of the recorded reasons.
    pub open spec fn wf(self) -> bool {
        &&& self.position.wf()
        &&& forall|i: int|
            0 <= i < self.position_history.len() ==> (#[trigger] self.position_history[i]).wf()
        &&& self.halfmove_clock <= 150
        &&& (self.ongoing ==> self.halfmove_clock < 150)
        &&& (!self.ongoing ==> self.draw_agreed || self.resigned_side is Some || auto_end(
            self.position_history,
            self.position,
            self.halfmove_clock,
        ))
        &&& self.move_history.len() == self.position_history.len()
        &&& forall|i: int|
            0 <= i < self.move_history.len() ==> legal_moves(self.position_history[i]).contains(
                #[trigger] self.move_history[i],
            )
    }
}

/// The moves the board offers: the position's legal moves while the game is
/// ongoing, none once it has ended.
pub open spec fn board_legal(b: BoardV) -> Seq<Move> {
    if b.ongoing {
        legal_moves(b.position)
    } else {
        Seq::empty()
    }
}

/// The board after playing the (already resolved, legal) move `mv`: the
/// halfmove clock resets to 0 on a pawn move or a capture and increments
/// otherwise, the fullmove number increments after black's move, the
/// pre-move position and the move go to the histories, and the five
/// automatic termination rules are re-evaluated.
pub open spec fn board_after(b: BoardV, mv: Move) -> BoardV {
    let moved_pawn = match b.position.content[mv.0 as int] {
        Some(p) => p.0 == PieceType::P,
        None => false,
    };
    let capture = b.position.content[mv.1 as int] is Some;
    let clock: usize = if moved_pawn || capture {
        0
    } else {
        (b.halfmove_clock + 1) as usize
    };
    let fullmove: usize = if b.position.side == Color::Black && b.fullmove_number < usize::MAX {
        (b.fullmove_number + 1) as usize
    } else {
        b.fullmove_number
    };
    let newpos = make_move_spec(b.position, mv);
    let hist = b.position_history.push(b.position);
    BoardV {
        position: newpos,
        halfmove_clock: clock,
        fullmove_number: fullmove,
        ongoing: !auto_end(hist, newpos, clock),
        position_history: hist,
        move_history: b.move_history.push(mv),
        initial_fen: b.initial_fen,
        resigned_side: b.resigned_side,
        draw_agreed: b.draw_agreed,
    }
}

/// The game result when the game has ended, by precedence: agreement, then
/// resignation, then checkmate, then stalemate, then fivefold repetition,
/// then the 75-move rule, then insufficient material.
pub open spec fn game_result_spec(b: BoardV) -> Option<GameResult> {
    if b.ongoing {
        None
    } else {
        Some(
            if b.draw_agreed {
                GameResult::Draw(DrawType::Agreement)
            } else if b.resigned_side is Some {
                GameResult::Wins((b.resigned_side->0).spec_other(), WinType::Resignation)
            } else if is_checkmate_spec(b.position) {
                GameResult::Wins(b.position.side.spec_other(), WinType::Checkmate)
            } else if is_stalemate_spec(b.position) {
                GameResult::Draw(DrawType::Stalemate(b.position.side))
            } else if rep_count(b.position_history, b.position) == 5 {
                GameResult::Draw(DrawType::FivefoldRepetition)
            } else if b.halfmove_clock == 150 {
                GameResult::Draw(DrawType::SeventyFiveMoveRule)
            } else {
                GameResult::Draw(DrawType::InsufficientMaterial)
            },
        )
    }
}

impl Board {
    /// Board well-formedness, stated of the executable value.
    pub open spec fn wf(&self) -> bool {
        self@.wf()
    }

    /// Counts how many history positions equal the current position.
    fn count_repetitions(&self) -> (r: usize)
        ensures
            r == rep_count(self@.position_history, self@.position),
    {
        proof {
            lemma_poss_views_index(self.position_history@);
            lemma_rep_upto_le(
                self@.position_history,
                self@.position,
                self@.position_history.len() as int,
            );
        }
        let mut count: usize = 0;
        let mut i: usize = 0;
        while i < self.position_history.len()
            invariant
                0 <= i <= self.position_history@.len(),
                poss_views(self.position_history@).len() == self.position_history@.len(),
                forall|k: int|
                    0 <= k < self.position_history@.len() ==> poss_views(self.position_history@)[k]
                        == self.position_history@[k]@,
                count == rep_upto(self@.position_history, self@.position, i as int),
                count <= i,
            decreases self.position_history@.len() - i,
        {
            if pos_eq(&self.position_history[i], &self.position) {
                count = count + 1;
            }
            i = i + 1;
        }
        count
    }

    /// Constructs a `Board` from a `Fen` object.
    pub fn from_fen(fen: Fen) -> (b: Board)
        requires
            fen@.position.wf(),
            fen@.halfmove_clock <= 150,
        ensures
            b@.position == fen@.position,
            b@.halfmove_clock == fen@.halfmove_clock,
            b@.fullmove_number == fen@.fullmove_number,
            b@.position_history == Seq::<PosV>::empty(),
            b@.move_history == Seq::<Move>::empty(),
            b@.initial_fen == fen@,
            b@.resigned_side is None,
            !b@.draw_agreed,
            b@.ongoing == (fen@.halfmove_clock < 150 && !auto_end(
                Seq::<PosV>::empty(),
                fen@.position,
                fen@.halfmove_clock,
            )),
            b@.wf(),
    {
        let position = fen.position.duplicate();
        let halfmove_clock = fen.halfmove_clock;
        let fullmove_number = fen.fullmove_number;
        let mut board = Board {
            position,
            halfmove_clock,
            fullmove_number,
            ongoing: halfmove_clock < 150,
            position_history: Vec::new(),
            move_history: Vec::new(),
            initial_fen: fen,
            resigned_side: None,
            draw_agreed: false,
        };
        board.check_game_over();
        proof {
            assert(board@.position_history =~= Seq::<PosV>::empty());
        }
        board
    }

    /// Returns a `Fen` object representing the `Board`.
    pub fn to_fen(&self) -> (r: Fen)
        ensures
            r@.position == self@.position,
            r@.halfmove_clock == self@.halfmove_clock,
            r@.fullmove_number == self@.fullmove_number,
    {
        Fen {
            position: self.position.duplicate(),
            halfmove_clock: self.halfmove_clock,
            fullmove_number: self.fullmove_number,
        }
    }

    /// Generates the legal moves in the position: none once the game is
    /// over.
    pub fn gen_legal_moves(&self) -> (r: Vec<Move>)
        requires
            self@.position.wf(),
        ensures
            r@ == board_legal(self@),
    {
        if self.ongoing {
            self.position.gen_non_illegal_moves()
        } else {
            Vec::new()
        }
    }

    /// Checks whether a move is legal in the position.
    pub fn is_legal(&self, move_: Move) -> (r: bool)
        requires
            self@.position.wf(),
        ensures
            r == (as_legal_spec(move_, board_legal(self@)) is Some),
    {
        let legal = self.gen_legal_moves();
        helpers::as_legal(move_, &legal).is_some()
    }

    /// Updates the `ongoing` property of the `Board` if the game is over.
    fn check_game_over(&mut self)
        requires
            old(self)@.position.wf(),
        ensures
            final(self)@ == (BoardV {
                ongoing: old(self)@.ongoing && !auto_end(
                    old(self)@.position_history,
                    old(self)@.position,
                    old(self)@.halfmove_clock,
                ),
                ..old(self)@
            }),
    {
        let five = self.count_repetitions() == 5;
        let seventy_five = self.halfmove_clock == 150;
        let stale = self.position.is_stalemate();
        let insufficient = self.position.is_insufficient_material();
        let mate = self.position.is_checkmate();
        if five || seventy_five || stale || insufficient || mate {
            self.ongoing = false;
        }
        proof {
            assert(final(self)@ =~= (BoardV {
                ongoing: old(self)@.ongoing && !auto_end(
                    old(self)@.position_history,
                    old(self)@.position,
                    old(self)@.halfmove_clock,
                ),
                ..old(self)@
            }));
        }
    }

    /// Plays on the board the given move, returning an error and leaving
    /// the board unchanged if the move is illegal or the game is over.
    pub fn make_move(&mut self, move_: Move) -> (r: Result<(), IllegalMoveError>)
        requires
            old(self)@.wf(),
        ensures
            match r {
                Ok(()) => as_legal_spec(move_, board_legal(old(self)@)) is Some && final(self)@
                    == board_after(
                    old(self)@,
                    as_legal_spec(move_, board_legal(old(self)@))->0,
                ) && final(self)@.wf(),
                Err(e) => as_legal_spec(move_, board_legal(old(self)@)) is None && final(self)@
                    == old(self)@ && e == (IllegalMoveError(move_)),
            },
    {
        let legal = self.gen_legal_moves();
        let mv = match helpers::as_legal(move_, &legal) {
            Some(m) => m,
            None => {
                return Err(IllegalMoveError(move_));
            },
        };
        proof {
            assert(self@.ongoing) by {
                if !self@.ongoing {
                    assert(legal@ =~= Seq::<Move>::empty());
                    assert(!legal@.contains(move_));
                }
            }
            crate::rules::lemma_as_legal_member(move_, legal@);
            lemma_legal_moves_sane(self@.position);
            let j = choose|j: int|
                0 <= j < legal_moves(self@.position).len() && legal_moves(self@.position)[j] == mv;
            assert(crate::legal::move_sane(self@.position, legal_moves(self@.position)[j]));
        }
        let mut halfmove_clock = self.halfmove_clock;
        let fullmove_number = if self.position.side.is_black() {
            if self.fullmove_number < usize::MAX {
                self.fullmove_number + 1
            } else {
                self.fullmove_number
            }
        } else {
            self.fullmove_number
        };
        let moved_piece = self.position.content[mv.0];
        let dest_occ = self.position.content[mv.1];
        if matches!(moved_piece, Some(Piece(PieceType::P, _))) || dest_occ.is_some() {
            halfmove_clock = 0;
        } else {
            halfmove_clock = halfmove_clock + 1;
        }
        let prev = self.position.duplicate();
        let ghost old_hist = self.position_history@;
        self.position_history.push(prev);
        proof {
            lemma_poss_views_push(old_hist, prev);
        }
        match self.position.make_move(mv) {
            Ok(p) => {
                self.position = p;
            },
            Err(e) => {
                proof {
                    assert(legal@.contains(mv));
                    assert(as_legal_spec(mv, legal_moves(old(self)@.position)) is Some);
                    assert(false);
                }
                return Err(e);
            },
        }
        self.move_history.push(mv);
        self.halfmove_clock = halfmove_clock;
        self.fullmove_number = fullmove_number;
        self.check_game_over();
        proof {
            assert(final(self)@ =~= board_after(
                old(self)@,
                as_legal_spec(move_, board_legal(old(self)@))->0,
            ));
            lemma_poss_views_index(old(self).position_history@);
        }
        Ok(())
    }

    /// Checks whether the game is still ongoing.
    pub fn is_ongoing(&self) -> (r: bool)
        ensures
            r == self@.ongoing,
    {
        self.ongoing
    }

    /// Checks whether the game is over.
    pub fn is_game_over(&self) -> (r: bool)
        ensures
            r == !self@.ongoing,
    {
        !self.ongoing
    }

    /// Returns an optional game result (`None` if the game is ongoing),
    /// with administrative outcomes dominating the automatic ones.
    pub fn game_result(&self) -> (r: Option<GameResult>)
        requires
            self@.wf(),
        ensures
            r == game_result_spec(self@),
    {
        if self.ongoing {
            None
        } else {
            Some(
                if self.draw_agreed {
                    GameResult::Draw(DrawType::Agreement)
                } else if self.resigned_side.is_some() {
                    let s = self.resigned_side.unwrap();
                    GameResult::Wins(s.other(), WinType::Resignation)
                } else if self.position.is_checkmate() {
                    GameResult::Wins(self.position.side_to_move().other(), WinType::Checkmate)
                } else if self.position.is_stalemate() {
                    GameResult::Draw(DrawType::Stalemate(self.position.side_to_move()))
                } else if self.count_repetitions() == 5 {
                    GameResult::Draw(DrawType::FivefoldRepetition)
                } else if self.halfmove_clock == 150 {
                    GameResult::Draw(DrawType::SeventyFiveMoveRule)
                } else {
                    GameResult::Draw(DrawType::InsufficientMaterial)
                },
            )
        }
    }

    /// Returns the number of halfmoves since the last pawn push or capture.
    pub fn halfmove_clock(&self) -> (r: usize)
        ensures
            r == self@.halfmove_clock,
    {
        self.halfmove_clock
    }

    /// Returns the fullmove number.
    pub fn fullmove_number(&self) -> (r: usize)
        ensures
            r == self@.fullmove_number,
    {
        self.fullmove_number
    }

    /// Checks whether a threefold repetition of the position has occurred.
    /// This is advisory: only the fivefold repetition ends the game.
    pub fn is_threefold_repetition(&self) -> (r: bool)
        ensures
            r == (rep_count(self@.position_history, self@.position) == 3),
    {
        self.count_repetitions() == 3
    }

    /// Checks whether a fivefold repetition of the position has occurred.
    pub fn is_fivefold_repetition(&self) -> (r: bool)
        ensures
            r == (rep_count(self@.position_history, self@.position) == 5),
    {
        self.count_repetitions() == 5
    }

    /// Checks whether a draw can be claimed by the fifty-move rule.
    pub fn is_fifty_move_rule(&self) -> (r: bool)
        ensures
            r == (self@.halfmove_clock == 100),
    {
        self.halfmove_clock == 100
    }

    /// Checks whether the game is drawn by the seventy-five-move rule.
    pub fn is_seventy_five_move_rule(&self) -> (r: bool)
        ensures
            r == (self@.halfmove_clock == 150),
    {
        self.halfmove_clock == 150
    }

    /// Checks whether the game is drawn by stalemate. Use
    /// [`Board::stalemated_side`] to know which side is in stalemate.
    pub fn is_stalemate(&self) -> (r: bool)
        requires
            self@.position.wf(),
        ensures
            r == is_stalemate_spec(self@.position),
    {
        self.position.is_stalemate()
    }

    /// Checks whether the game is drawn by insufficient material: king and
    /// knight vs. king, or king and zero or more bishops vs. king and zero
    /// or more bishops where all the bishops are on the same color complex.
    pub fn is_insufficient_material(&self) -> (r: bool)
        requires
            self@.position.wf(),
        ensures
            r == insufficient_spec(material_of(self@.position)),
    {
        self.position.is_insufficient_material()
    }

    /// Checks whether there is sufficient checkmating material on the board.
    pub fn is_sufficient_material(&self) -> (r: bool)
        requires
            self@.position.wf(),
        ensures
            r == !insufficient_spec(material_of(self@.position)),
    {
        !self.is_insufficient_material()
    }

    /// Checks whether any side is in check (a checkmate is also considered
    /// a check). Use [`Board::checked_side`] to know which side it is.
    pub fn is_check(&self) -> (r: bool)
        requires
            self@.position.wf(),
        ensures
            r == is_check_spec(self@.position),
    {
        self.position.is_check()
    }

    /// Checks whether any side is in checkmate. Use
    /// [`Board::checkmated_side`] to know which side it is.
    pub fn is_checkmate(&self) -> (r: bool)
        requires
            self@.position.wf(),
        ensures
            r == is_checkmate_spec(self@.position),
    {
        self.position.is_checkmate()
    }

    /// Returns an optional `Color` representing the side in stalemate
    /// (`None` if neither side is in stalemate).
    pub fn stalemated_side(&self) -> (r: Option<Color>)
        requires
            self@.position.wf(),
        ensures
            r == if is_stalemate_spec(self@.position) {
                Some(self@.position.side)
            } else {
                Option::<Color>::None
            },
    {
        self.position.stalemated_side()
    }

    /// Returns an optional `Color` representing the side in check (`None`
    /// if neither side is in check).
    pub fn checked_side(&self) -> (r: Option<Color>)
        requires
            self@.position.wf(),
        ensures
            r == checked_side_spec(self@.position),
    {
        self.position.checked_side()
    }

    /// Returns an optional `Color` representing the side in checkmate
    /// (`None` if neither side is in checkmate).
    pub fn checkmated_side(&self) -> (r: Option<Color>)
        requires
            self@.position.wf(),
        ensures
            r == if is_checkmate_spec(self@.position) {
                Some(self@.position.side)
            } else {
                Option::<Color>::None
            },
    {
        self.position.checkmated_side()
    }

    /// Returns which side's turn it is to move.
    pub fn side_to_move(&self) -> (r: Color)
        ensures
            r == self@.position.side,
    {
        self.position.side_to_move()
    }

    /// Returns the occupant of a square, or an error if the square name is
    /// invalid: every square from a1 to h8 is addressable.
    pub fn occupant_of_square(&self, file: char, rank: char) -> (r: Result<Option<Piece>, String>)
        requires
            self@.position.wf(),
        ensures
            match r {
                Ok(o) => 'a' <= file <= 'h' && '1' <= rank <= '8' && o == self@.position.content[
                    helpers::sq_index(file, rank)
                ],
                Err(_) => !('a' <= file <= 'h' && '1' <= rank <= '8'),
            },
    {
        if !('a' <= file && file <= 'h') {
            return Err(String::from_str("Invalid file name"));
        }
        if !('1' <= rank && rank <= '8') {
            return Err(String::from_str("Invalid rank"));
        }
        proof {
            assert(helpers::file_val(file) < 8 && helpers::rank_val(rank) < 8);
        }
        Ok(self.position.content[helpers::sq_to_idx(file, rank)])
    }

    /// Resigns the game for a certain side, if the game is ongoing.
    /// A loss by timeout is also represented this way.
    pub fn resign(&mut self, side: Color) -> (r: Result<(), String>)
        ensures
            match r {
                Ok(()) => old(self)@.ongoing && final(self)@ == (BoardV {
                    ongoing: false,
                    resigned_side: Some(side),
                    ..old(self)@
                }),
                Err(_) => !old(self)@.ongoing && final(self)@ == old(self)@,
            },
    {
        if !self.ongoing {
            return Err(String::from_str("A player cannot resign when the game is already over"));
        }
        self.ongoing = false;
        self.resigned_side = Some(side);
        proof {
            assert(final(self)@ =~= (BoardV {
                ongoing: false,
                resigned_side: Some(side),
                ..old(self)@
            }));
        }
        Ok(())
    }

    /// Makes a draw by agreement, if the game is ongoing. A claimed draw is
    /// also represented this way.
    pub fn agree_draw(&mut self) -> (r: Result<(), String>)
        ensures
            match r {
                Ok(()) => old(self)@.ongoing && final(self)@ == (BoardV {
                    ongoing: false,
                    draw_agreed: true,
                    ..old(self)@
                }),
                Err(_) => !old(self)@.ongoing && final(self)@ == old(self)@,
            },
    {
        if !self.ongoing {
            return Err(
                String::from_str("Players cannot agree to a draw when the game is already over"),
            );
        }
        self.ongoing = false;
        self.draw_agreed = true;
        proof {
            assert(final(self)@ =~= (BoardV {
                ongoing: false,
                draw_agreed: true,
                ..old(self)@
            }));
        }
        Ok(())
    }

    /// Returns an optional `Color` representing the side that has resigned
    /// (`None` if neither side has resigned).
    pub fn resigned_side(&self) -> (r: Option<Color>)
        ensures
            r == self@.resigned_side,
    {
        self.resigned_side
    }

    /// Checks whether a draw has been agreed upon.
    pub fn draw_agreed(&self) -> (r: bool)
        ensures
            r == self@.draw_agreed,
    {
        self.draw_agreed
    }

    /// Returns the initial FEN of the game.
    pub fn initial_fen(&self) -> (r: &Fen)
        ensures
            r@ == self@.initial_fen,
    {
        &self.initial_fen
    }

    /// Returns the current `Position` on the board.
    pub fn position(&self) -> (r: &Position)
        ensures
            r@ == self@.position,
    {
        &self.position
    }

    /// Represents a `Move` in SAN, returning an error if the move is
    /// illegal or the game is over.
    pub fn move_to_san(&self, move_: Move) -> (r: Result<String, IllegalMoveError>)
        requires
            self@.position.wf(),
        ensures
            match r {
                Ok(s) => as_legal_spec(move_, board_legal(self@)) is Some && s@
                    == crate::san::san_of(
                    self@.position,
                    as_legal_spec(move_, board_legal(self@))->0,
                ),
                Err(e) => as_legal_spec(move_, board_legal(self@)) is None && e
                    == (IllegalMoveError(move_)),
            },
    {
        let legal = self.gen_legal_moves();
        let mv = match helpers::as_legal(move_, &legal) {
            Some(m) => m,
            None => {
                return Err(IllegalMoveError(move_));
            },
        };
        proof {
            assert(self@.ongoing) by {
                if !self@.ongoing {
                    assert(legal@ =~= Seq::<Move>::empty());
                    assert(!legal@.contains(move_));
                }
            }
            crate::rules::lemma_as_legal_member(move_, legal@);
        }
        match self.position.move_to_san(mv) {
            Ok(s) => Ok(s),
            Err(e) => {
                proof {
                    assert(legal@.contains(mv));
                    assert(false);
                }
                Err(e)
            },
        }
    }

    /// Constructs a `Move` from a SAN representation, returning an error if
    /// it is invalid, illegal, or the game is over.
    pub fn san_to_move(&self, san: &str) -> (r: Result<Move, InvalidSanMoveError>)
        requires
            self@.position.wf(),
        ensures
            match r {
                Ok(m) => crate::san::san_match_from(
                    self@.position,
                    legal_moves(self@.position),
                    crate::san::normalize_san(san@),
                    0,
                ) == Some(m) && as_legal_spec(m, board_legal(self@)) is Some,
                Err(e) => e.0@ == crate::san::normalize_san(san@) && (crate::san::san_match_from(
                    self@.position,
                    legal_moves(self@.position),
                    crate::san::normalize_san(san@),
                    0,
                ) matches Some(m) ==> as_legal_spec(m, board_legal(self@)) is None),
            },
    {
        match self.position.san_to_move(san) {
            Ok(m) => {
                if self.is_legal(m) {
                    Ok(m)
                } else {
                    Err(InvalidSanMoveError(crate::san::normalize(san)))
                }
            },
            Err(e) => Err(e),
        }
    }

    /// Attempts to parse the UCI representation of a move and play it on
    /// the board, returning an error if the move is invalid or illegal.
    pub fn make_move_uci(&mut self, uci: &str) -> (r: Result<(), String>)
        requires
            old(self)@.wf(),
        ensures
            match r {
                Ok(()) => crate::from_uci_spec(uci@) matches Ok(m) && as_legal_spec(
                    m,
                    board_legal(old(self)@),
                ) is Some && final(self)@ == board_after(
                    old(self)@,
                    as_legal_spec(m, board_legal(old(self)@))->0,
                ) && final(self)@.wf(),
                Err(_) => final(self)@ == old(self)@ && (crate::from_uci_spec(uci@) matches Ok(m)
                    ==> as_legal_spec(m, board_legal(old(self)@)) is None),
            },
    {
        let move_ = match Move::from_uci(uci) {
            Ok(m) => m,
            Err(_) => {
                return Err(String::from_str("Invalid UCI"));
            },
        };
        match self.make_move(move_) {
            Ok(()) => Ok(()),
            Err(_) => Err(String::from_str("Illegal move")),
        }
    }

    /// Attempts to interpret the SAN representation of a move and play it
    /// on the board, returning an error if it is invalid or illegal.
    pub fn make_move_san(&mut self, san: &str) -> (r: Result<(), String>)
        requires
            old(self)@.wf(),
        ensures
            match r {
                Ok(()) => crate::san::san_match_from(
                    old(self)@.position,
                    legal_moves(old(self)@.position),
                    crate::san::normalize_san(san@),
                    0,
                ) matches Some(m) && as_legal_spec(m, board_legal(old(self)@)) is Some && final(self)@ == board_after(
                    old(self)@,
                    as_legal_spec(m, board_legal(old(self)@))->0,
                ) && final(self)@.wf(),
                Err(_) => final(self)@ == old(self)@ && (crate::san::san_match_from(
                    old(self)@.position,
                    legal_moves(old(self)@.position),
                    crate::san::normalize_san(san@),
                    0,
                ) matches Some(m) ==> as_legal_spec(m, board_legal(old(self)@)) is None),
            },
    {
        let move_ = match self.san_to_move(san) {
            Ok(m) => m,
            Err(_) => {
                return Err(String::from_str("Invalid SAN"));
            },
        };
        match self.make_move(move_) {
            Ok(()) => Ok(()),
            Err(_) => {
                proof {
                    assert(false);
                }
                Err(String::from_str("Illegal move"))
            },
        }
    }
}

/// The SAN movetext of the first moves up to index `i` onward, given the
/// side to move and fullmove number reached so far: white moves print as
/// "N. san", black moves as "san", except that a game starting with black
/// to move opens with "N... san"; every move is followed by one space.
pub open spec fn movetext_from(
    hist: Seq<PosV>,
    moves: Seq<Move>,
    side: Color,
    num: usize,
    i: int,
) -> Seq<char>
    decreases moves.len() - i,
{
    if i < 0 || i >= moves.len() {
        Seq::empty()
    } else {
        let san = crate::san::san_of(
            hist[i],
            as_legal_spec(moves[i], legal_moves(hist[i]))->0,
        );
        let chunk = if side == Color::Black {
            (if i == 0 {
                crate::strutil::dec_str(num as int) + seq!['.', '.', '.', ' ']
            } else {
                Seq::<char>::empty()
            }) + san + seq![' ']
        } else {
            crate::strutil::dec_str(num as int) + seq!['.', ' '] + san + seq![' ']
        };
        chunk + movetext_from(
            hist,
            moves,
            side.spec_other(),
            if side == Color::Black && num < usize::MAX {
                (num + 1) as usize
            } else {
                num
            },
            i + 1,
        )
    }
}

/// The SAN movetext of the whole game so far, without the trailing space.
pub open spec fn movetext_spec(b: BoardV) -> Seq<char> {
    let full = movetext_from(
        b.position_history,
        b.move_history,
        b.initial_fen.position.side,
        b.initial_fen.fullmove_number,
        0,
    );
    if full.len() > 0 {
        full.subrange(0, full.len() - 1)
    } else {
        full
    }
}

impl Board {
    /// Pretty-prints the position to a string, from the perspective of the
    /// side `perspective`.
    pub fn pretty_print(&self, perspective: Color) -> (r: String)
        requires
            self@.position.base_wf(),
        ensures
            r@ == crate::display::pretty_print_spec(self@.position, perspective),
    {
        self.position.pretty_print(perspective)
    }

    /// Generates the SAN movetext of the game thus far (excluding the game
    /// result).
    #[verifier::rlimit(100)]
    pub fn gen_movetext(&self) -> (r: String)
        requires
            self@.wf(),
        ensures
            r@ == movetext_spec(self@),
    {
        proof {
            lemma_poss_views_index(self.position_history@);
        }
        let mut movetext = String::new();
        let mut current_side = self.initial_fen.position().side_to_move();
        let mut current_fullmove_number: usize = self.initial_fen.fullmove_number();
        let ghost full = movetext_from(
            self@.position_history,
            self@.move_history,
            self@.initial_fen.position.side,
            self@.initial_fen.fullmove_number,
            0,
        );
        proof {
            assert(movetext@ + full =~= full);
        }
        let mut movei: usize = 0;
        while movei < self.move_history.len()
            invariant
                0 <= movei <= self.move_history@.len(),
                self@.wf(),
                poss_views(self.position_history@).len() == self.position_history@.len(),
                forall|k: int|
                    0 <= k < self.position_history@.len() ==> poss_views(self.position_history@)[k]
                        == self.position_history@[k]@,
                full == movetext_from(
                    self@.position_history,
                    self@.move_history,
                    self@.initial_fen.position.side,
                    self@.initial_fen.fullmove_number,
                    0,
                ),
                full == movetext@ + movetext_from(
                    self@.position_history,
                    self@.move_history,
                    current_side,
                    current_fullmove_number,
                    movei as int,
                ),
            decreases self.move_history@.len() - movei,
        {
            let move_ = self.move_history[movei];
            let pos = &self.position_history[movei];
            proof {
                assert(legal_moves(pos@).contains(move_));
            }
            let san = match pos.move_to_san(move_) {
                Ok(s) => s,
                Err(_) => {
                    proof {
                        assert(false);
                    }
                    return movetext;
                },
            };
            if current_side.is_black() {
                if movei == 0 {
                    let num = crate::strutil::usize_to_string(current_fullmove_number);
                    movetext.append(num.as_str());
                    movetext.append("... ");
                }
                movetext.append(san.as_str());
                crate::strutil::push_char(&mut movetext, ' ');
                if current_fullmove_number < usize::MAX {
                    current_fullmove_number = current_fullmove_number + 1;
                }
            } else {
                let num = crate::strutil::usize_to_string(current_fullmove_number);
                movetext.append(num.as_str());
                movetext.append(". ");
                movetext.append(san.as_str());
                crate::strutil::push_char(&mut movetext, ' ');
            }
            current_side = current_side.other();
            proof {
                reveal_strlit("... ");
                reveal_strlit(". ");
                assert("... "@ =~= seq!['.', '.', '.', ' ']);
                assert(". "@ =~= seq!['.', ' ']);
            }
            movei = movei + 1;
        }
        let n = movetext.as_str().unicode_len();
        if n > 0 {
            let trimmed = movetext.as_str().substring_char(0, n - 1).to_owned();
            proof {
                assert(movetext_from(
                    self@.position_history,
                    self@.move_history,
                    current_side,
                    current_fullmove_number,
                    self.move_history@.len() as int,
                ) =~= Seq::<char>::empty());
                assert(movetext@ =~= full);
            }
            trimmed
        } else {
            proof {
                assert(movetext_from(
                    self@.position_history,
                    self@.move_history,
                    current_side,
                    current_fullmove_number,
                    self.move_history@.len() as int,
                ) =~= Seq::<char>::empty());
                assert(movetext@ =~= full);
            }
            movetext
        }
    }
}

/// The standard starting placement: white's pieces on ranks 1 and 2,
/// black's on ranks 7 and 8.
pub open spec fn start_content() -> Seq<Option<Piece>> {
    seq![
        Some(Piece(PieceType::R, Color::White)),
        Some(Piece(PieceType::N, Color::White)),
        Some(Piece(PieceType::B, Color::White)),
        Some(Piece(PieceType::Q, Color::White)),
        Some(Piece(PieceType::K, Color::White)),
        Some(Piece(PieceType::B, Color::White)),
        Some(Piece(PieceType::N, Color::White)),
        Some(Piece(PieceType::R, Color::White)),
        Some(Piece(PieceType::P, Color::White)),
        Some(Piece(PieceType::P, Color::White)),
        Some(Piece(PieceType::P, Color::White)),
        Some(Piece(PieceType::P, Color::White)),
        Some(Piece(PieceType::P, Color::White)),
        Some(Piece(PieceType::P, Color::White)),
        Some(Piece(PieceType::P, Color::White)),
        Some(Piece(PieceType::P, Color::White)),
        None, None, None, None, None, None, None, None,
        None, None, None, None, None, None, None, None,
        None, None, None, None, None, None, None, None,
        None, None, None, None, None, None, None, None,
        Some(Piece(PieceType::P, Color::Black)),
        Some(Piece(PieceType::P, Color::Black)),
        Some(Piece(PieceType::P, Color::Black)),
        Some(Piece(PieceType::P, Color::Black)),
        Some(Piece(PieceType::P, Color::Black)),
        Some(Piece(PieceType::P, Color::Black)),
        Some(Piece(PieceType::P, Color::Black)),
        Some(Piece(PieceType::P, Color::Black)),
        Some(Piece(PieceType::R, Color::Black)),
        Some(Piece(PieceType::N, Color::Black)),
        Some(Piece(PieceType::B, Color::Black)),
        Some(Piece(PieceType::Q, Color::Black)),
        Some(Piece(PieceType::K, Color::Black)),
        Some(Piece(PieceType::B, Color::Black)),
        Some(Piece(PieceType::N, Color::Black)),
        Some(Piece(PieceType::R, Color::Black)),
    ]
}

/// The standard starting position: white to move, all four castling rights,
/// no en-passant target.
pub open spec fn start_posv() -> PosV {
    PosV {
        content: start_content(),
        side: Color::White,
        castling_rights: seq![Some(7usize), Some(0usize), Some(63usize), Some(56usize)],
        ep_target: None,
    }
}

/// Builds the standard starting position.
pub fn start_position() -> (r: Position)
    ensures
        r@ == start_posv(),
        r@.wf(),
{
    let mut content: Vec<Option<Piece>> = Vec::new();
    content.push(Some(Piece(PieceType::R, Color::White)));
    content.push(Some(Piece(PieceType::N, Color::White)));
    content.push(Some(Piece(PieceType::B, Color::White)));
    content.push(Some(Piece(PieceType::Q, Color::White)));
    content.push(Some(Piece(PieceType::K, Color::White)));
    content.push(Some(Piece(PieceType::B, Color::White)));
    content.push(Some(Piece(PieceType::N, Color::White)));
    content.push(Some(Piece(PieceType::R, Color::White)));
    let mut i: usize = 8;
    while i < 16
        invariant
            8 <= i <= 16,
            content@.len() == i,
            forall|k: int| 0 <= k < 8 ==> content@[k] == start_content()[k],
            forall|k: int|
                8 <= k < i ==> content@[k] == Some(Piece(PieceType::P, Color::White)),
        decreases 16 - i,
    {
        content.push(Some(Piece(PieceType::P, Color::White)));
        i = i + 1;
    }
    let mut j: usize = 16;
    while j < 48
        invariant
            16 <= j <= 48,
            content@.len() == j,
            forall|k: int| 0 <= k < 8 ==> content@[k] == start_content()[k],
            forall|k: int|
                8 <= k < 16 ==> content@[k] == Some(Piece(PieceType::P, Color::White)),
            forall|k: int| 16 <= k < j ==> content@[k] is None,
        decreases 48 - j,
    {
        content.push(None);
        j = j + 1;
    }
    let mut l: usize = 48;
    while l < 56
        invariant
            48 <= l <= 56,
            content@.len() == l,
            forall|k: int| 0 <= k < 8 ==> content@[k] == start_content()[k],
            forall|k: int|
                8 <= k < 16 ==> content@[k] == Some(Piece(PieceType::P, Color::White)),
            forall|k: int| 16 <= k < 48 ==> content@[k] is None,
            forall|k: int|
                48 <= k < l ==> content@[k] == Some(Piece(PieceType::P, Color::Black)),
        decreases 56 - l,
    {
        content.push(Some(Piece(PieceType::P, Color::Black)));
        l = l + 1;
    }
    content.push(Some(Piece(PieceType::R, Color::Black)));
    content.push(Some(Piece(PieceType::N, Color::Black)));
    content.push(Some(Piece(PieceType::B, Color::Black)));
    content.push(Some(Piece(PieceType::Q, Color::Black)));
    content.push(Some(Piece(PieceType::K, Color::Black)));
    content.push(Some(Piece(PieceType::B, Color::Black)));
    content.push(Some(Piece(PieceType::N, Color::Black)));
    content.push(Some(Piece(PieceType::R, Color::Black)));
    let mut rights: Vec<Option<usize>> = Vec::new();
    rights.push(Some(7));
    rights.push(Some(0));
    rights.push(Some(63));
    rights.push(Some(56));
    let r = Position { content, side: Color::White, castling_rights: rights, ep_target: None };
    proof {
        assert(r@.content =~= start_content());
        assert(r@.castling_rights =~= seq![Some(7usize), Some(0usize), Some(63usize), Some(56usize)]);
        assert(r@ =~= start_posv());
        assert(r@.wf());
    }
    r
}

impl Default for Board {
    /// Constructs a `Board` with the starting position for a chess game.
    fn default() -> (b: Board)
        ensures
            b@.position == start_posv(),
            b@.halfmove_clock == 0,
            b@.fullmove_number == 1,
            b@.position_history == Seq::<PosV>::empty(),
            b@.move_history == Seq::<Move>::empty(),
            b@.initial_fen == (FenV {
                position: start_posv(),
                halfmove_clock: 0,
                fullmove_number: 1,
            }),
            b@.resigned_side is None,
            !b@.draw_agreed,
            b@.ongoing == !auto_end(Seq::<PosV>::empty(), start_posv(), 0),
            b@.wf(),
    {
        let position = start_position();
        let fen = Fen { position, halfmove_clock: 0, fullmove_number: 1 };
        Board::from_fen(fen)
    }
}

} // verus!
