//! A verified chess rules engine: move generation, legality filtering,
//! game-state bookkeeping, and SAN/FEN/UCI notation handling.

use vstd::prelude::*;

pub mod board;
pub mod cache;
pub mod display;
pub mod errors;
pub mod fen;
pub mod helpers;
pub mod laws;
pub mod legal;
pub mod movegen;
pub mod position;
pub mod rgb;
pub mod rules;
pub mod san;
pub mod strutil;

pub use board::Board;
pub use fen::Fen;
pub use position::Position;
pub use rules::Material;
pub use rgb::Rgb;

pub use errors::InvalidSquareIndexError;
pub use errors::InvalidSquareNameError;

verus! {

/// Represents a side/color.
#[derive(Eq, PartialEq, Structural, Hash, Copy, Clone, Debug)]
pub enum Color {
    White,
    Black,
}

impl Color {
    /// Checks if the color is white.
    pub fn is_white(&self) -> (r: bool)
        ensures
            r == (*self == Color::White),
    {
        matches!(self, Color::White)
    }

    /// Checks if the color is black.
    pub fn is_black(&self) -> (r: bool)
        ensures
            r == (*self == Color::Black),
    {
        matches!(self, Color::Black)
    }

    /// The opposite color (the other side).
    pub fn other(&self) -> (r: Color)
        ensures
            r == self.spec_other(),
    {
        match self {
            Color::White => Color::Black,
            Color::Black => Color::White,
        }
    }

    pub open spec fn spec_other(&self) -> Color {
        match self {
            Color::White => Color::Black,
            Color::Black => Color::White,
        }
    }

    /// Converts a `Color` to a color character (white is 'w', and black is 'b').
    pub fn to_char(&self) -> (r: char)
        ensures
            r == color_char(*self),
    {
        match self {
            Color::White => 'w',
            Color::Black => 'b',
        }
    }

    /// Attempts to read a color from a string slice ("w" is white, and "b"
    /// is black).
    pub fn try_from_str(string: &str) -> (r: Result<Color, errors::InvalidColorCharacterError>)
        ensures
            match r {
                Ok(c) => (string@ =~= seq!['w'] && c == Color::White) || (string@ =~= seq!['b']
                    && c == Color::Black),
                Err(e) => !(string@ =~= seq!['w']) && !(string@ =~= seq!['b']) && e.0@ == string@,
            },
    {
        let n = string.unicode_len();
        if n == 1 {
            let c = string.get_char(0);
            if c == 'w' {
                proof {
                    assert(string@ =~= seq!['w']);
                }
                return Ok(Color::White);
            }
            if c == 'b' {
                proof {
                    assert(string@ =~= seq!['b']);
                }
                return Ok(Color::Black);
            }
        }
        Err(errors::InvalidColorCharacterError(string.to_owned()))
    }
}

/// The color character of a color: 'w' for white, 'b' for black.
pub open spec fn color_char(c: Color) -> char {
    match c {
        Color::White => 'w',
        Color::Black => 'b',
    }
}

/// Represents types of pieces.
#[derive(Eq, PartialEq, Structural, Hash, Copy, Clone, Debug)]
pub enum PieceType {
    K,
    Q,
    B,
    N,
    R,
    P,
}

/// The uppercase piece letter of a piece type.
pub open spec fn piece_type_char(t: PieceType) -> char {
    match t {
        PieceType::K => 'K',
        PieceType::Q => 'Q',
        PieceType::B => 'B',
        PieceType::N => 'N',
        PieceType::R => 'R',
        PieceType::P => 'P',
    }
}

/// The piece type denoted by a piece character (either case), if any.
pub open spec fn piece_type_of_char(c: char) -> Option<PieceType> {
    if c == 'K' || c == 'k' {
        Some(PieceType::K)
    } else if c == 'Q' || c == 'q' {
        Some(PieceType::Q)
    } else if c == 'B' || c == 'b' {
        Some(PieceType::B)
    } else if c == 'N' || c == 'n' {
        Some(PieceType::N)
    } else if c == 'R' || c == 'r' {
        Some(PieceType::R)
    } else if c == 'P' || c == 'p' {
        Some(PieceType::P)
    } else {
        None
    }
}

impl PieceType {
    /// Attempts to convert a piece character to a `PieceType`.
    pub fn try_from_char(value: char) -> (r: Result<Self, errors::InvalidPieceCharacterError>)
        ensures
            match r {
                Ok(t) => piece_type_of_char(value) == Some(t),
                Err(e) => piece_type_of_char(value) is None && e == (errors::InvalidPieceCharacterError(
                    value,
                )),
            },
    {
        match value {
            'K' | 'k' => Ok(PieceType::K),
            'Q' | 'q' => Ok(PieceType::Q),
            'B' | 'b' => Ok(PieceType::B),
            'N' | 'n' => Ok(PieceType::N),
            'R' | 'r' => Ok(PieceType::R),
            'P' | 'p' => Ok(PieceType::P),
            _ => Err(errors::InvalidPieceCharacterError(value)),
        }
    }

    /// Converts a `PieceType` to its uppercase piece character.
    pub fn to_char(&self) -> (r: char)
        ensures
            r == piece_type_char(*self),
    {
        match self {
            PieceType::K => 'K',
            PieceType::Q => 'Q',
            PieceType::B => 'B',
            PieceType::N => 'N',
            PieceType::R => 'R',
            PieceType::P => 'P',
        }
    }

    /// Converts a `PieceType` to its lowercase piece character.
    pub fn to_char_lower(&self) -> (r: char)
        ensures
            r == piece_char_lower(*self),
    {
        match self {
            PieceType::K => 'k',
            PieceType::Q => 'q',
            PieceType::B => 'b',
            PieceType::N => 'n',
            PieceType::R => 'r',
            PieceType::P => 'p',
        }
    }
}

/// The lowercase piece letter of a piece type.
pub open spec fn piece_char_lower(t: PieceType) -> char {
    match t {
        PieceType::K => 'k',
        PieceType::Q => 'q',
        PieceType::B => 'b',
        PieceType::N => 'n',
        PieceType::R => 'r',
        PieceType::P => 'p',
    }
}

/// Represents a piece in the format (_piece type_, _color_).
#[derive(Eq, PartialEq, Structural, Hash, Copy, Clone, Debug)]
pub struct Piece(pub PieceType, pub Color);

impl Piece {
    /// Returns the type of piece.
    pub fn piece_type(&self) -> (r: PieceType)
        ensures
            r == self.0,
    {
        self.0
    }

    /// Returns the color of the piece.
    pub fn color(&self) -> (r: Color)
        ensures
            r == self.1,
    {
        self.1
    }

    /// Attempts to convert a piece character to a `Piece`
    /// (uppercase means white, lowercase means black).
    pub fn try_from_char(value: char) -> (r: Result<Self, errors::InvalidPieceCharacterError>)
        ensures
            match r {
                Ok(p) => piece_of_char(value) == Some(p),
                Err(e) => piece_of_char(value) is None && e == (errors::InvalidPieceCharacterError(
                    value,
                )),
            },
    {
        match PieceType::try_from_char(value) {
            Ok(t) => {
                let color = if value == 'K' || value == 'Q' || value == 'B' || value == 'N' || value
                    == 'R' || value == 'P' {
                    Color::White
                } else {
                    Color::Black
                };
                Ok(Piece(t, color))
            },
            Err(e) => Err(e),
        }
    }

    /// Converts a `Piece` to a piece character
    /// (uppercase for white, lowercase for black).
    pub fn to_char(&self) -> (r: char)
        ensures
            r == piece_char(*self),
    {
        match self.1 {
            Color::White => self.0.to_char(),
            Color::Black => self.0.to_char_lower(),
        }
    }
}

/// The piece character of a piece: uppercase for white, lowercase for black.
pub open spec fn piece_char(p: Piece) -> char {
    match p.1 {
        Color::White => piece_type_char(p.0),
        Color::Black => piece_char_lower(p.0),
    }
}

/// The piece denoted by a piece character, if any: uppercase letters are
/// white pieces, lowercase letters black pieces.
pub open spec fn piece_of_char(c: char) -> Option<Piece> {
    match piece_type_of_char(c) {
        Some(t) => Some(
            Piece(
                t,
                if c == 'K' || c == 'Q' || c == 'B' || c == 'N' || c == 'R' || c == 'P' {
                    Color::White
                } else {
                    Color::Black
                },
            ),
        ),
        None => None,
    }
}

/// Represents types of special moves (castling/promotion/en passant).
#[derive(Eq, PartialEq, Structural, Hash, Copy, Clone, Debug)]
pub enum SpecialMoveType {
    CastlingKingside,
    CastlingQueenside,
    /// Represents a promotion, with the tuple value being the type of piece that the pawn promotes to.
    Promotion(PieceType),
    EnPassant,
    /// An input wildcard meaning "any promotion piece is acceptable"; it is
    /// resolved against the legal-move set and never stored in a result.
    Unclear,
}

/// The structure for a chess move, in the format
/// (_source square_, _destination square_, _castling/promotion/en passant_).
#[derive(Eq, PartialEq, Hash, Copy, Clone, Debug)]
pub struct Move(pub usize, pub usize, pub Option<SpecialMoveType>);

/// The parse of UCI move text: a source square and a destination square,
/// optionally followed by one promotion-piece letter; promotion to a king,
/// malformed square names and any other length are rejected. A move without
/// a promotion letter is tagged `Unclear`, to resolve against the legal-move
/// set later.
pub open spec fn from_uci_spec(s: Seq<char>) -> Result<Move, errors::InvalidUciError> {
    if s.len() != 4 && s.len() != 5 {
        Err(errors::InvalidUciError::Length)
    } else if !(helpers::file_val(s[0]) < 8 && helpers::rank_val(s[1]) < 8) {
        Err(errors::InvalidUciError::InvalidSquareName(s[0], s[1]))
    } else if !(helpers::file_val(s[2]) < 8 && helpers::rank_val(s[3]) < 8) {
        Err(errors::InvalidUciError::InvalidSquareName(s[2], s[3]))
    } else {
        let src = helpers::sq_index(s[0], s[1]) as usize;
        let dest = helpers::sq_index(s[2], s[3]) as usize;
        if s.len() == 5 {
            match piece_type_of_char(s[4]) {
                Some(t) => if t == PieceType::K {
                    Err(errors::InvalidUciError::InvalidPieceType(s[4]))
                } else {
                    Ok(Move(src, dest, Some(SpecialMoveType::Promotion(t))))
                },
                None => Err(errors::InvalidUciError::InvalidPieceType(s[4])),
            }
        } else {
            Ok(Move(src, dest, Some(SpecialMoveType::Unclear)))
        }
    }
}

/// The UCI text of a move: its source and destination square names, then
/// the lowercase letter of the promotion piece if it has one.
pub open spec fn to_uci_spec(m: Move) -> Seq<char> {
    seq![
        helpers::file_char(helpers::file_of(m.0 as int)),
        helpers::rank_char(helpers::rank_of(m.0 as int)),
        helpers::file_char(helpers::file_of(m.1 as int)),
        helpers::rank_char(helpers::rank_of(m.1 as int)),
    ] + match m.2 {
        Some(SpecialMoveType::Promotion(t)) => seq![piece_char_lower(t)],
        _ => Seq::<char>::empty(),
    }
}

impl Move {
    /// Returns the source square of the move in the format (_file_, _rank_).
    pub fn from_square(&self) -> (r: (char, char))
        requires
            self.0 < 64,
        ensures
            r.0 == helpers::file_char(helpers::file_of(self.0 as int)),
            r.1 == helpers::rank_char(helpers::rank_of(self.0 as int)),
    {
        helpers::idx_to_sq(self.0)
    }

    /// Returns the destination square of the move in the format (_file_, _rank_).
    pub fn to_square(&self) -> (r: (char, char))
        requires
            self.1 < 64,
        ensures
            r.0 == helpers::file_char(helpers::file_of(self.1 as int)),
            r.1 == helpers::rank_char(helpers::rank_of(self.1 as int)),
    {
        helpers::idx_to_sq(self.1)
    }

    /// Returns the type of special move (castling/promotion/en passant) if
    /// this move is a special move (otherwise `None`).
    pub fn special_move_type(&self) -> (r: Option<SpecialMoveType>)
        ensures
            r == self.2,
    {
        self.2
    }

    /// Creates a `Move` object from its UCI representation.
    pub fn from_uci(uci: &str) -> (r: Result<Self, errors::InvalidUciError>)
        ensures
            r == from_uci_spec(uci@),
            r matches Ok(m) ==> m.0 < 64 && m.1 < 64,
    {
        let uci_len = uci.unicode_len();
        if uci_len != 4 && uci_len != 5 {
            return Err(errors::InvalidUciError::Length);
        }
        let (f0, r0) = (uci.get_char(0), uci.get_char(1));
        let (f1, r1) = (uci.get_char(2), uci.get_char(3));
        if !(('a' <= f0 && f0 <= 'h') && ('1' <= r0 && r0 <= '8')) {
            proof {
                assert(helpers::file_val(f0) < 8 ==> 'a' <= f0 <= 'h');
                assert(helpers::rank_val(r0) < 8 ==> '1' <= r0 <= '8');
            }
            return Err(errors::InvalidUciError::InvalidSquareName(f0, r0));
        }
        proof {
            assert(helpers::file_val(f0) < 8 && helpers::rank_val(r0) < 8);
        }
        if !(('a' <= f1 && f1 <= 'h') && ('1' <= r1 && r1 <= '8')) {
            proof {
                assert(helpers::file_val(f1) < 8 ==> 'a' <= f1 <= 'h');
                assert(helpers::rank_val(r1) < 8 ==> '1' <= r1 <= '8');
            }
            return Err(errors::InvalidUciError::InvalidSquareName(f1, r1));
        }
        proof {
            assert(helpers::file_val(f1) < 8 && helpers::rank_val(r1) < 8);
        }
        let src = helpers::sq_to_idx(f0, r0);
        let dest = helpers::sq_to_idx(f1, r1);
        if uci_len == 5 {
            let p = uci.get_char(4);
            match PieceType::try_from_char(p) {
                Ok(t) => {
                    if matches!(t, PieceType::K) {
                        Err(errors::InvalidUciError::InvalidPieceType(p))
                    } else {
                        Ok(Move(src, dest, Some(SpecialMoveType::Promotion(t))))
                    }
                },
                Err(_) => Err(errors::InvalidUciError::InvalidPieceType(p)),
            }
        } else {
            Ok(Move(src, dest, Some(SpecialMoveType::Unclear)))
        }
    }

    /// Returns the UCI representation of the move.
    pub fn to_uci(&self) -> (r: String)
        requires
            self.0 < 64,
            self.1 < 64,
        ensures
            r@ == to_uci_spec(*self),
    {
        let (srcf, srcr) = helpers::idx_to_sq(self.0);
        let (destf, destr) = helpers::idx_to_sq(self.1);
        let mut s = String::new();
        strutil::push_char(&mut s, srcf);
        strutil::push_char(&mut s, srcr);
        strutil::push_char(&mut s, destf);
        strutil::push_char(&mut s, destr);
        match self.2 {
            Some(SpecialMoveType::Promotion(t)) => {
                strutil::push_char(&mut s, t.to_char_lower());
            },
            _ => {},
        }
        proof {
            assert(s@ =~= to_uci_spec(*self));
        }
        s
    }
}

/// Represents types of wins.
#[derive(Eq, PartialEq, Structural, Hash, Copy, Clone, Debug)]
pub enum WinType {
    Checkmate,
    /// A loss by timeout is also considered a resignation.
    Resignation,
}

/// Represents types of draws.
#[derive(Eq, PartialEq, Structural, Hash, Copy, Clone, Debug)]
pub enum DrawType {
    FivefoldRepetition,
    SeventyFiveMoveRule,
    /// Represents a stalemate, with the tuple value being the side in stalemate.
    Stalemate(Color),
    InsufficientMaterial,
    /// A claimed draw and a draw by timeout vs. insufficient checkmating
    /// material are also considered a draw by agreement.
    Agreement,
}

/// Represents game results.
#[derive(Eq, PartialEq, Structural, Hash, Copy, Clone, Debug)]
pub enum GameResult {
    Wins(Color, WinType),
    Draw(DrawType),
}

/// Converts a square index (`0..64`) to a square name, returning an error if the square index is invalid.
pub fn idx_to_sq(idx: usize) -> (r: Result<(char, char), InvalidSquareIndexError>)
    ensures
        match r {
            Ok(sq) => idx < 64 && sq.0 == helpers::file_char(helpers::file_of(idx as int)) && sq.1
                == helpers::rank_char(helpers::rank_of(idx as int)),
            Err(e) => idx >= 64 && e == (InvalidSquareIndexError(idx)),
        },
{
    if idx >= 64 {
        return Err(InvalidSquareIndexError(idx));
    }
    Ok(helpers::idx_to_sq(idx))
}

/// Converts a square name to a square index, returning an error if the square
/// name is invalid: the file must be 'a' to 'h' and the rank '1' to '8'.
pub fn sq_to_idx(file: char, rank: char) -> (r: Result<usize, InvalidSquareNameError>)
    ensures
        match r {
            Ok(sq) => 'a' <= file <= 'h' && '1' <= rank <= '8' && sq == helpers::sq_index(
                file,
                rank,
            ),
            Err(e) => !('a' <= file <= 'h' && '1' <= rank <= '8') && e == (InvalidSquareNameError(
                file,
                rank,
            )),
        },
{
    if !('a' <= file && file <= 'h' && '1' <= rank && rank <= '8') {
        return Err(InvalidSquareNameError(file, rank));
    }
    proof {
        assert(helpers::file_val(file) < 8 && helpers::rank_val(rank) < 8);
    }
    Ok(helpers::sq_to_idx(file, rank))
}

} // verus!
