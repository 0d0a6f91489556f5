//! Square arithmetic and board-content helpers.
//!
//! A square index is a number `0..64` where `a1` is 0, `h1` is 7 and `h8` is
//! 63 (rank-major from a1). A board is a 64-slot sequence of optional pieces.

use vstd::prelude::*;
use crate::{Color, Move, Piece, PieceType, SpecialMoveType};

verus! {

/// The file (0..8) of a square index, 0 being the a-file.
pub open spec fn file_of(sq: int) -> int {
    sq % 8
}

/// The rank (0..8) of a square index, 0 being the first rank.
pub open spec fn rank_of(sq: int) -> int {
    sq / 8
}

/// The file letter of a file number.
pub open spec fn file_char(f: int) -> char {
    if f == 0 {
        'a'
    } else if f == 1 {
        'b'
    } else if f == 2 {
        'c'
    } else if f == 3 {
        'd'
    } else if f == 4 {
        'e'
    } else if f == 5 {
        'f'
    } else if f == 6 {
        'g'
    } else if f == 7 {
        'h'
    } else {
        ' '
    }
}

/// The rank digit of a rank number.
pub open spec fn rank_char(r: int) -> char {
    if r == 0 {
        '1'
    } else if r == 1 {
        '2'
    } else if r == 2 {
        '3'
    } else if r == 3 {
        '4'
    } else if r == 4 {
        '5'
    } else if r == 5 {
        '6'
    } else if r == 6 {
        '7'
    } else if r == 7 {
        '8'
    } else {
        ' '
    }
}

/// The file number of a file letter, or 8 if the letter names no file.
pub open spec fn file_val(c: char) -> int {
    if c == 'a' {
        0
    } else if c == 'b' {
        1
    } else if c == 'c' {
        2
    } else if c == 'd' {
        3
    } else if c == 'e' {
        4
    } else if c == 'f' {
        5
    } else if c == 'g' {
        6
    } else if c == 'h' {
        7
    } else {
        8
    }
}

/// The rank number of a rank digit, or 8 if the digit names no rank.
pub open spec fn rank_val(c: char) -> int {
    if c == '1' {
        0
    } else if c == '2' {
        1
    } else if c == '3' {
        2
    } else if c == '4' {
        3
    } else if c == '5' {
        4
    } else if c == '6' {
        5
    } else if c == '7' {
        6
    } else if c == '8' {
        7
    } else {
        8
    }
}

/// The square index named by a file letter and a rank digit.
pub open spec fn sq_index(file: char, rank: char) -> int {
    rank_val(rank) * 8 + file_val(file)
}

/// The file number of a file letter, as an executable function.
pub fn file_index(c: char) -> (r: usize)
    requires
        file_val(c) < 8,
    ensures
        r == file_val(c),
{
    match c {
        'a' => 0,
        'b' => 1,
        'c' => 2,
        'd' => 3,
        'e' => 4,
        'f' => 5,
        'g' => 6,
        _ => 7,
    }
}

/// The rank number of a rank digit, as an executable function.
pub fn rank_index(c: char) -> (r: usize)
    requires
        rank_val(c) < 8,
    ensures
        r == rank_val(c),
{
    match c {
        '1' => 0,
        '2' => 1,
        '3' => 2,
        '4' => 3,
        '5' => 4,
        '6' => 5,
        '7' => 6,
        _ => 7,
    }
}

/// Converts a square name in the format (file, rank) to a square index.
pub fn sq_to_idx(file: char, rank: char) -> (r: usize)
    requires
        file_val(file) < 8,
        rank_val(rank) < 8,
    ensures
        r == sq_index(file, rank),
        r < 64,
{
    rank_index(rank) * 8 + file_index(file)
}

/// Converts a square index to a square name in the format (file, rank).
pub fn idx_to_sq(idx: usize) -> (r: (char, char))
    requires
        idx < 64,
    ensures
        r.0 == file_char(file_of(idx as int)),
        r.1 == rank_char(rank_of(idx as int)),
{
    let f = idx % 8;
    let rk = idx / 8;
    let fc = match f {
        0 => 'a',
        1 => 'b',
        2 => 'c',
        3 => 'd',
        4 => 'e',
        5 => 'f',
        6 => 'g',
        _ => 'h',
    };
    let rc = match rk {
        0 => '1',
        1 => '2',
        2 => '3',
        3 => '4',
        4 => '5',
        5 => '6',
        6 => '7',
        _ => '8',
    };
    (fc, rc)
}

/// Whether one sliding step from `sq` along the direction `dir` stays on the
/// board (does not wrap around an edge). The directions are +-1 (file),
/// +-8 (rank), and +-7/+-9 (the diagonals).
pub open spec fn can_step(sq: int, dir: int) -> bool {
    !(dir == 1 && (sq + 1) % 8 == 0 || dir == -1 && sq % 8 == 0 || dir == 8 && sq >= 56 || dir == -8
        && sq < 8 || dir == 7 && (sq >= 56 || sq % 8 == 0) || dir == -7 && (sq < 8 || (sq + 1) % 8
        == 0) || dir == 9 && (sq >= 56 || (sq + 1) % 8 == 0) || dir == -9 && (sq < 8 || sq % 8
        == 0))
}

/// A step that stays on the board lands on a square index in `0..64`.
pub proof fn lemma_can_step_in_bounds(sq: int, dir: int)
    requires
        0 <= sq < 64,
        dir == 1 || dir == -1 || dir == 8 || dir == -8 || dir == 7 || dir == -7 || dir == 9 || dir
            == -9,
        can_step(sq, dir),
    ensures
        0 <= sq + dir < 64,
{
}

/// Checks whether a long-range piece can move on the axis `axis_direction`
/// from the square `sq`.
pub fn long_range_can_move(sq: usize, axis_direction: isize) -> (r: bool)
    requires
        sq < 64,
    ensures
        r == can_step(sq as int, axis_direction as int),
{
    !(axis_direction == 1 && (sq + 1) % 8 == 0 || axis_direction == -1 && sq % 8 == 0
        || axis_direction == 8 && sq >= 56 || axis_direction == -8 && sq < 8 || axis_direction == 7
        && (sq >= 56 || sq % 8 == 0) || axis_direction == -7 && (sq < 8 || (sq + 1) % 8 == 0)
        || axis_direction == 9 && (sq >= 56 || (sq + 1) % 8 == 0) || axis_direction == -9 && (sq < 8
        || sq % 8 == 0))
}

/// The number of pieces equal to `piece` on the squares `lo..hi`.
pub open spec fn count_piece_in(content: Seq<Option<Piece>>, piece: Piece, lo: int, hi: int) -> int
    decreases hi - lo,
{
    if lo >= hi {
        0
    } else {
        count_piece_in(content, piece, lo, hi - 1) + if content[hi - 1] == Some(piece) {
            1int
        } else {
            0int
        }
    }
}

/// The number of occupied squares among the squares `lo..hi`.
pub open spec fn count_occupied_in(content: Seq<Option<Piece>>, lo: int, hi: int) -> int
    decreases hi - lo,
{
    if lo >= hi {
        0
    } else {
        count_occupied_in(content, lo, hi - 1) + if content[hi - 1] is Some {
            1int
        } else {
            0int
        }
    }
}

/// The squares among `lo..hi` that hold a piece equal to `piece`, in order.
pub open spec fn piece_squares_in(content: Seq<Option<Piece>>, piece: Piece, lo: int, hi: int) -> Seq<usize>
    decreases hi - lo,
{
    if lo >= hi {
        Seq::empty()
    } else {
        piece_squares_in(content, piece, lo, hi - 1) + if content[hi - 1] == Some(piece) {
            seq![(hi - 1) as usize]
        } else {
            Seq::empty()
        }
    }
}

/// The occupied squares among `lo..hi`, in order.
pub open spec fn occupied_squares_in(content: Seq<Option<Piece>>, lo: int, hi: int) -> Seq<usize>
    decreases hi - lo,
{
    if lo >= hi {
        Seq::empty()
    } else {
        occupied_squares_in(content, lo, hi - 1) + if content[hi - 1] is Some {
            seq![(hi - 1) as usize]
        } else {
            Seq::empty()
        }
    }
}

/// Checks whether two occupants are equal.
pub fn occupant_eq(a: Option<Piece>, b: Option<Piece>) -> (r: bool)
    ensures
        r == (a == b),
{
    match (a, b) {
        (None, None) => true,
        (Some(x), Some(y)) => x == y,
        _ => false,
    }
}

/// Counts the pieces identical to `piece` on the squares `lo..hi`.
pub fn count_piece(lo: usize, hi: usize, piece: Piece, content: &Vec<Option<Piece>>) -> (r: usize)
    requires
        hi <= content@.len(),
        count_piece_in(content@, piece, lo as int, hi as int) <= usize::MAX,
    ensures
        r == count_piece_in(content@, piece, lo as int, hi as int),
{
    proof {
        lemma_count_piece_in_bounds(content@, piece, lo as int, hi as int);
    }
    let mut n: usize = 0;
    let mut i: usize = lo;
    while i < hi
        invariant
            lo <= i <= hi || (i == lo && lo >= hi),
            hi <= content@.len(),
            n == count_piece_in(content@, piece, lo as int, i as int),
            count_piece_in(content@, piece, lo as int, hi as int) <= usize::MAX,
        decreases hi - i,
    {
        proof {
            lemma_count_piece_in_monotonic(content@, piece, lo as int, i + 1, hi as int);
        }
        if occupant_eq(content[i], Some(piece)) {
            n = n + 1;
        }
        i = i + 1;
    }
    n
}

/// A count over a range is at least zero.
pub proof fn lemma_count_piece_in_bounds(
    content: Seq<Option<Piece>>,
    piece: Piece,
    lo: int,
    hi: int,
)
    ensures
        0 <= count_piece_in(content, piece, lo, hi),
    decreases hi - lo,
{
    if lo < hi {
        lemma_count_piece_in_bounds(content, piece, lo, hi - 1);
    }
}

/// A count over a range grows with the range.
pub proof fn lemma_count_piece_in_monotonic(
    content: Seq<Option<Piece>>,
    piece: Piece,
    lo: int,
    mid: int,
    hi: int,
)
    requires
        mid <= hi,
    ensures
        count_piece_in(content, piece, lo, mid) <= count_piece_in(content, piece, lo, hi),
    decreases hi - mid,
{
    if mid < hi {
        lemma_count_piece_in_monotonic(content, piece, lo, mid, hi - 1);
        lemma_count_piece_in_bounds(content, piece, lo, hi);
    }
}

/// Counts the occupied squares among the squares `lo..hi`.
pub fn count_pieces(lo: usize, hi: usize, content: &Vec<Option<Piece>>) -> (r: usize)
    requires
        hi <= content@.len(),
        count_occupied_in(content@, lo as int, hi as int) <= usize::MAX,
    ensures
        r == count_occupied_in(content@, lo as int, hi as int),
{
    proof {
        lemma_count_occupied_in_bounds(content@, lo as int, hi as int);
    }
    let mut n: usize = 0;
    let mut i: usize = lo;
    while i < hi
        invariant
            lo <= i <= hi || (i == lo && lo >= hi),
            hi <= content@.len(),
            n == count_occupied_in(content@, lo as int, i as int),
            count_occupied_in(content@, lo as int, hi as int) <= usize::MAX,
        decreases hi - i,
    {
        proof {
            lemma_count_occupied_in_monotonic(content@, lo as int, i + 1, hi as int);
        }
        if content[i].is_some() {
            n = n + 1;
        }
        i = i + 1;
    }
    n
}

/// An occupancy count over a range is at least zero.
pub proof fn lemma_count_occupied_in_bounds(content: Seq<Option<Piece>>, lo: int, hi: int)
    ensures
        0 <= count_occupied_in(content, lo, hi),
    decreases hi - lo,
{
    if lo < hi {
        lemma_count_occupied_in_bounds(content, lo, hi - 1);
    }
}

/// An occupancy count over a range grows with the range.
pub proof fn lemma_count_occupied_in_monotonic(
    content: Seq<Option<Piece>>,
    lo: int,
    mid: int,
    hi: int,
)
    requires
        mid <= hi,
    ensures
        count_occupied_in(content, lo, mid) <= count_occupied_in(content, lo, hi),
    decreases hi - mid,
{
    if mid < hi {
        lemma_count_occupied_in_monotonic(content, lo, mid, hi - 1);
        lemma_count_occupied_in_bounds(content, lo, hi);
    }
}

/// A piece count over a range is at most the size of the range.
pub proof fn lemma_count_piece_in_le(content: Seq<Option<Piece>>, piece: Piece, lo: int, hi: int)
    ensures
        count_piece_in(content, piece, lo, hi) <= if hi >= lo {
            hi - lo
        } else {
            0
        },
        count_piece_in(content, piece, lo, hi) >= 0,
    decreases hi - lo,
{
    if lo < hi {
        lemma_count_piece_in_le(content, piece, lo, hi - 1);
    }
}

/// A positive piece count means some square in the range holds the piece.
pub proof fn lemma_count_piece_pos_exists(
    content: Seq<Option<Piece>>,
    piece: Piece,
    lo: int,
    hi: int,
)
    requires
        count_piece_in(content, piece, lo, hi) > 0,
    ensures
        exists|i: int| lo <= i < hi && content[i] == Some(piece),
    decreases hi - lo,
{
    if lo < hi {
        if content[hi - 1] == Some(piece) {
            assert(lo <= hi - 1 < hi && content[hi - 1] == Some(piece));
        } else {
            lemma_count_piece_pos_exists(content, piece, lo, hi - 1);
        }
    }
}

/// The matching-squares list has the piece count as its length, and every
/// listed square lies in the range and holds the piece.
pub proof fn lemma_piece_squares_count(
    content: Seq<Option<Piece>>,
    piece: Piece,
    lo: int,
    hi: int,
)
    requires
        0 <= lo,
        hi <= usize::MAX,
    ensures
        piece_squares_in(content, piece, lo, hi).len() == count_piece_in(content, piece, lo, hi),
        forall|k: int|
            0 <= k < piece_squares_in(content, piece, lo, hi).len() ==> lo <= piece_squares_in(
                content,
                piece,
                lo,
                hi,
            )[k] < hi && content[piece_squares_in(content, piece, lo, hi)[k] as int] == Some(piece),
    decreases hi - lo,
{
    lemma_count_piece_in_le(content, piece, lo, hi);
    if lo < hi {
        lemma_piece_squares_count(content, piece, lo, hi - 1);
        let pre = piece_squares_in(content, piece, lo, hi - 1);
        let full = piece_squares_in(content, piece, lo, hi);
        if content[hi - 1] == Some(piece) {
            assert(full == pre + seq![(hi - 1) as usize]);
            assert forall|k: int|
                0 <= k < full.len() implies lo <= full[k] < hi && content[full[k] as int] == Some(
                piece,
            ) by {
                if k < pre.len() {
                    assert(full[k] == pre[k]);
                } else {
                    assert(full[k] == (hi - 1) as usize);
                }
            }
        } else {
            assert(full =~= pre);
        }
    }
}

/// An occupancy count over a range is at most the size of the range.
pub proof fn lemma_count_occupied_le(content: Seq<Option<Piece>>, lo: int, hi: int)
    ensures
        count_occupied_in(content, lo, hi) <= if hi >= lo {
            hi - lo
        } else {
            0
        },
        count_occupied_in(content, lo, hi) >= 0,
    decreases hi - lo,
{
    if lo < hi {
        lemma_count_occupied_le(content, lo, hi - 1);
    }
}

/// The occupied-squares list has the occupancy count as its length, and
/// every listed square lies in the range and is occupied.
pub proof fn lemma_occupied_squares_count(content: Seq<Option<Piece>>, lo: int, hi: int)
    requires
        0 <= lo,
        hi <= usize::MAX,
    ensures
        occupied_squares_in(content, lo, hi).len() == count_occupied_in(content, lo, hi),
        forall|k: int|
            0 <= k < occupied_squares_in(content, lo, hi).len() ==> lo <= occupied_squares_in(
                content,
                lo,
                hi,
            )[k] < hi && content[occupied_squares_in(content, lo, hi)[k] as int] is Some,
    decreases hi - lo,
{
    lemma_count_occupied_le(content, lo, hi);
    if lo < hi {
        lemma_occupied_squares_count(content, lo, hi - 1);
        let pre = occupied_squares_in(content, lo, hi - 1);
        let full = occupied_squares_in(content, lo, hi);
        if content[hi - 1] is Some {
            assert(full == pre + seq![(hi - 1) as usize]);
            assert forall|k: int|
                0 <= k < full.len() implies lo <= full[k] < hi && content[full[k] as int] is Some by {
                if k < pre.len() {
                    assert(full[k] == pre[k]);
                } else {
                    assert(full[k] == (hi - 1) as usize);
                }
            }
        } else {
            assert(full =~= pre);
        }
    }
}

/// Finds the indices of all occurrences of a piece identical to the given
/// `piece` on the board in the square range `lo..hi`.
pub fn find_pieces(piece: Piece, lo: usize, hi: usize, content: &Vec<Option<Piece>>) -> (r: Vec<
    usize,
>)
    requires
        hi <= content@.len(),
    ensures
        r@ == piece_squares_in(content@, piece, lo as int, hi as int),
{
    let mut v: Vec<usize> = Vec::new();
    let mut i: usize = lo;
    while i < hi
        invariant
            lo <= i <= hi || (i == lo && lo >= hi),
            hi <= content@.len(),
            v@ == piece_squares_in(content@, piece, lo as int, i as int),
        decreases hi - i,
    {
        if occupant_eq(content[i], Some(piece)) {
            v.push(i);
        }
        i = i + 1;
    }
    v
}

/// Finds the indices of all occupied squares on the board in the square
/// range `lo..hi`.
pub fn find_all_pieces(lo: usize, hi: usize, content: &Vec<Option<Piece>>) -> (r: Vec<usize>)
    requires
        hi <= content@.len(),
    ensures
        r@ == occupied_squares_in(content@, lo as int, hi as int),
{
    let mut v: Vec<usize> = Vec::new();
    let mut i: usize = lo;
    while i < hi
        invariant
            lo <= i <= hi || (i == lo && lo >= hi),
            hi <= content@.len(),
            v@ == occupied_squares_in(content@, lo as int, i as int),
        decreases hi - i,
    {
        if content[i].is_some() {
            v.push(i);
        }
        i = i + 1;
    }
    v
}

/// The square of the first king of color `color` on the board from square
/// `i` upward, or 64 if there is none.
pub open spec fn king_sq_from(content: Seq<Option<Piece>>, color: Color, i: int) -> int
    decreases 64 - i,
{
    if i < 0 || i >= 64 {
        64
    } else if content[i] == Some(Piece(PieceType::K, color)) {
        i
    } else {
        king_sq_from(content, color, i + 1)
    }
}

/// The square of the first king of color `color` on the board, or 64 if
/// there is none.
pub open spec fn king_sq(content: Seq<Option<Piece>>, color: Color) -> int {
    king_sq_from(content, color, 0)
}

/// Whether the board holds a king of color `color`.
pub open spec fn has_king(content: Seq<Option<Piece>>, color: Color) -> bool {
    exists|i: int| 0 <= i < 64 && content[i] == Some(Piece(PieceType::K, color))
}

/// Skipping squares that do not hold the king does not change the search.
proof fn lemma_king_sq_skip(content: Seq<Option<Piece>>, color: Color, i: int, j: int)
    requires
        0 <= i <= j <= 64,
        forall|k: int| i <= k < j ==> content[k] != Some(Piece(PieceType::K, color)),
    ensures
        king_sq_from(content, color, i) == king_sq_from(content, color, j),
    decreases j - i,
{
    if i < j {
        lemma_king_sq_skip(content, color, i + 1, j);
    }
}

/// The first-king search finds a king where one exists, and its result is
/// always a king square or 64.
pub proof fn lemma_king_sq_properties(content: Seq<Option<Piece>>, color: Color, i: int)
    requires
        0 <= i <= 64,
    ensures
        i <= king_sq_from(content, color, i) <= 64,
        king_sq_from(content, color, i) < 64 ==> content[king_sq_from(content, color, i)] == Some(
            Piece(PieceType::K, color),
        ),
        (exists|j: int| i <= j < 64 && content[j] == Some(Piece(PieceType::K, color)))
            <==> king_sq_from(content, color, i) < 64,
    decreases 64 - i,
{
    if i < 64 {
        lemma_king_sq_properties(content, color, i + 1);
    }
}

/// Returns the square index of the first king of color `color`, or 64 if no
/// king of that color is on the board.
pub fn find_king(color: Color, content: &Vec<Option<Piece>>) -> (r: usize)
    requires
        content@.len() == 64,
    ensures
        r == king_sq(content@, color),
        r <= 64,
        r < 64 ==> content@[r as int] == Some(Piece(PieceType::K, color)),
        (r < 64) == has_king(content@, color),
{
    proof {
        lemma_king_sq_properties(content@, color, 0);
    }
    let mut i: usize = 0;
    while i < 64
        invariant
            0 <= i <= 64,
            content@.len() == 64,
            forall|k: int| 0 <= k < i ==> content@[k] != Some(Piece(PieceType::K, color)),
        decreases 64 - i,
    {
        if occupant_eq(content[i], Some(Piece(PieceType::K, color))) {
            proof {
                lemma_king_sq_skip(content@, color, 0, i as int);
            }
            return i;
        }
        i = i + 1;
    }
    proof {
        lemma_king_sq_skip(content@, color, 0, 64);
    }
    64
}

/// Checks whether `sq` is a light square: the light color complex holds the
/// squares whose file and rank numbers have different parity.
pub fn color_complex_of(sq: usize) -> (r: bool)
    requires
        sq < 64,
    ensures
        r == is_light(sq as int),
{
    (sq % 8 + sq / 8) % 2 == 1
}

/// Whether a square belongs to the light color complex.
pub open spec fn is_light(sq: int) -> bool {
    (file_of(sq) + rank_of(sq)) % 2 == 1
}

/// Returns a list of the indices of all the squares in a file, bottom to top.
pub fn squares_in_file(file: char) -> (r: Vec<usize>)
    requires
        file_val(file) < 8,
    ensures
        r@.len() == 8,
        forall|i: int| 0 <= i < 8 ==> r@[i] == file_val(file) + 8 * i,
{
    let mut v: Vec<usize> = Vec::new();
    let bottom = file_index(file);
    let mut i: usize = 0;
    while i < 8
        invariant
            0 <= i <= 8,
            bottom == file_val(file) < 8,
            v@.len() == i,
            forall|j: int| 0 <= j < i ==> v@[j] == file_val(file) + 8 * j,
        decreases 8 - i,
    {
        v.push(bottom + 8 * i);
        i = i + 1;
    }
    v
}

/// Returns a list of the indices of all the squares on a rank, left to right.
pub fn squares_in_rank(rank: char) -> (r: Vec<usize>)
    requires
        rank_val(rank) < 8,
    ensures
        r@.len() == 8,
        forall|i: int| 0 <= i < 8 ==> r@[i] == 8 * rank_val(rank) + i,
{
    let mut v: Vec<usize> = Vec::new();
    let left = 8 * rank_index(rank);
    let mut i: usize = 0;
    while i < 8
        invariant
            0 <= i <= 8,
            left == 8 * rank_val(rank) <= 56,
            v@.len() == i,
            forall|j: int| 0 <= j < i ==> v@[j] == 8 * rank_val(rank) + j,
        decreases 8 - i,
    {
        v.push(left + i);
        i = i + 1;
    }
    v
}

/// Copies a board content vector.
pub fn copy_occupants(content: &Vec<Option<Piece>>) -> (r: Vec<Option<Piece>>)
    ensures
        r@ == content@,
{
    let mut v: Vec<Option<Piece>> = Vec::new();
    let mut i: usize = 0;
    while i < content.len()
        invariant
            0 <= i <= content@.len(),
            v@ == content@.subrange(0, i as int),
        decreases content@.len() - i,
    {
        v.push(content[i]);
        proof {
            assert(v@ =~= content@.subrange(0, i + 1));
        }
        i = i + 1;
    }
    proof {
        assert(content@.subrange(0, content@.len() as int) =~= content@);
    }
    v
}

/// Copies a list of moves.
pub fn copy_moves(moves: &Vec<Move>) -> (r: Vec<Move>)
    ensures
        r@ == moves@,
{
    let mut v: Vec<Move> = Vec::new();
    let mut i: usize = 0;
    while i < moves.len()
        invariant
            0 <= i <= moves@.len(),
            v@ == moves@.subrange(0, i as int),
        decreases moves@.len() - i,
    {
        v.push(moves[i]);
        proof {
            assert(v@ =~= moves@.subrange(0, i + 1));
        }
        i = i + 1;
    }
    proof {
        assert(moves@.subrange(0, moves@.len() as int) =~= moves@);
    }
    v
}

/// What `change_content` needs of its inputs so that every index it touches
/// is on the board: a castling move must target the fixed castling square of
/// one side with that side's castling right present, and an en-passant move
/// must target the third or sixth rank.
pub open spec fn change_content_pre(
    content: Seq<Option<Piece>>,
    m: Move,
    rights: Seq<Option<usize>>,
) -> bool {
    &&& content.len() == 64
    &&& rights.len() == 4
    &&& m.0 < 64
    &&& m.1 < 64
    &&& ((m.2 == Some(SpecialMoveType::CastlingKingside) || m.2 == Some(
        SpecialMoveType::CastlingQueenside,
    )) ==> {
        ||| m.1 == 6 && rights[0] is Some && rights[0]->0 < 64
        ||| m.1 == 2 && rights[1] is Some && rights[1]->0 < 64
        ||| m.1 == 62 && rights[2] is Some && rights[2]->0 < 64
        ||| m.1 == 58 && rights[3] is Some && rights[3]->0 < 64
    })
    &&& (m.2 == Some(SpecialMoveType::EnPassant) ==> (16 <= m.1 < 24 || 40 <= m.1 < 48))
}

/// The board content after a move: the moved piece leaves its source square
/// and replaces the occupant of its destination; a castling move also moves
/// the rook named by the castling right to its fixed target square; an
/// en-passant move removes the passed pawn; a promotion changes the moved
/// piece's type.
pub open spec fn change_content_spec(
    content: Seq<Option<Piece>>,
    m: Move,
    rights: Seq<Option<usize>>,
) -> Seq<Option<Piece>> {
    let base = content.update(m.0 as int, None).update(m.1 as int, content[m.0 as int]);
    match m.2 {
        Some(SpecialMoveType::CastlingKingside) | Some(SpecialMoveType::CastlingQueenside) => {
            if m.1 == 6 {
                let kr = rights[0]->0 as int;
                base.update(kr, None).update(5, base[kr])
            } else if m.1 == 2 {
                let qr = rights[1]->0 as int;
                base.update(qr, None).update(3, base[qr])
            } else if m.1 == 62 {
                let kr = rights[2]->0 as int;
                base.update(kr, None).update(61, base[kr])
            } else {
                let qr = rights[3]->0 as int;
                base.update(qr, None).update(59, base[qr])
            }
        },
        Some(SpecialMoveType::EnPassant) => {
            if 16 <= m.1 < 24 {
                base.update(m.1 + 8, None)
            } else {
                base.update(m.1 - 8, None)
            }
        },
        Some(SpecialMoveType::Promotion(piece_type)) => {
            match base[m.1 as int] {
                Some(p) => base.update(m.1 as int, Some(Piece(piece_type, p.1))),
                None => base,
            }
        },
        _ => base,
    }
}

/// Changes the board content based on the given move.
pub fn change_content(
    content: &Vec<Option<Piece>>,
    move_: &Move,
    castling_rights: &Vec<Option<usize>>,
) -> (r: Vec<Option<Piece>>)
    requires
        change_content_pre(content@, *move_, castling_rights@),
    ensures
        r@ == change_content_spec(content@, *move_, castling_rights@),
{
    let mut c = copy_occupants(content);
    let src = move_.0;
    let dest = move_.1;
    let src_occ = c[src];
    c.set(src, None);
    c.set(dest, src_occ);
    match move_.2 {
        Some(SpecialMoveType::CastlingKingside) | Some(SpecialMoveType::CastlingQueenside) => {
            if dest == 6 {
                let krook = castling_rights[0].unwrap();
                let rook = c[krook];
                c.set(krook, None);
                c.set(5, rook);
            } else if dest == 2 {
                let qrook = castling_rights[1].unwrap();
                let rook = c[qrook];
                c.set(qrook, None);
                c.set(3, rook);
            } else if dest == 62 {
                let krook = castling_rights[2].unwrap();
                let rook = c[krook];
                c.set(krook, None);
                c.set(61, rook);
            } else {
                let qrook = castling_rights[3].unwrap();
                let rook = c[qrook];
                c.set(qrook, None);
                c.set(59, rook);
            }
        },
        Some(SpecialMoveType::EnPassant) => {
            if dest >= 16 && dest < 24 {
                c.set(dest + 8, None);
            } else {
                c.set(dest - 8, None);
            }
        },
        Some(SpecialMoveType::Promotion(piece_type)) => {
            match c[dest] {
                Some(p) => {
                    c.set(dest, Some(Piece(piece_type, p.1)));
                },
                None => {},
            }
        },
        _ => {},
    }
    c
}

/// The first move of `legal` from index `i` on that shares the source and
/// destination of `m` and is not a promotion, if any.
pub open spec fn find_unclear_from(m: Move, legal: Seq<Move>, i: int) -> Option<Move>
    decreases legal.len() - i,
{
    if i < 0 || i >= legal.len() {
        None
    } else if legal[i].0 == m.0 && legal[i].1 == m.1 && !(legal[i].2 matches Some(
        SpecialMoveType::Promotion(_),
    )) {
        Some(legal[i])
    } else {
        find_unclear_from(m, legal, i + 1)
    }
}

/// Resolution of an input move against a legal-move list: a member of the
/// list resolves to itself; a move tagged `Unclear` resolves to the first
/// legal non-promotion move with the same source and destination; anything
/// else does not resolve.
pub open spec fn as_legal_spec(m: Move, legal: Seq<Move>) -> Option<Move> {
    if legal.contains(m) {
        Some(m)
    } else if m.2 == Some(SpecialMoveType::Unclear) {
        find_unclear_from(m, legal, 0)
    } else {
        None
    }
}

/// Skipping non-matching moves does not change the first-match search.
proof fn lemma_find_unclear_skip(m: Move, legal: Seq<Move>, i: int, j: int)
    requires
        0 <= i <= j <= legal.len(),
        forall|k: int|
            i <= k < j ==> !(legal[k].0 == m.0 && legal[k].1 == m.1 && !(legal[k].2 matches Some(
                SpecialMoveType::Promotion(_),
            ))),
    ensures
        find_unclear_from(m, legal, i) == find_unclear_from(m, legal, j),
    decreases j - i,
{
    if i < j {
        lemma_find_unclear_skip(m, legal, i + 1, j);
    }
}

/// Resolves an input move against the legal-move list `legal`: a member of
/// the list is returned unchanged, and a move tagged `Unclear` resolves to
/// the first legal non-promotion move with the same source and destination.
pub fn as_legal(move_: Move, legal: &Vec<Move>) -> (r: Option<Move>)
    ensures
        r == as_legal_spec(move_, legal@),
{
    let mut i: usize = 0;
    while i < legal.len()
        invariant
            0 <= i <= legal@.len(),
            forall|k: int| 0 <= k < i ==> legal@[k] != move_,
        decreases legal@.len() - i,
    {
        if move_eq(&legal[i], &move_) {
            proof {
                assert(legal@.contains(move_)) by {
                    assert(legal@[i as int] == move_);
                }
            }
            return Some(move_);
        }
        i = i + 1;
    }
    assert(!legal@.contains(move_));
    let unclear = match move_.2 {
        Some(SpecialMoveType::Unclear) => true,
        _ => false,
    };
    if !unclear {
        return None;
    }
    let mut j: usize = 0;
    while j < legal.len()
        invariant
            0 <= j <= legal@.len(),
            move_.2 == Some(SpecialMoveType::Unclear),
            !legal@.contains(move_),
            forall|k: int|
                0 <= k < j ==> !(legal@[k].0 == move_.0 && legal@[k].1 == move_.1 && !(
                legal@[k].2 matches Some(SpecialMoveType::Promotion(_)))),
        decreases legal@.len() - j,
    {
        let cand = legal[j];
        let is_promo = matches!(cand.2, Some(SpecialMoveType::Promotion(_)));
        if cand.0 == move_.0 && cand.1 == move_.1 && !is_promo {
            proof {
                lemma_find_unclear_skip(move_, legal@, 0, j as int);
                assert(find_unclear_from(move_, legal@, j as int) == Some(legal@[j as int]));
            }
            return Some(cand);
        }
        j = j + 1;
    }
    proof {
        lemma_find_unclear_skip(move_, legal@, 0, legal@.len() as int);
    }
    None
}

/// Checks whether two moves are equal.
pub fn move_eq(a: &Move, b: &Move) -> (r: bool)
    ensures
        r == (*a == *b),
{
    proof {
        assert(*a == Move(a.0, a.1, a.2));
        assert(*b == Move(b.0, b.1, b.2));
    }
    a.0 == b.0 && a.1 == b.1 && (match (a.2, b.2) {
        (None, None) => true,
        (Some(x), Some(y)) => x == y,
        _ => false,
    })
}

} // verus!
