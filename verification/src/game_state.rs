use crate::chess::{
    first_holding, lemma_disjoint_from_squares, lemma_disjoint_squares,
    lemma_first_holding_range, lemma_first_holding_same, lemma_only_holder, toggle_first,
    toggle_first_holding, BoardModel,
};
use crate::common::bits::{self, occupies, square_at, square_bit};
use crate::common::{PieceColor, PieceType as Kind};
use vstd::prelude::*;

verus! {

/// A square's content: a piece of either colour, or nothing.
#[derive(Debug, Clone, Copy, PartialEq, Eq, Structural)]
pub enum PieceType {
    WhitePawn,
    WhiteRook,
    WhiteKnight,
    WhiteBishop,
    WhiteQueen,
    WhiteKing,
    BlackPawn,
    BlackRook,
    BlackKnight,
    BlackBishop,
    BlackQueen,
    BlackKing,
    Empty,
}

/// The chess symbol of a square's content.
pub open spec fn symbol_of(p: PieceType) -> char {
    match p {
        PieceType::WhitePawn => '\u{2659}',
        PieceType::WhiteRook => '\u{2656}',
        PieceType::WhiteKnight => '\u{2658}',
        PieceType::WhiteBishop => '\u{2657}',
        PieceType::WhiteQueen => '\u{2655}',
        PieceType::WhiteKing => '\u{2654}',
        PieceType::BlackPawn => '\u{265F}',
        PieceType::BlackRook => '\u{265C}',
        PieceType::BlackKnight => '\u{265E}',
        PieceType::BlackBishop => '\u{265D}',
        PieceType::BlackQueen => '\u{265B}',
        PieceType::BlackKing => '\u{265A}',
        PieceType::Empty => '\u{2810}',
    }
}

impl PieceType {
    /// The Unicode chess symbol of the content (a braille blank when empty).
    pub fn to_char(&self) -> (c: char)
        ensures
            c == symbol_of(*self),
    {
        match self {
            PieceType::WhitePawn => '\u{2659}',
            PieceType::WhiteRook => '\u{2656}',
            PieceType::WhiteKnight => '\u{2658}',
            PieceType::WhiteBishop => '\u{2657}',
            PieceType::WhiteQueen => '\u{2655}',
            PieceType::WhiteKing => '\u{2654}',
            PieceType::BlackPawn => '\u{265F}',
            PieceType::BlackRook => '\u{265C}',
            PieceType::BlackKnight => '\u{265E}',
            PieceType::BlackBishop => '\u{265D}',
            PieceType::BlackQueen => '\u{265B}',
            PieceType::BlackKing => '\u{265A}',
            PieceType::Empty => '\u{2810}',
        }
    }
}

/// A position without move bookkeeping: twelve piece masks (white pawns,
/// rooks, knights, bishops, queens, kings, then the black ones), the
/// special-move byte and the side to move.
#[derive(Default, Clone, Copy)]
pub struct BoardState {
    pieces: [u64; 12],
    special_moves: u8,
    white_to_move: bool,
}

impl View for BoardState {
    type V = BoardModel;

    closed spec fn view(&self) -> BoardModel {
        BoardModel {
            pieces: self.pieces@,
            special_moves: self.special_moves,
            white_to_move: self.white_to_move,
        }
    }
}

/// The content of `square`, looked up in the order pawn, knight, bishop,
/// rook, queen, king, white before black.
pub open spec fn content_at(b: BoardModel, square: int) -> PieceType {
    if occupies(b.pieces[0], square) {
        PieceType::WhitePawn
    } else if occupies(b.pieces[2], square) {
        PieceType::WhiteKnight
    } else if occupies(b.pieces[3], square) {
        PieceType::WhiteBishop
    } else if occupies(b.pieces[1], square) {
        PieceType::WhiteRook
    } else if occupies(b.pieces[4], square) {
        PieceType::WhiteQueen
    } else if occupies(b.pieces[5], square) {
        PieceType::WhiteKing
    } else if occupies(b.pieces[6], square) {
        PieceType::BlackPawn
    } else if occupies(b.pieces[8], square) {
        PieceType::BlackKnight
    } else if occupies(b.pieces[9], square) {
        PieceType::BlackBishop
    } else if occupies(b.pieces[7], square) {
        PieceType::BlackRook
    } else if occupies(b.pieces[10], square) {
        PieceType::BlackQueen
    } else if occupies(b.pieces[11], square) {
        PieceType::BlackKing
    } else {
        PieceType::Empty
    }
}

/// The masks after moving from `s1` to `s2`: the first mask holding `s2`
/// loses it, then the first mask holding `s1` has `s1` and `s2` toggled.
pub open spec fn pieces_after_move(pieces: Seq<u64>, s1: int, s2: int) -> Seq<u64> {
    let captured = toggle_first(pieces, 0, 11, s2, square_bit(s2));
    toggle_first(captured, 0, 11, s1, square_bit(s1) | square_bit(s2))
}

/// The starting masks, special-move byte and side to move.
pub open spec fn initial_model() -> BoardModel {
    crate::chess::initial_board()
}

impl BoardState {
    /// A position holds twelve piece masks.
    pub proof fn lemma_twelve_masks(&self)
        ensures
            self@.pieces.len() == 12,
    {
    }

    /// The starting position, white to move.
    pub fn new() -> (r: Self)
        ensures
            r@ == initial_model(),
    {
        let r = Self {
            pieces: [
                0b11111111 << 8u64,
                0b10000001,
                0b01000010,
                0b00100100,
                0b00001000,
                0b00010000,
                0b11111111 << 48u64,
                0b10000001 << 56u64,
                0b01000010 << 56u64,
                0b00100100 << 56u64,
                0b00001000 << 56u64,
                0b00010000 << 56u64,
            ],
            special_moves: 0b11110000,
            white_to_move: true,
        };
        proof {
            lemma_start_masks();
            assert(r@.pieces =~= initial_model().pieces);
        }
        r
    }

    /// Moves the piece on the first square to the second: the piece found
    /// first on the target square is removed, then the piece found first on
    /// the source square moves.
    pub fn apply_move(&mut self, file_1: usize, rank_1: usize, file_2: usize, rank_2: usize)
        requires
            square_at(file_1 as int, rank_1 as int) < 64,
            square_at(file_2 as int, rank_2 as int) < 64,
        ensures
            final(self)@ == (BoardModel {
                pieces: pieces_after_move(
                    old(self)@.pieces,
                    square_at(file_1 as int, rank_1 as int),
                    square_at(file_2 as int, rank_2 as int),
                ),
                ..old(self)@
            }),
    {
        let square_1 = Self::coordinate_to_square(file_1, rank_1);
        let square_2 = Self::coordinate_to_square(file_2, rank_2);
        let move_mask = (1u64 << (square_1 as u64)) | (1u64 << (square_2 as u64));
        let capture_mask = 1u64 << (square_2 as u64);
        toggle_first_holding(&mut self.pieces, 0, 11, square_2, capture_mask);
        toggle_first_holding(&mut self.pieces, 0, 11, square_1, move_mask);
    }

    /// The square index of the coordinates.
    pub fn coordinate_to_square(file: usize, rank: usize) -> (r: usize)
        requires
            8 * rank + file <= usize::MAX,
        ensures
            r == square_at(file as int, rank as int),
    {
        8 * rank + file
    }

    /// The (file, rank) coordinates of a square index.
    pub fn square_to_coordinate(square: usize) -> (r: (usize, usize))
        ensures
            r == (square % 8, square / 8),
            (r.0 as int, r.1 as int) == bits::coordinates_of(square as int),
    {
        (square % 8, square / 8)
    }

    /// Whether the square at the coordinates is in the mask.
    pub fn coordinate_occupied_by(file: usize, rank: usize, occupancy_mask: u64) -> (r: bool)
        requires
            square_at(file as int, rank as int) < 64,
        ensures
            r == occupies(occupancy_mask, square_at(file as int, rank as int)),
    {
        let square = Self::coordinate_to_square(file, rank);
        Self::square_occupied_by(square, occupancy_mask)
    }

    /// Whether the square is in the mask.
    pub fn square_occupied_by(square: usize, occupancy_mask: u64) -> (r: bool)
        requires
            square < 64,
        ensures
            r == occupies(occupancy_mask, square as int),
    {
        proof {
            crate::common::bits::lemma_or_facts(1u64 << (square as u64), occupancy_mask, 0);
        }
        ((1u64 << (square as u64)) & occupancy_mask) != 0
    }

    /// The content of the square.
    pub fn piece_in_square(&self, square: usize) -> (r: PieceType)
        requires
            square < 64,
        ensures
            r == content_at(self@, square as int),
    {
        if Self::square_occupied_by(square, self.white_pawns()) {
            PieceType::WhitePawn
        } else if Self::square_occupied_by(square, self.white_knights()) {
            PieceType::WhiteKnight
        } else if Self::square_occupied_by(square, self.white_bishops()) {
            PieceType::WhiteBishop
        } else if Self::square_occupied_by(square, self.white_rooks()) {
            PieceType::WhiteRook
        } else if Self::square_occupied_by(square, self.white_queens()) {
            PieceType::WhiteQueen
        } else if Self::square_occupied_by(square, self.white_kings()) {
            PieceType::WhiteKing
        } else if Self::square_occupied_by(square, self.black_pawns()) {
            PieceType::BlackPawn
        } else if Self::square_occupied_by(square, self.black_knights()) {
            PieceType::BlackKnight
        } else if Self::square_occupied_by(square, self.black_bishops()) {
            PieceType::BlackBishop
        } else if Self::square_occupied_by(square, self.black_rooks()) {
            PieceType::BlackRook
        } else if Self::square_occupied_by(square, self.black_queens()) {
            PieceType::BlackQueen
        } else if Self::square_occupied_by(square, self.black_kings()) {
            PieceType::BlackKing
        } else {
            PieceType::Empty
        }
    }

    /// The squares of white pieces.
    pub fn white_occupancy(&self) -> (r: u64)
        ensures
            r == self@.white_occupancy(),
    {
        self.white_pawns() | self.white_knights() | self.white_bishops() | self.white_rooks()
            | self.white_queens() | self.white_kings()
    }

    /// The squares of black pieces.
    pub fn black_occupancy(&self) -> (r: u64)
        ensures
            r == self@.black_occupancy(),
    {
        self.black_pawns() | self.black_knights() | self.black_bishops() | self.black_rooks()
            | self.black_queens() | self.black_kings()
    }

    /// The squares of all pieces.
    pub fn total_occupancy(&self) -> (r: u64)
        ensures
            r == self@.total_occupancy(),
    {
        self.white_occupancy() | self.black_occupancy()
    }

    /// The white pawns.
    pub fn white_pawns(&self) -> (r: u64)
        ensures
            r == self@.pieces[0],
    {
        self.pieces[0]
    }

    /// The white rooks.
    pub fn white_rooks(&self) -> (r: u64)
        ensures
            r == self@.pieces[1],
    {
        self.pieces[1]
    }

    /// The white knights.
    pub fn white_knights(&self) -> (r: u64)
        ensures
            r == self@.pieces[2],
    {
        self.pieces[2]
    }

    /// The white bishops.
    pub fn white_bishops(&self) -> (r: u64)
        ensures
            r == self@.pieces[3],
    {
        self.pieces[3]
    }

    /// The white queens.
    pub fn white_queens(&self) -> (r: u64)
        ensures
            r == self@.pieces[4],
    {
        self.pieces[4]
    }

    /// The white kings.
    pub fn white_kings(&self) -> (r: u64)
        ensures
            r == self@.pieces[5],
    {
        self.pieces[5]
    }

    /// The black pawns.
    pub fn black_pawns(&self) -> (r: u64)
        ensures
            r == self@.pieces[6],
    {
        self.pieces[6]
    }

    /// The black rooks.
    pub fn black_rooks(&self) -> (r: u64)
        ensures
            r == self@.pieces[7],
    {
        self.pieces[7]
    }

    /// The black knights.
    pub fn black_knights(&self) -> (r: u64)
        ensures
            r == self@.pieces[8],
    {
        self.pieces[8]
    }

    /// The black bishops.
    pub fn black_bishops(&self) -> (r: u64)
        ensures
            r == self@.pieces[9],
    {
        self.pieces[9]
    }

    /// The black queens.
    pub fn black_queens(&self) -> (r: u64)
        ensures
            r == self@.pieces[10],
    {
        self.pieces[10]
    }

    /// The black kings.
    pub fn black_kings(&self) -> (r: u64)
        ensures
            r == self@.pieces[11],
    {
        self.pieces[11]
    }
}

proof fn lemma_start_masks()
    by (bit_vector)
    ensures
        0b11111111u64 << 8u64 == 0x0000_0000_0000_FF00u64,
        0b11111111u64 << 48u64 == 0x00FF_0000_0000_0000u64,
        0b10000001u64 << 56u64 == 0x8100_0000_0000_0000u64,
        0b01000010u64 << 56u64 == 0x4200_0000_0000_0000u64,
        0b00100100u64 << 56u64 == 0x2400_0000_0000_0000u64,
        0b00001000u64 << 56u64 == 0x0800_0000_0000_0000u64,
        0b00010000u64 << 56u64 == 0x1000_0000_0000_0000u64,
{
}

/// A position on its own, without history.
#[derive(Default)]
pub struct GameState {
    board_state: BoardState,
}

impl GameState {
    /// A game at the starting position.
    pub fn new() -> (r: Self)
        ensures
            r.board() == initial_model(),
    {
        GameState { board_state: BoardState::new() }
    }

    /// The position, as a spec value.
    pub closed spec fn board(&self) -> BoardModel {
        self.board_state@
    }

    /// The position.
    pub fn board_state(&self) -> (r: &BoardState)
        ensures
            r@ == self.board(),
    {
        &self.board_state
    }

    /// Moves the piece between the given coordinates (see
    /// [`BoardState::apply_move`]).
    pub fn apply_move(&mut self, file_1: usize, rank_1: usize, file_2: usize, rank_2: usize)
        requires
            square_at(file_1 as int, rank_1 as int) < 64,
            square_at(file_2 as int, rank_2 as int) < 64,
        ensures
            final(self).board() == (BoardModel {
                pieces: pieces_after_move(
                    old(self).board().pieces,
                    square_at(file_1 as int, rank_1 as int),
                    square_at(file_2 as int, rank_2 as int),
                ),
                ..old(self).board()
            }),
    {
        self.board_state.apply_move(file_1, rank_1, file_2, rank_2);
    }

    /// The symbol of each of the 64 squares, square 0 (a1) first.
    pub fn square_chars(&self) -> (r: Vec<char>)
        ensures
            r@.len() == 64,
            forall|s: int| 0 <= s < 64 ==> r@[s] == symbol_of(content_at(self.board(), s)),
    {
        let mut out_chars: Vec<char> = Vec::new();
        let mut square: usize = 0;
        while square < 64
            invariant
                square <= 64,
                out_chars@.len() == square,
                forall|s: int|
                    0 <= s < square ==> out_chars@[s] == symbol_of(content_at(self.board(), s)),
            decreases 64 - square,
        {
            out_chars.push(self.board_state.piece_in_square(square).to_char());
            square = square + 1;
        }
        out_chars
    }
}

/// Moving the piece found first on `s1` to `s2` (which its own mask does not
/// hold): its mask gains `s2`, loses `s1` and keeps every other square, and
/// the piece found first on `s2`, if any, is removed from its mask.
pub proof fn lemma_move_captures(pieces: Seq<u64>, s1: int, s2: int, i: int)
    requires
        pieces.len() == 12,
        0 <= s1 < 64,
        0 <= s2 < 64,
        s1 != s2,
        first_holding(pieces, 0, 11, s1) == Some(i),
        !occupies(pieces[i], s2),
    ensures
        ({
            let after = pieces_after_move(pieces, s1, s2);
            &&& occupies(after[i], s2)
            &&& !occupies(after[i], s1)
            &&& forall|t: int|
                0 <= t < 64 && t != s1 && t != s2 ==> occupies(after[i], t) == occupies(
                    pieces[i],
                    t,
                )
            &&& first_holding(pieces, 0, 11, s2) matches Some(j) ==> !occupies(after[j], s2)
        }),
{
    lemma_first_holding_range(pieces, 0, 11, s1);
    lemma_first_holding_range(pieces, 0, 11, s2);
    let captured = toggle_first(pieces, 0, 11, s2, square_bit(s2));
    assert forall|k: int| 0 <= k <= 11 implies occupies(captured[k], s1) == occupies(
        pieces[k],
        s1,
    ) by {
        bits::lemma_toggle_squares(pieces[k], s2 as u64, s2 as u64, s1 as u64);
    }
    lemma_first_holding_same(captured, pieces, 0, 11, s1);
    let after = pieces_after_move(pieces, s1, s2);
    if let Some(j) = first_holding(pieces, 0, 11, s2) {
        assert(j != i);
        bits::lemma_toggle_squares(pieces[j], s2 as u64, s2 as u64, s2 as u64);
        assert(after[j] == captured[j]);
    }
    assert(captured[i] == pieces[i]);
    assert forall|t: int| 0 <= t < 64 implies occupies(after[i], t) == (if t == s1 || t == s2 {
        !occupies(pieces[i], t)
    } else {
        occupies(pieces[i], t)
    }) by {
        bits::lemma_toggle_squares(pieces[i], s1 as u64, s2 as u64, t as u64);
    }
}

/// Two positions whose masks hold square `t1` and square `t2` alike show the
/// same content there.
pub proof fn lemma_same_holders(b: BoardModel, t1: int, c: BoardModel, t2: int)
    requires
        b.pieces.len() == 12,
        c.pieces.len() == 12,
        forall|k: int|
            0 <= k < 12 ==> occupies(#[trigger] b.pieces[k], t1) == occupies(c.pieces[k], t2),
    ensures
        content_at(b, t1) == content_at(c, t2),
{
    assert(occupies(b.pieces[0], t1) == occupies(c.pieces[0], t2));
    assert(occupies(b.pieces[1], t1) == occupies(c.pieces[1], t2));
    assert(occupies(b.pieces[2], t1) == occupies(c.pieces[2], t2));
    assert(occupies(b.pieces[3], t1) == occupies(c.pieces[3], t2));
    assert(occupies(b.pieces[4], t1) == occupies(c.pieces[4], t2));
    assert(occupies(b.pieces[5], t1) == occupies(c.pieces[5], t2));
    assert(occupies(b.pieces[6], t1) == occupies(c.pieces[6], t2));
    assert(occupies(b.pieces[7], t1) == occupies(c.pieces[7], t2));
    assert(occupies(b.pieces[8], t1) == occupies(c.pieces[8], t2));
    assert(occupies(b.pieces[9], t1) == occupies(c.pieces[9], t2));
    assert(occupies(b.pieces[10], t1) == occupies(c.pieces[10], t2));
    assert(occupies(b.pieces[11], t1) == occupies(c.pieces[11], t2));
}

/// In a position with disjoint masks, a move between two different squares
/// puts on the target what stood on the source (whatever stood on the target,
/// of either colour, is removed), empties the source, leaves every other
/// square as it was and keeps the masks disjoint.
pub proof fn lemma_move_contents(b: BoardModel, s1: int, s2: int)
    requires
        b.disjoint_masks(),
        0 <= s1 < 64,
        0 <= s2 < 64,
        s1 != s2,
    ensures
        ({
            let nb = BoardModel { pieces: pieces_after_move(b.pieces, s1, s2), ..b };
            &&& content_at(nb, s2) == content_at(b, s1)
            &&& content_at(nb, s1) == PieceType::Empty
            &&& forall|q: int|
                0 <= q < 64 && q != s1 && q != s2 ==> content_at(nb, q) == content_at(b, q)
            &&& nb.disjoint_masks()
        }),
{
    let p = b.pieces;
    let a = square_bit(s1);
    let c = square_bit(s2);
    let nb = BoardModel { pieces: pieces_after_move(p, s1, s2), ..b };
    lemma_first_holding_range(p, 0, 11, s1);
    lemma_first_holding_range(p, 0, 11, s2);
    let captured = toggle_first(p, 0, 11, s2, c);
    // The capture removes the target square from its only holder.
    assert forall|k: int, t: int| 0 <= k < 12 && 0 <= t < 64 implies #[trigger] occupies(
        captured[k],
        t,
    ) == (occupies(p[k], t) && t != s2) by {
        bits::lemma_square_ops(p[k], c, t);
        bits::lemma_square_bit_holds(s2, t);
        if first_holding(p, 0, 11, s2) is None {
            if occupies(p[k], s2) {
                assert forall|m: int| 0 <= m <= 11 && m != k implies !occupies(
                    #[trigger] p[m],
                    s2,
                ) by {
                    lemma_disjoint_squares(b, k, m, s2);
                }
                lemma_only_holder(p, 0, 11, s2, k);
            }
        } else {
            let j = first_holding(p, 0, 11, s2)->Some_0;
            if k != j && t == s2 {
                lemma_disjoint_squares(b, k, j, s2);
            }
        }
    }
    assert forall|k: int| 0 <= k <= 11 implies occupies(#[trigger] captured[k], s1) == occupies(
        p[k],
        s1,
    ) by {}
    lemma_first_holding_same(captured, p, 0, 11, s1);
    // New squares of each mask.
    assert forall|k: int, t: int| 0 <= k < 12 && 0 <= t < 64 implies #[trigger] occupies(
        nb.pieces[k],
        t,
    ) == (if first_holding(p, 0, 11, s1) == Some(k) {
        (occupies(p[k], t) && t != s1) || t == s2
    } else {
        occupies(p[k], t) && t != s2
    }) by {
        bits::lemma_square_bit_holds(s1, t);
        bits::lemma_square_bit_holds(s2, t);
        if first_holding(p, 0, 11, s1) == Some(k) {
            assert(nb.pieces[k] == captured[k] ^ (a | c));
            bits::lemma_square_ops(captured[k], a | c, t);
            bits::lemma_square_ops(a, c, t);
        } else {
            if let Some(i) = first_holding(p, 0, 11, s1) {
                assert(nb.pieces[k] == captured[k]);
            }
        }
    }
    // Holders of the source square in the old position.
    assert forall|k: int| 0 <= k < 12 implies #[trigger] occupies(p[k], s1) == (first_holding(
        p,
        0,
        11,
        s1,
    ) == Some(k)) by {
        if let Some(i) = first_holding(p, 0, 11, s1) {
            if k != i {
                lemma_disjoint_squares(b, i, k, s1);
            }
        } else {
            if occupies(p[k], s1) {
                assert forall|m: int| 0 <= m <= 11 && m != k implies !occupies(
                    #[trigger] p[m],
                    s1,
                ) by {
                    lemma_disjoint_squares(b, k, m, s1);
                }
                lemma_only_holder(p, 0, 11, s1, k);
            }
        }
    }
    lemma_same_holders(nb, s2, b, s1);
    let empty = BoardModel { pieces: Seq::new(12, |k: int| 0u64), ..b };
    bits::lemma_square_ops(0, 0, s1);
    lemma_same_holders(nb, s1, empty, s1);
    assert forall|q: int| 0 <= q < 64 && q != s1 && q != s2 implies content_at(nb, q) == content_at(
        b,
        q,
    ) by {
        lemma_same_holders(nb, q, b, q);
    }
    assert forall|j: int, k: int, t: int|
        0 <= j < 12 && 0 <= k < 12 && j != k && 0 <= t < 64 implies !(#[trigger] occupies(
        nb.pieces[j],
        t,
    ) && #[trigger] occupies(nb.pieces[k], t)) by {
        lemma_disjoint_squares(b, j, k, t);
    }
    lemma_disjoint_from_squares(nb);
}

/// The square content that names a piece of the given colour and kind, or
/// an empty square.
pub open spec fn content_of(piece: Option<(PieceColor, Kind)>) -> PieceType {
    match piece {
        None => PieceType::Empty,
        Some((PieceColor::White, Kind::Pawn)) => PieceType::WhitePawn,
        Some((PieceColor::White, Kind::Rook)) => PieceType::WhiteRook,
        Some((PieceColor::White, Kind::Knight)) => PieceType::WhiteKnight,
        Some((PieceColor::White, Kind::Bishop)) => PieceType::WhiteBishop,
        Some((PieceColor::White, Kind::Queen)) => PieceType::WhiteQueen,
        Some((PieceColor::White, Kind::King)) => PieceType::WhiteKing,
        Some((PieceColor::Black, Kind::Pawn)) => PieceType::BlackPawn,
        Some((PieceColor::Black, Kind::Rook)) => PieceType::BlackRook,
        Some((PieceColor::Black, Kind::Knight)) => PieceType::BlackKnight,
        Some((PieceColor::Black, Kind::Bishop)) => PieceType::BlackBishop,
        Some((PieceColor::Black, Kind::Queen)) => PieceType::BlackQueen,
        Some((PieceColor::Black, Kind::King)) => PieceType::BlackKing,
    }
}

/// The content this board reports on a square names the piece that the
/// chess board with the same masks reports there, and each piece and the
/// empty square have contents of their own.
pub proof fn lemma_content_is_piece(b: BoardModel, s: int, p: Option<(PieceColor, Kind)>, q: Option<(PieceColor, Kind)>)
    ensures
        content_at(b, s) == content_of(b.piece_at(s)),
        content_of(p) == content_of(q) ==> p == q,
{
}

/// In a position with disjoint masks, a square held by mask `k` shows the
/// content of that mask's colour (white for the first six) and kind, two
/// squares show the same content exactly when the same mask holds them, and
/// a square shows empty exactly when no mask holds it.
pub proof fn lemma_content_names_mask(b: BoardModel, s: int, k: int, t: int, j: int)
    requires
        b.disjoint_masks(),
        0 <= s < 64,
        0 <= t < 64,
        0 <= k < 12,
        0 <= j < 12,
        occupies(b.pieces[k], s),
        occupies(b.pieces[j], t),
    ensures
        content_at(b, s) == content_of(
            Some(
                (
                    if k < 6 {
                        PieceColor::White
                    } else {
                        PieceColor::Black
                    },
                    b.piece_at(s)->Some_0.1,
                ),
            ),
        ),
        crate::chess::kind_index(b.piece_at(s)->Some_0.1) == k % 6,
        content_at(b, s) == content_at(b, t) <==> j == k,
        content_at(b, s) != PieceType::Empty,
{
    crate::chess::lemma_piece_at_names_mask(b, s, k);
    crate::chess::lemma_piece_at_names_mask(b, t, j);
    lemma_content_is_piece(b, s, b.piece_at(s), b.piece_at(t));
    lemma_content_is_piece(b, t, b.piece_at(s), b.piece_at(t));
}

/// Each content has a symbol of its own, and a piece's symbol is the one the
/// normal symbol set draws it with.
pub proof fn lemma_symbols(p: PieceType, q: PieceType, color: PieceColor, kind: Kind)
    ensures
        symbol_of(p) == symbol_of(q) ==> p == q,
        symbol_of(content_of(Some((color, kind)))) == crate::view::piece_symbol(
            crate::view::RenderType::Normal,
            kind,
            color,
        ),
{
}

} // verus!
