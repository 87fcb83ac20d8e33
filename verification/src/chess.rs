use crate::common::bits::{
    self, file_ok, reached, hop, is_square_of, jump, lowest_square, occupies, on_board, popcount, ray,
    ray_geo, square_at, square_bit, squares_of, step,
};
use crate::common::{ChersError, PieceColor, PieceType};
use rand::rngs::ThreadRng;
use rand::seq::IndexedRandom;
use rand::RngExt;
use vstd::prelude::*;

verus! {

const WHITE_PAWNS_IDX: usize = 0;

const WHITE_ROOKS_IDX: usize = 1;

const WHITE_KNIGHTS_IDX: usize = 2;

const WHITE_BISHOPS_IDX: usize = 3;

const WHITE_QUEENS_IDX: usize = 4;

const WHITE_KINGS_IDX: usize = 5;

const BLACK_PAWNS_IDX: usize = 6;

const BLACK_ROOKS_IDX: usize = 7;

const BLACK_KNIGHTS_IDX: usize = 8;

const BLACK_BISHOPS_IDX: usize = 9;

const BLACK_QUEENS_IDX: usize = 10;

const BLACK_KINGS_IDX: usize = 11;

const WHITE_PAWNS_START: u64 = 0x0000_0000_0000_FF00;

const WHITE_ROOKS_START: u64 = 0x0000_0000_0000_0081;

const WHITE_KNIGHTS_START: u64 = 0x0000_0000_0000_0042;

const WHITE_BISHOPS_START: u64 = 0x0000_0000_0000_0024;

const WHITE_QUEENS_START: u64 = 0x0000_0000_0000_0008;

const WHITE_KINGS_START: u64 = 0x0000_0000_0000_0010;

const BLACK_PAWNS_START: u64 = 0x00FF_0000_0000_0000;

const BLACK_ROOKS_START: u64 = 0x8100_0000_0000_0000;

const BLACK_KNIGHTS_START: u64 = 0x4200_0000_0000_0000;

const BLACK_BISHOPS_START: u64 = 0x2400_0000_0000_0000;

const BLACK_QUEENS_START: u64 = 0x0800_0000_0000_0000;

const BLACK_KINGS_START: u64 = 0x1000_0000_0000_0000;

/// A position: twelve piece masks, the special-move byte and the side to move.
///
/// The piece masks are, in order, white pawns, rooks, knights, bishops,
/// queens, kings, then black pawns, rooks, knights, bishops, queens, kings.
/// Bits 0-2 of the special-move byte hold the en passant file, bit 3 says
/// that an en passant capture is available, bits 4-7 are the castling rights.
#[derive(Default, Clone, Copy)]
pub struct BoardState {
    pieces: [u64; 12],
    special_moves: u8,
    white_to_move: bool,
}

/// The mathematical content of a [`BoardState`].
#[verifier::ext_equal]
pub struct BoardModel {
    pub pieces: Seq<u64>,
    pub special_moves: u8,
    pub white_to_move: bool,
}

impl View for BoardState {
    type V = BoardModel;

    closed spec fn view(&self) -> BoardModel {
        BoardModel {
            pieces: self.pieces@,
            special_moves: self.special_moves,
            white_to_move: self.white_to_move,
        }
    }
}

/// The index of a piece kind among one side's six masks.
pub open spec fn kind_index(kind: PieceType) -> int {
    match kind {
        PieceType::Pawn => 0,
        PieceType::Rook => 1,
        PieceType::Knight => 2,
        PieceType::Bishop => 3,
        PieceType::Queen => 4,
        PieceType::King => 5,
    }
}

/// The starting position.
pub open spec fn initial_board() -> BoardModel {
    BoardModel {
        pieces: seq![
            0x0000_0000_0000_FF00u64,
            0x0000_0000_0000_0081u64,
            0x0000_0000_0000_0042u64,
            0x0000_0000_0000_0024u64,
            0x0000_0000_0000_0008u64,
            0x0000_0000_0000_0010u64,
            0x00FF_0000_0000_0000u64,
            0x8100_0000_0000_0000u64,
            0x4200_0000_0000_0000u64,
            0x2400_0000_0000_0000u64,
            0x0800_0000_0000_0000u64,
            0x1000_0000_0000_0000u64,
        ],
        special_moves: 0xF0u8,
        white_to_move: true,
    }
}

impl BoardModel {
    /// White's material minus black's: pawn 1, knight and bishop 3, rook 5,
    /// queen 9.
    pub open spec fn material_balance(self) -> int {
        popcount(self.pieces[0]) * 1 + popcount(self.pieces[1]) * 5 + popcount(self.pieces[2]) * 3
            + popcount(self.pieces[3]) * 3 + popcount(self.pieces[4]) * 9 - popcount(
            self.pieces[6],
        ) * 1 - popcount(self.pieces[7]) * 5 - popcount(self.pieces[8]) * 3 - popcount(
            self.pieces[9],
        ) * 3 - popcount(self.pieces[10]) * 9
    }

    /// The squares of white pieces.
    pub open spec fn white_occupancy(self) -> u64 {
        self.pieces[0] | self.pieces[2] | self.pieces[3] | self.pieces[1] | self.pieces[4]
            | self.pieces[5]
    }

    /// The squares of black pieces.
    pub open spec fn black_occupancy(self) -> u64 {
        self.pieces[6] | self.pieces[8] | self.pieces[9] | self.pieces[7] | self.pieces[10]
            | self.pieces[11]
    }

    /// The squares of all pieces.
    pub open spec fn total_occupancy(self) -> u64 {
        self.white_occupancy() | self.black_occupancy()
    }

    /// The squares of the side to move.
    pub open spec fn own_occupancy(self) -> u64 {
        if self.white_to_move {
            self.white_occupancy()
        } else {
            self.black_occupancy()
        }
    }

    /// The squares of the side not to move.
    pub open spec fn other_occupancy(self) -> u64 {
        if self.white_to_move {
            self.black_occupancy()
        } else {
            self.white_occupancy()
        }
    }

    /// The mask of the side to move's pieces of the given kind.
    pub open spec fn active(self, kind: PieceType) -> u64 {
        if self.white_to_move {
            self.pieces[kind_index(kind)]
        } else {
            self.pieces[kind_index(kind) + 6]
        }
    }

    /// The square an en passant capture goes to, if one is available: on the
    /// recorded file, rank 6 when white moves and rank 3 when black moves.
    pub open spec fn en_passant_mask(self) -> u64 {
        if self.special_moves & 8u8 != 0 {
            square_bit(
                square_at(
                    (self.special_moves & 7u8) as int,
                    if self.white_to_move {
                        5
                    } else {
                        2
                    },
                ),
            )
        } else {
            0
        }
    }

    /// The piece on `square`, looked up in the order pawn, knight, bishop,
    /// rook, queen, king, white before black.
    pub open spec fn piece_at(self, square: int) -> Option<(PieceColor, PieceType)> {
        if occupies(self.pieces[0], square) {
            Some((PieceColor::White, PieceType::Pawn))
        } else if occupies(self.pieces[2], square) {
            Some((PieceColor::White, PieceType::Knight))
        } else if occupies(self.pieces[3], square) {
            Some((PieceColor::White, PieceType::Bishop))
        } else if occupies(self.pieces[1], square) {
            Some((PieceColor::White, PieceType::Rook))
        } else if occupies(self.pieces[4], square) {
            Some((PieceColor::White, PieceType::Queen))
        } else if occupies(self.pieces[5], square) {
            Some((PieceColor::White, PieceType::King))
        } else if occupies(self.pieces[6], square) {
            Some((PieceColor::Black, PieceType::Pawn))
        } else if occupies(self.pieces[8], square) {
            Some((PieceColor::Black, PieceType::Knight))
        } else if occupies(self.pieces[9], square) {
            Some((PieceColor::Black, PieceType::Bishop))
        } else if occupies(self.pieces[7], square) {
            Some((PieceColor::Black, PieceType::Rook))
        } else if occupies(self.pieces[10], square) {
            Some((PieceColor::Black, PieceType::Queen))
        } else if occupies(self.pieces[11], square) {
            Some((PieceColor::Black, PieceType::King))
        } else {
            None
        }
    }
}

impl BoardState {
    /// A position holds twelve piece masks.
    pub proof fn lemma_twelve_masks(&self)
        ensures
            self@.pieces.len() == 12,
    {
    }

    /// The starting position, white to move, all castling rights set.
    pub fn new() -> (r: Self)
        ensures
            r@ == initial_board(),
    {
        let r = Self {
            pieces: [
                WHITE_PAWNS_START,
                WHITE_ROOKS_START,
                WHITE_KNIGHTS_START,
                WHITE_BISHOPS_START,
                WHITE_QUEENS_START,
                WHITE_KINGS_START,
                BLACK_PAWNS_START,
                BLACK_ROOKS_START,
                BLACK_KNIGHTS_START,
                BLACK_BISHOPS_START,
                BLACK_QUEENS_START,
                BLACK_KINGS_START,
            ],
            special_moves: 0b11110000,
            white_to_move: true,
        };
        assert(r@.pieces =~= initial_board().pieces);
        r
    }

    /// The square index of the coordinates.
    pub fn coordinate_to_square(file: usize, rank: usize) -> (r: usize)
        requires
            8 * rank + file <= usize::MAX,
        ensures
            r == square_at(file as int, rank as int),
    {
        8 * rank + file
    }

    /// The (file, rank) coordinates of a square index.
    pub fn square_to_coordinate(square: usize) -> (r: (usize, usize))
        ensures
            r == (square % 8, square / 8),
            (r.0 as int, r.1 as int) == bits::coordinates_of(square as int),
    {
        (square % 8, square / 8)
    }

    /// Whether the square at the coordinates is in the mask.
    pub fn coordinate_occupied_by(file: usize, rank: usize, occupancy_mask: u64) -> (r: bool)
        requires
            square_at(file as int, rank as int) < 64,
        ensures
            r == occupies(occupancy_mask, square_at(file as int, rank as int)),
    {
        let square = Self::coordinate_to_square(file, rank);
        Self::square_occupied_by(square, occupancy_mask)
    }

    /// Whether the square is in the mask.
    pub fn square_occupied_by(square: usize, occupancy_mask: u64) -> (r: bool)
        requires
            square < 64,
        ensures
            r == occupies(occupancy_mask, square as int),
    {
        proof {
            bits::lemma_or_facts(1u64 << (square as u64), occupancy_mask, 0);
        }
        ((1u64 << (square as u64)) & occupancy_mask) != 0
    }

    /// The white pawns.
    pub fn white_pawns(&self) -> (r: u64)
        ensures
            r == self@.pieces[0],
    {
        self.pieces[WHITE_PAWNS_IDX]
    }

    /// The white rooks.
    pub fn white_rooks(&self) -> (r: u64)
        ensures
            r == self@.pieces[1],
    {
        self.pieces[WHITE_ROOKS_IDX]
    }

    /// The white knights.
    pub fn white_knights(&self) -> (r: u64)
        ensures
            r == self@.pieces[2],
    {
        self.pieces[WHITE_KNIGHTS_IDX]
    }

    /// The white bishops.
    pub fn white_bishops(&self) -> (r: u64)
        ensures
            r == self@.pieces[3],
    {
        self.pieces[WHITE_BISHOPS_IDX]
    }

    /// The white queens.
    pub fn white_queens(&self) -> (r: u64)
        ensures
            r == self@.pieces[4],
    {
        self.pieces[WHITE_QUEENS_IDX]
    }

    /// The white kings.
    pub fn white_kings(&self) -> (r: u64)
        ensures
            r == self@.pieces[5],
    {
        self.pieces[WHITE_KINGS_IDX]
    }

    /// The black pawns.
    pub fn black_pawns(&self) -> (r: u64)
        ensures
            r == self@.pieces[6],
    {
        self.pieces[BLACK_PAWNS_IDX]
    }

    /// The black rooks.
    pub fn black_rooks(&self) -> (r: u64)
        ensures
            r == self@.pieces[7],
    {
        self.pieces[BLACK_ROOKS_IDX]
    }

    /// The black knights.
    pub fn black_knights(&self) -> (r: u64)
        ensures
            r == self@.pieces[8],
    {
        self.pieces[BLACK_KNIGHTS_IDX]
    }

    /// The black bishops.
    pub fn black_bishops(&self) -> (r: u64)
        ensures
            r == self@.pieces[9],
    {
        self.pieces[BLACK_BISHOPS_IDX]
    }

    /// The black queens.
    pub fn black_queens(&self) -> (r: u64)
        ensures
            r == self@.pieces[10],
    {
        self.pieces[BLACK_QUEENS_IDX]
    }

    /// The black kings.
    pub fn black_kings(&self) -> (r: u64)
        ensures
            r == self@.pieces[11],
    {
        self.pieces[BLACK_KINGS_IDX]
    }

    /// The squares of white pieces.
    pub fn white_occupancy(&self) -> (r: u64)
        ensures
            r == self@.white_occupancy(),
    {
        self.white_pawns() | self.white_knights() | self.white_bishops() | self.white_rooks()
            | self.white_queens() | self.white_kings()
    }

    /// The squares of black pieces.
    pub fn black_occupancy(&self) -> (r: u64)
        ensures
            r == self@.black_occupancy(),
    {
        self.black_pawns() | self.black_knights() | self.black_bishops() | self.black_rooks()
            | self.black_queens() | self.black_kings()
    }

    /// The squares of all pieces.
    pub fn total_occupancy(&self) -> (r: u64)
        ensures
            r == self@.total_occupancy(),
    {
        self.white_occupancy() | self.black_occupancy()
    }

    /// The pawns of the side to move.
    pub fn active_pawns(&self) -> (r: u64)
        ensures
            r == self@.active(PieceType::Pawn),
    {
        if self.white_to_move {
            self.white_pawns()
        } else {
            self.black_pawns()
        }
    }

    /// The rooks of the side to move.
    pub fn active_rooks(&self) -> (r: u64)
        ensures
            r == self@.active(PieceType::Rook),
    {
        if self.white_to_move {
            self.white_rooks()
        } else {
            self.black_rooks()
        }
    }

    /// The knights of the side to move.
    pub fn active_knights(&self) -> (r: u64)
        ensures
            r == self@.active(PieceType::Knight),
    {
        if self.white_to_move {
            self.white_knights()
        } else {
            self.black_knights()
        }
    }

    /// The bishops of the side to move.
    pub fn active_bishops(&self) -> (r: u64)
        ensures
            r == self@.active(PieceType::Bishop),
    {
        if self.white_to_move {
            self.white_bishops()
        } else {
            self.black_bishops()
        }
    }

    /// The queens of the side to move.
    pub fn active_queens(&self) -> (r: u64)
        ensures
            r == self@.active(PieceType::Queen),
    {
        if self.white_to_move {
            self.white_queens()
        } else {
            self.black_queens()
        }
    }

    /// The kings of the side to move.
    pub fn active_kings(&self) -> (r: u64)
        ensures
            r == self@.active(PieceType::King),
    {
        if self.white_to_move {
            self.white_kings()
        } else {
            self.black_kings()
        }
    }

    /// The number of squares that the side to move occupies.
    pub fn num_active_pieces(&self) -> (r: u32)
        ensures
            r == popcount(self@.own_occupancy()),
    {
        if self.white_to_move {
            bits::count_squares(self.white_occupancy())
        } else {
            bits::count_squares(self.black_occupancy())
        }
    }

    /// White's material minus black's, with pawn 1, knight and bishop 3,
    /// rook 5 and queen 9 (kings count nothing).
    pub fn material_balance(&self) -> (r: i32)
        ensures
            r == self@.material_balance(),
    {
        proof {
            bits::lemma_squares_of(self.pieces[0]);
            bits::lemma_squares_of(self.pieces[1]);
            bits::lemma_squares_of(self.pieces[2]);
            bits::lemma_squares_of(self.pieces[3]);
            bits::lemma_squares_of(self.pieces[4]);
            bits::lemma_squares_of(self.pieces[6]);
            bits::lemma_squares_of(self.pieces[7]);
            bits::lemma_squares_of(self.pieces[8]);
            bits::lemma_squares_of(self.pieces[9]);
            bits::lemma_squares_of(self.pieces[10]);
        }
        let white = (bits::count_squares(self.white_pawns()) as i32) * 1 + (bits::count_squares(
            self.white_rooks(),
        ) as i32) * 5 + (bits::count_squares(self.white_knights()) as i32) * 3
            + (bits::count_squares(self.white_bishops()) as i32) * 3 + (bits::count_squares(
            self.white_queens(),
        ) as i32) * 9;
        let black = (bits::count_squares(self.black_pawns()) as i32) * 1 + (bits::count_squares(
            self.black_rooks(),
        ) as i32) * 5 + (bits::count_squares(self.black_knights()) as i32) * 3
            + (bits::count_squares(self.black_bishops()) as i32) * 3 + (bits::count_squares(
            self.black_queens(),
        ) as i32) * 9;
        white - black
    }

    /// The piece on `square`, if any (pawn, knight, bishop, rook, queen, king,
    /// white before black, when masks overlap).
    pub fn piece_in_square(&self, square: usize) -> (r: Option<(PieceColor, PieceType)>)
        requires
            square < 64,
        ensures
            r == self@.piece_at(square as int),
    {
        if Self::square_occupied_by(square, self.white_pawns()) {
            Some((PieceColor::White, PieceType::Pawn))
        } else if Self::square_occupied_by(square, self.white_knights()) {
            Some((PieceColor::White, PieceType::Knight))
        } else if Self::square_occupied_by(square, self.white_bishops()) {
            Some((PieceColor::White, PieceType::Bishop))
        } else if Self::square_occupied_by(square, self.white_rooks()) {
            Some((PieceColor::White, PieceType::Rook))
        } else if Self::square_occupied_by(square, self.white_queens()) {
            Some((PieceColor::White, PieceType::Queen))
        } else if Self::square_occupied_by(square, self.white_kings()) {
            Some((PieceColor::White, PieceType::King))
        } else if Self::square_occupied_by(square, self.black_pawns()) {
            Some((PieceColor::Black, PieceType::Pawn))
        } else if Self::square_occupied_by(square, self.black_knights()) {
            Some((PieceColor::Black, PieceType::Knight))
        } else if Self::square_occupied_by(square, self.black_bishops()) {
            Some((PieceColor::Black, PieceType::Bishop))
        } else if Self::square_occupied_by(square, self.black_rooks()) {
            Some((PieceColor::Black, PieceType::Rook))
        } else if Self::square_occupied_by(square, self.black_queens()) {
            Some((PieceColor::Black, PieceType::Queen))
        } else if Self::square_occupied_by(square, self.black_kings()) {
            Some((PieceColor::Black, PieceType::King))
        } else {
            None
        }
    }

    /// The en passant target square as a mask, or 0 when none is available.
    pub fn en_passant_square_mask(&self) -> (r: u64)
        ensures
            r == self@.en_passant_mask(),
    {
        if self.special_moves & (1u8 << 3u8) != 0 {
            proof {
                lemma_low_bits(self.special_moves);
            }
            let file = (self.special_moves & 0b00000111) as usize;
            let rank = if self.white_to_move {
                5
            } else {
                2
            };
            let square_idx = BoardState::coordinate_to_square(file, rank);
            bits::square_idx_to_mask(square_idx)
        } else {
            proof {
                lemma_low_bits(self.special_moves);
            }
            0
        }
    }
}

proof fn lemma_low_bits(x: u8)
    by (bit_vector)
    ensures
        x & 7u8 <= 7,
        1u8 << 3u8 == 8u8,
{
}

impl BoardModel {
    /// Rook destinations from the squares of `m`: the slides up, down, left
    /// and right, each stopping before the mover's pieces and on the
    /// opponent's.
    pub open spec fn rook_moves(self, m: u64) -> u64 {
        let own = self.own_occupancy();
        let other = self.other_occupancy();
        ray(m, 0, 1, own, other) | ray(m, 0, -1, own, other) | ray(m, -1, 0, own, other) | ray(
            m,
            1,
            0,
            own,
            other,
        )
    }

    /// Bishop destinations from the squares of `m`: the four diagonal slides.
    pub open spec fn bishop_moves(self, m: u64) -> u64 {
        let own = self.own_occupancy();
        let other = self.other_occupancy();
        ray(m, -1, 1, own, other) | ray(m, -1, -1, own, other) | ray(m, 1, 1, own, other) | ray(
            m,
            1,
            -1,
            own,
            other,
        )
    }

    /// Queen destinations: rook and bishop destinations together.
    pub open spec fn queen_moves(self, m: u64) -> u64 {
        self.rook_moves(m) | self.bishop_moves(m)
    }

    /// Knight destinations from the squares of `m`: the eight jumps that stay
    /// on the board and do not land on the mover's pieces.
    pub open spec fn knight_moves(self, m: u64) -> u64 {
        let own = self.own_occupancy();
        jump(m, -1, 2, own) | jump(m, 1, 2, own) | jump(m, -2, 1, own) | jump(m, 2, 1, own) | jump(
            m,
            -1,
            -2,
            own,
        ) | jump(m, 1, -2, own) | jump(m, -2, -1, own) | jump(m, 2, -1, own)
    }

    /// King destinations from the squares of `m`: the eight one-square steps
    /// that stay on the board and do not land on the mover's pieces.
    pub open spec fn king_moves(self, m: u64) -> u64 {
        let own = self.own_occupancy();
        jump(m, 0, 1, own) | jump(m, -1, 1, own) | jump(m, 1, 1, own) | jump(m, 0, -1, own) | jump(
            m,
            -1,
            -1,
            own,
        ) | jump(m, 1, -1, own) | jump(m, -1, 0, own) | jump(m, 1, 0, own)
    }

    /// Pawn destinations from the squares of `m`: one step forward onto an
    /// empty square, a second one from the home rank onto an empty square,
    /// and the two forward diagonals when they hold an opponent's piece or
    /// the en passant square.
    pub open spec fn pawn_moves(self, m: u64) -> u64 {
        let occ = self.own_occupancy() | self.other_occupancy();
        let dr: int = if self.white_to_move {
            1
        } else {
            -1
        };
        let home = if self.white_to_move {
            bits::RANK_2
        } else {
            bits::RANK_7
        };
        let forward = step(m, 0, dr);
        let double = step(forward, 0, dr);
        let push = if forward & occ == 0 {
            if m & home != 0 && double & occ == 0 {
                forward | double
            } else {
                forward
            }
        } else {
            0
        };
        let targets = self.other_occupancy() | self.en_passant_mask();
        let left = step(forward, -1, 0);
        let right = step(forward, 1, 0);
        let with_left = if file_ok(forward, -1) && left & targets != 0 {
            push | left
        } else {
            push
        };
        if file_ok(forward, 1) && right & targets != 0 {
            with_left | right
        } else {
            with_left
        }
    }

    /// Rook destinations from square `s`, over board coordinates.
    pub open spec fn rook_targets(self, s: int) -> u64 {
        let own = self.own_occupancy();
        let other = self.other_occupancy();
        let f = s % 8;
        let r = s / 8;
        ray_geo(f, r, 0, 1, own, other) | ray_geo(f, r, 0, -1, own, other) | ray_geo(
            f,
            r,
            -1,
            0,
            own,
            other,
        ) | ray_geo(f, r, 1, 0, own, other)
    }

    /// Bishop destinations from square `s`, over board coordinates.
    pub open spec fn bishop_targets(self, s: int) -> u64 {
        let own = self.own_occupancy();
        let other = self.other_occupancy();
        let f = s % 8;
        let r = s / 8;
        ray_geo(f, r, -1, 1, own, other) | ray_geo(f, r, -1, -1, own, other) | ray_geo(
            f,
            r,
            1,
            1,
            own,
            other,
        ) | ray_geo(f, r, 1, -1, own, other)
    }

    /// Knight destinations from square `s`, over board coordinates.
    pub open spec fn knight_targets(self, s: int) -> u64 {
        let own = self.own_occupancy();
        let f = s % 8;
        let r = s / 8;
        hop(f, r, -1, 2, own) | hop(f, r, 1, 2, own) | hop(f, r, -2, 1, own) | hop(f, r, 2, 1, own)
            | hop(f, r, -1, -2, own) | hop(f, r, 1, -2, own) | hop(f, r, -2, -1, own) | hop(
            f,
            r,
            2,
            -1,
            own,
        )
    }

    /// King destinations from square `s`, over board coordinates.
    pub open spec fn king_targets(self, s: int) -> u64 {
        let own = self.own_occupancy();
        let f = s % 8;
        let r = s / 8;
        hop(f, r, 0, 1, own) | hop(f, r, -1, 1, own) | hop(f, r, 1, 1, own) | hop(f, r, 0, -1, own)
            | hop(f, r, -1, -1, own) | hop(f, r, 1, -1, own) | hop(f, r, -1, 0, own) | hop(
            f,
            r,
            1,
            0,
            own,
        )
    }

    /// Pawn destinations from square `s`, over board coordinates.
    pub open spec fn pawn_targets(self, s: int) -> u64 {
        let occ = self.own_occupancy() | self.other_occupancy();
        let targets = self.other_occupancy() | self.en_passant_mask();
        let f = s % 8;
        let r = s / 8;
        let dr: int = if self.white_to_move {
            1
        } else {
            -1
        };
        let home_rank: int = if self.white_to_move {
            1
        } else {
            6
        };
        let nr = r + dr;
        if !(0 <= nr < 8) {
            0
        } else {
            let forward = square_bit(square_at(f, nr));
            let double = square_bit(square_at(f, nr + dr));
            let push = if forward & occ == 0 {
                if r == home_rank && double & occ == 0 {
                    forward | double
                } else {
                    forward
                }
            } else {
                0
            };
            let left = square_bit(square_at(f - 1, nr));
            let right = square_bit(square_at(f + 1, nr));
            let with_left = if f >= 1 && left & targets != 0 {
                push | left
            } else {
                push
            };
            if f <= 6 && right & targets != 0 {
                with_left | right
            } else {
                with_left
            }
        }
    }
}

/// For a rook on one square, the mask-level generator gives the squares it
/// reaches along ranks and files.
pub proof fn lemma_rook_single(b: BoardModel, s: int)
    requires
        0 <= s < 64,
    ensures
        b.rook_moves(square_bit(s)) == b.rook_targets(s),
{
    let own = b.own_occupancy();
    let other = b.other_occupancy();
    bits::lemma_ray_single(s, 0, 1, own, other);
    bits::lemma_ray_single(s, 0, -1, own, other);
    bits::lemma_ray_single(s, -1, 0, own, other);
    bits::lemma_ray_single(s, 1, 0, own, other);
}

/// For a bishop on one square, the mask-level generator gives the squares it
/// reaches along diagonals.
pub proof fn lemma_bishop_single(b: BoardModel, s: int)
    requires
        0 <= s < 64,
    ensures
        b.bishop_moves(square_bit(s)) == b.bishop_targets(s),
{
    let own = b.own_occupancy();
    let other = b.other_occupancy();
    bits::lemma_ray_single(s, -1, 1, own, other);
    bits::lemma_ray_single(s, -1, -1, own, other);
    bits::lemma_ray_single(s, 1, 1, own, other);
    bits::lemma_ray_single(s, 1, -1, own, other);
}

/// For a knight on one square, the mask-level generator gives its jumps.
pub proof fn lemma_knight_single(b: BoardModel, s: int)
    requires
        0 <= s < 64,
    ensures
        b.knight_moves(square_bit(s)) == b.knight_targets(s),
{
    let own = b.own_occupancy();
    bits::lemma_jump_single(s, -1, 2, own);
    bits::lemma_jump_single(s, 1, 2, own);
    bits::lemma_jump_single(s, -2, 1, own);
    bits::lemma_jump_single(s, 2, 1, own);
    bits::lemma_jump_single(s, -1, -2, own);
    bits::lemma_jump_single(s, 1, -2, own);
    bits::lemma_jump_single(s, -2, -1, own);
    bits::lemma_jump_single(s, 2, -1, own);
}

/// For a king on one square, the mask-level generator gives its steps.
pub proof fn lemma_king_single(b: BoardModel, s: int)
    requires
        0 <= s < 64,
    ensures
        b.king_moves(square_bit(s)) == b.king_targets(s),
{
    let own = b.own_occupancy();
    bits::lemma_jump_single(s, 0, 1, own);
    bits::lemma_jump_single(s, -1, 1, own);
    bits::lemma_jump_single(s, 1, 1, own);
    bits::lemma_jump_single(s, 0, -1, own);
    bits::lemma_jump_single(s, -1, -1, own);
    bits::lemma_jump_single(s, 1, -1, own);
    bits::lemma_jump_single(s, -1, 0, own);
    bits::lemma_jump_single(s, 1, 0, own);
}

/// For a pawn on one square, the mask-level generator gives its pushes and
/// captures.
pub proof fn lemma_pawn_single(b: BoardModel, s: int)
    requires
        0 <= s < 64,
    ensures
        b.pawn_moves(square_bit(s)) == b.pawn_targets(s),
{
    let m = square_bit(s);
    let dr: int = if b.white_to_move {
        1
    } else {
        -1
    };
    let occ = b.own_occupancy() | b.other_occupancy();
    let targets = b.other_occupancy() | b.en_passant_mask();
    bits::lemma_square_regions(s);
    bits::lemma_square_step(s, 0, dr);
    let f = s % 8;
    let r = s / 8;
    if on_board(f, r + dr) {
        let t = s + 8 * dr;
        assert(square_at(f, r + dr) == t);
        bits::lemma_square_step(t, 0, dr);
        bits::lemma_square_step(t, -1, 0);
        bits::lemma_square_step(t, 1, 0);
        assert(square_at(f - 1, r + dr) == t - 1);
        assert(square_at(f + 1, r + dr) == t + 1);
        assert(square_at(f, r + dr + dr) == t + 8 * dr);
        let forward = step(m, 0, dr);
        assert(forward == square_bit(t));
        if forward & occ == 0 && m & (if b.white_to_move {
            bits::RANK_2
        } else {
            bits::RANK_7
        }) != 0 {
            assert(on_board(f, r + dr + dr));
        }
        assert(step(forward, -1, 0) == square_bit(t - 1) || !file_ok(forward, -1));
        assert(file_ok(forward, -1) == (f >= 1));
        assert(file_ok(forward, 1) == (f <= 6));
    } else {
        bits::lemma_or_facts(occ, targets, 0);
        bits::lemma_or_facts(targets, occ, 0);
        bits::lemma_zero_step(m, s, dr);
    }
}

/// Adds `target` to `mask` when the move fits on the board and does not land
/// on `own`.
fn add_destination(mask: u64, fits: bool, target: u64, own: u64) -> (r: u64)
    ensures
        r == mask | (if fits && target & own == 0 {
            target
        } else {
            0
        }),
{
    if fits && target & own == 0 {
        mask | target
    } else {
        proof {
            bits::lemma_or_facts(mask, 0, 0);
        }
        mask
    }
}

impl BoardState {
    /// The squares of the side to move and of the other side.
    fn occupancies(&self) -> (r: (u64, u64))
        ensures
            r == (self@.own_occupancy(), self@.other_occupancy()),
    {
        let mut own_occupancy = self.white_occupancy();
        let mut other_occupancy = self.black_occupancy();
        if !self.white_to_move {
            std::mem::swap(&mut own_occupancy, &mut other_occupancy);
        }
        (own_occupancy, other_occupancy)
    }

    /// Queen destinations from the squares of the mask.
    pub fn queen_pseudo_allowed_moves(&self, starting_square_mask: u64) -> (r: u64)
        requires
            starting_square_mask != 0,
        ensures
            r == self@.queen_moves(starting_square_mask),
            forall|s: int|
                0 <= s < 64 && starting_square_mask == square_bit(s) ==> r == self@.rook_targets(s)
                    | self@.bishop_targets(s),
    {
        let r = self.rook_pseudo_allowed_moves(starting_square_mask)
            | self.bishop_pseudo_allowed_moves(starting_square_mask);
        proof {
            assert forall|s: int|
                0 <= s < 64 && starting_square_mask == square_bit(s) implies r == self@.rook_targets(
                s,
            ) | self@.bishop_targets(s) by {
                lemma_rook_single(self@, s);
                lemma_bishop_single(self@, s);
            }
        }
        r
    }

    /// Rook destinations from the squares of the mask: sliding up, down, left
    /// and right until the edge, stopping before the mover's pieces and on
    /// the opponent's.
    pub fn rook_pseudo_allowed_moves(&self, starting_square_mask: u64) -> (r: u64)
        requires
            starting_square_mask != 0,
        ensures
            r == self@.rook_moves(starting_square_mask),
            forall|s: int|
                0 <= s < 64 && starting_square_mask == square_bit(s) ==> r == self@.rook_targets(
                    s,
                ),
    {
        let (own_occupancy, other_occupancy) = self.occupancies();
        let r = bits::slide(starting_square_mask, 0, 1, own_occupancy, other_occupancy)
            | bits::slide(starting_square_mask, 0, -1, own_occupancy, other_occupancy)
            | bits::slide(starting_square_mask, -1, 0, own_occupancy, other_occupancy)
            | bits::slide(starting_square_mask, 1, 0, own_occupancy, other_occupancy);
        proof {
            assert forall|s: int|
                0 <= s < 64 && starting_square_mask == square_bit(s) implies r
                == self@.rook_targets(s) by {
                lemma_rook_single(self@, s);
            }
        }
        r
    }

    /// Bishop destinations from the squares of the mask: sliding along the
    /// four diagonals until the edge, stopping before the mover's pieces and
    /// on the opponent's.
    pub fn bishop_pseudo_allowed_moves(&self, starting_square_mask: u64) -> (r: u64)
        requires
            starting_square_mask != 0,
        ensures
            r == self@.bishop_moves(starting_square_mask),
            forall|s: int|
                0 <= s < 64 && starting_square_mask == square_bit(s) ==> r
                    == self@.bishop_targets(s),
    {
        let (own_occupancy, other_occupancy) = self.occupancies();
        let r = bits::slide(starting_square_mask, -1, 1, own_occupancy, other_occupancy)
            | bits::slide(starting_square_mask, -1, -1, own_occupancy, other_occupancy)
            | bits::slide(starting_square_mask, 1, 1, own_occupancy, other_occupancy)
            | bits::slide(starting_square_mask, 1, -1, own_occupancy, other_occupancy);
        proof {
            assert forall|s: int|
                0 <= s < 64 && starting_square_mask == square_bit(s) implies r
                == self@.bishop_targets(s) by {
                lemma_bishop_single(self@, s);
            }
        }
        r
    }

    /// Knight destinations from the squares of the mask.
    pub fn knight_pseudo_allowed_moves(&self, starting_square_mask: u64) -> (r: u64)
        ensures
            r == self@.knight_moves(starting_square_mask),
            forall|s: int|
                0 <= s < 64 && starting_square_mask == square_bit(s) ==> r
                    == self@.knight_targets(s),
    {
        let own = if self.white_to_move {
            self.white_occupancy()
        } else {
            self.black_occupancy()
        };
        let m = starting_square_mask;
        let mut mask: u64 = 0;
        mask = add_destination(
            mask,
            bits::square_exists_two_up_mask(m) && bits::square_exists_left_mask(m),
            bits::move_two_up_one_left(m),
            own,
        );
        proof {
            bits::lemma_or_facts(jump(m, -1, 2, own), 0, 0);
        }
        mask = add_destination(
            mask,
            bits::square_exists_two_up_mask(m) && bits::square_exists_right_mask(m),
            bits::move_two_up_one_right(m),
            own,
        );
        mask = add_destination(
            mask,
            bits::square_exists_up_mask(m) && bits::square_exists_two_left_mask(m),
            bits::move_one_up_two_left(m),
            own,
        );
        mask = add_destination(
            mask,
            bits::square_exists_up_mask(m) && bits::square_exists_two_right_mask(m),
            bits::move_one_up_two_right(m),
            own,
        );
        mask = add_destination(
            mask,
            bits::square_exists_two_down_mask(m) && bits::square_exists_left_mask(m),
            bits::move_two_down_one_left(m),
            own,
        );
        mask = add_destination(
            mask,
            bits::square_exists_two_down_mask(m) && bits::square_exists_right_mask(m),
            bits::move_two_down_one_right(m),
            own,
        );
        mask = add_destination(
            mask,
            bits::square_exists_down_mask(m) && bits::square_exists_two_left_mask(m),
            bits::move_one_down_two_left(m),
            own,
        );
        mask = add_destination(
            mask,
            bits::square_exists_down_mask(m) && bits::square_exists_two_right_mask(m),
            bits::move_one_down_two_right(m),
            own,
        );
        proof {
            assert forall|s: int| 0 <= s < 64 && m == square_bit(s) implies mask
                == self@.knight_targets(s) by {
                lemma_knight_single(self@, s);
            }
        }
        mask
    }

    /// King destinations from the squares of the mask.
    pub fn king_pseudo_allowed_moves(&self, starting_square_mask: u64) -> (r: u64)
        ensures
            r == self@.king_moves(starting_square_mask),
            forall|s: int|
                0 <= s < 64 && starting_square_mask == square_bit(s) ==> r == self@.king_targets(
                    s,
                ),
    {
        let own = if self.white_to_move {
            self.white_occupancy()
        } else {
            self.black_occupancy()
        };
        let m = starting_square_mask;
        let square_up = bits::square_exists_up_mask(m);
        let square_down = bits::square_exists_down_mask(m);
        let square_left = bits::square_exists_left_mask(m);
        let square_right = bits::square_exists_right_mask(m);
        let mut mask: u64 = 0;
        mask = add_destination(mask, square_up, bits::move_one_up(m), own);
        proof {
            bits::lemma_or_facts(jump(m, 0, 1, own), 0, 0);
        }
        mask = add_destination(
            mask,
            square_up && square_left,
            bits::move_one_up_one_left(m),
            own,
        );
        mask = add_destination(
            mask,
            square_up && square_right,
            bits::move_one_up_one_right(m),
            own,
        );
        mask = add_destination(mask, square_down, bits::move_one_down(m), own);
        mask = add_destination(
            mask,
            square_down && square_left,
            bits::move_one_down_one_left(m),
            own,
        );
        mask = add_destination(
            mask,
            square_down && square_right,
            bits::move_one_down_one_right(m),
            own,
        );
        mask = add_destination(mask, square_left, bits::move_one_left(m), own);
        mask = add_destination(mask, square_right, bits::move_one_right(m), own);
        proof {
            assert forall|s: int| 0 <= s < 64 && m == square_bit(s) implies mask
                == self@.king_targets(s) by {
                lemma_king_single(self@, s);
            }
        }
        mask
    }

    /// Pawn destinations from the squares of the mask.
    pub fn pawn_pseudo_allowed_moves(&self, starting_square_mask: u64) -> (r: u64)
        ensures
            r == self@.pawn_moves(starting_square_mask),
            forall|s: int|
                0 <= s < 64 && starting_square_mask == square_bit(s) ==> r == self@.pawn_targets(
                    s,
                ),
    {
        let current_square_mask = starting_square_mask;
        let (own_occupancy, other_occupancy) = self.occupancies();
        let starting_mask: u64 = if self.white_to_move {
            0x00_00_00_00_00_00_ff_00
        } else {
            0x00_ff_00_00_00_00_00_00
        };
        let forward_square = if self.white_to_move {
            bits::move_one_up(current_square_mask)
        } else {
            bits::move_one_down(current_square_mask)
        };
        let mut mask: u64 = 0;
        if forward_square & (own_occupancy | other_occupancy) == 0 {
            proof {
                bits::lemma_or_facts(forward_square, 0, 0);
            }
            mask = mask | forward_square;
            if current_square_mask & starting_mask != 0 {
                let double_forward = if self.white_to_move {
                    bits::move_one_up(forward_square)
                } else {
                    bits::move_one_down(forward_square)
                };
                if double_forward & (own_occupancy | other_occupancy) == 0 {
                    mask = mask | double_forward;
                }
            }
        }
        let en_passant_square = self.en_passant_square_mask();
        if bits::square_exists_left_mask(forward_square) {
            let capture_left = bits::move_one_left(forward_square);
            if capture_left & (other_occupancy | en_passant_square) != 0 {
                mask = mask | capture_left;
            }
        }
        if bits::square_exists_right_mask(forward_square) {
            let capture_right = bits::move_one_right(forward_square);
            if capture_right & (other_occupancy | en_passant_square) != 0 {
                mask = mask | capture_right;
            }
        }
        proof {
            assert forall|s: int| 0 <= s < 64 && starting_square_mask == square_bit(s) implies mask
                == self@.pawn_targets(s) by {
                lemma_pawn_single(self@, s);
            }
        }
        mask
    }
}

/// The first index in `lo..=hi` whose mask holds square `s`.
pub open spec fn first_holding(pieces: Seq<u64>, lo: int, hi: int, s: int) -> Option<int>
    decreases hi + 1 - lo,
{
    if lo > hi {
        None
    } else if occupies(pieces[lo], s) {
        Some(lo)
    } else {
        first_holding(pieces, lo + 1, hi, s)
    }
}

/// `pieces` with the first mask in `lo..=hi` that holds square `s` xor-ed
/// with `toggle`; unchanged when no mask there holds `s`.
pub open spec fn toggle_first(pieces: Seq<u64>, lo: int, hi: int, s: int, toggle: u64) -> Seq<
    u64,
> {
    match first_holding(pieces, lo, hi, s) {
        Some(i) => pieces.update(i, pieces[i] ^ toggle),
        None => pieces,
    }
}

/// The mask index a pawn of the given side promotes into, for the four
/// promotion pieces.
pub open spec fn promotion_index(white: bool, piece: PieceType) -> Option<int> {
    let base: int = if white {
        0
    } else {
        6
    };
    match piece {
        PieceType::Queen => Some(base + 4),
        PieceType::Rook => Some(base + 1),
        PieceType::Knight => Some(base + 2),
        PieceType::Bishop => Some(base + 3),
        _ => None,
    }
}

/// The position after the side to move plays from `s1` to `s2`.
///
/// The en passant bits are cleared and the side to move changes. Without a
/// promotion piece, the first of the mover's masks (pawns, rooks, knights,
/// bishops, queens, kings) that holds `s1` has `s1` and `s2` toggled; when
/// that mask is the pawns' and the move spans two ranks, en passant is
/// recorded on the file of `s2`; then the opponent's pawn mask loses `s2` if
/// it holds it. With a promotion piece (queen, rook, knight or bishop, any
/// other is a parse error), the mover's pawn mask has `s1` toggled, the
/// promotion mask becomes the mover's former pawn mask with `s2` toggled,
/// and the first of the opponent's masks that holds `s1` has `s2` toggled.
pub open spec fn after_move(b: BoardModel, s1: int, s2: int, promotion: Option<PieceType>) -> Result<
    BoardModel,
    ChersError,
> {
    let cleared = b.special_moves & 0xF0u8;
    match promotion {
        None => {
            let lo: int = if b.white_to_move {
                0
            } else {
                6
            };
            let opponent_pawns: int = if b.white_to_move {
                6
            } else {
                0
            };
            let moved = toggle_first(b.pieces, lo, lo + 5, s1, square_bit(s1) | square_bit(s2));
            let special = if first_holding(b.pieces, lo, lo + 5, s1) == Some(lo) && (s1 - s2 == 16
                || s2 - s1 == 16) {
                cleared | (8u8 | ((s2 % 8) as u8))
            } else {
                cleared
            };
            let captured = toggle_first(moved, opponent_pawns, opponent_pawns, s2, square_bit(s2));
            Ok(
                BoardModel {
                    pieces: captured,
                    special_moves: special,
                    white_to_move: !b.white_to_move,
                },
            )
        },
        Some(piece) => match promotion_index(b.white_to_move, piece) {
            None => Err(ChersError::MoveParseError),
            Some(promo) => {
                let pawn: int = if b.white_to_move {
                    0
                } else {
                    6
                };
                let opponent: int = if b.white_to_move {
                    6
                } else {
                    0
                };
                let p1 = b.pieces.update(pawn, b.pieces[pawn] ^ square_bit(s1));
                let p2 = p1.update(promo, b.pieces[pawn] ^ square_bit(s2));
                let p3 = toggle_first(p2, opponent, opponent + 5, s1, square_bit(s2));
                Ok(
                    BoardModel {
                        pieces: p3,
                        special_moves: cleared,
                        white_to_move: !b.white_to_move,
                    },
                )
            },
        },
    }
}

/// The model of a board result.
pub open spec fn board_result(r: Result<BoardState, ChersError>) -> Result<BoardModel, ChersError> {
    match r {
        Ok(b) => Ok(b@),
        Err(e) => Err(e),
    }
}

/// Toggles `toggle` in the first mask of `lo..=hi` that holds `square`.
pub(crate) fn toggle_first_holding(pieces: &mut [u64; 12], lo: usize, hi: usize, square: usize, toggle: u64) -> (found: Option<usize>)
    requires
        lo <= hi < 12,
        square < 64,
    ensures
        final(pieces)@ == toggle_first(old(pieces)@, lo as int, hi as int, square as int, toggle),
        match found {
            Some(i) => first_holding(old(pieces)@, lo as int, hi as int, square as int) == Some(
                i as int,
            ),
            None => first_holding(old(pieces)@, lo as int, hi as int, square as int) is None,
        },
{
    let mut i = lo;
    while i <= hi
        invariant
            lo <= i <= hi + 1,
            hi < 12,
            square < 64,
            pieces@ == old(pieces)@,
            first_holding(pieces@, i as int, hi as int, square as int) == first_holding(
                pieces@,
                lo as int,
                hi as int,
                square as int,
            ),
        decreases hi + 1 - i,
    {
        if BoardState::square_occupied_by(square, pieces[i]) {
            pieces[i] = pieces[i] ^ toggle;
            return Some(i);
        }
        i = i + 1;
    }
    None
}

impl BoardState {
    /// The position after the side to move plays from `square_1` to
    /// `square_2`, promoting to `promotion_piece` when one is given (see
    /// [`after_move`] for exactly what changes).
    pub fn generate_board_after_move_by_squares(
        &self,
        square_1: usize,
        square_2: usize,
        promotion_piece: Option<PieceType>,
    ) -> (r: Result<BoardState, ChersError>)
        requires
            square_1 < 64,
            square_2 < 64,
        ensures
            board_result(r) == after_move(
                self@,
                square_1 as int,
                square_2 as int,
                promotion_piece,
            ),
            promotion_piece is None ==> r is Ok,
    {
        let mut result = *self;
        result.special_moves = result.special_moves & 0b11110000;
        match promotion_piece {
            None => {
                let (lo, opponent_pawns) = if self.white_to_move {
                    (WHITE_PAWNS_IDX, BLACK_PAWNS_IDX)
                } else {
                    (BLACK_PAWNS_IDX, WHITE_PAWNS_IDX)
                };
                let move_mask = (1u64 << (square_1 as u64)) | (1u64 << (square_2 as u64));
                let capture_mask = 1u64 << (square_2 as u64);
                let found = toggle_first_holding(
                    &mut result.pieces,
                    lo,
                    lo + 5,
                    square_1,
                    move_mask,
                );
                let moved_pawn = match found {
                    Some(i) => i == lo,
                    None => false,
                };
                if moved_pawn && (if square_1 > square_2 {
                    square_1 - square_2
                } else {
                    square_2 - square_1
                }) == 16 {
                    // enable en passant
                    let (file, _) = BoardState::square_to_coordinate(square_2);
                    let file = file as u8;
                    let new_bits = (1u8 << 3u8) | file;
                    proof {
                        lemma_low_bits(file);
                    }
                    result.special_moves = result.special_moves | new_bits;
                }

                toggle_first_holding(
                    &mut result.pieces,
                    opponent_pawns,
                    opponent_pawns,
                    square_2,
                    capture_mask,
                );
            },
            Some(promotion_piece) => {
                let (pieces_idx, opponent) = if self.white_to_move {
                    (WHITE_PAWNS_IDX, BLACK_PAWNS_IDX)
                } else {
                    (BLACK_PAWNS_IDX, WHITE_PAWNS_IDX)
                };
                let move_mask = 1u64 << (square_1 as u64);
                let promo_mask = 1u64 << (square_2 as u64);
                let promo_idx = match (self.white_to_move, promotion_piece) {
                    (true, PieceType::Queen) => WHITE_QUEENS_IDX,
                    (false, PieceType::Queen) => BLACK_QUEENS_IDX,
                    (true, PieceType::Rook) => WHITE_ROOKS_IDX,
                    (false, PieceType::Rook) => BLACK_ROOKS_IDX,
                    (true, PieceType::Knight) => WHITE_KNIGHTS_IDX,
                    (false, PieceType::Knight) => BLACK_KNIGHTS_IDX,
                    (true, PieceType::Bishop) => WHITE_BISHOPS_IDX,
                    (false, PieceType::Bishop) => BLACK_BISHOPS_IDX,
                    _ => {
                        return Err(ChersError::MoveParseError);
                    },
                };
                result.pieces[pieces_idx] = self.pieces[pieces_idx] ^ move_mask;
                result.pieces[promo_idx] = self.pieces[pieces_idx] ^ promo_mask;
                let capture_mask = 1u64 << (square_2 as u64);
                toggle_first_holding(
                    &mut result.pieces,
                    opponent,
                    opponent + 5,
                    square_1,
                    capture_mask,
                );
            },
        }
        result.white_to_move = !self.white_to_move;
        proof {
            let expected = after_move(self@, square_1 as int, square_2 as int, promotion_piece);
            assert(result@.pieces =~= expected->Ok_0.pieces);
        }
        Ok(result)
    }

    /// The position after the move between the given coordinates.
    pub fn generate_board_after_move(
        &self,
        file_1: usize,
        rank_1: usize,
        file_2: usize,
        rank_2: usize,
        promotion_piece: Option<PieceType>,
    ) -> (r: Result<BoardState, ChersError>)
        requires
            square_at(file_1 as int, rank_1 as int) < 64,
            square_at(file_2 as int, rank_2 as int) < 64,
        ensures
            board_result(r) == after_move(
                self@,
                square_at(file_1 as int, rank_1 as int),
                square_at(file_2 as int, rank_2 as int),
                promotion_piece,
            ),
            promotion_piece is None ==> r is Ok,
    {
        let square_1 = Self::coordinate_to_square(file_1, rank_1);
        let square_2 = Self::coordinate_to_square(file_2, rank_2);
        self.generate_board_after_move_by_squares(square_1, square_2, promotion_piece)
    }
}

impl BoardModel {
    /// Destinations of a piece of the given kind standing on the squares of
    /// `m`.
    pub open spec fn moves_from(self, kind: PieceType, m: u64) -> u64 {
        match kind {
            PieceType::Pawn => self.pawn_moves(m),
            PieceType::Rook => self.rook_moves(m),
            PieceType::Knight => self.knight_moves(m),
            PieceType::Bishop => self.bishop_moves(m),
            PieceType::Queen => self.queen_moves(m),
            PieceType::King => self.king_moves(m),
        }
    }

    /// One (square, destinations) pair for each square of `m`, in ascending
    /// square order.
    pub open spec fn moves_of_squares(self, kind: PieceType, m: u64) -> Seq<(u64, u64)> {
        squares_of(m).map_values(|p: u64| (p, self.moves_from(kind, p)))
    }

    /// The pseudo-legal moves of the side to move: for each pawn, rook,
    /// knight, bishop and queen (in that order, each kind in ascending square
    /// order) its square and destinations, then the king mask with the king
    /// destinations.
    pub open spec fn pseudo_legal_moves(self) -> Seq<(u64, u64)> {
        let kings = self.active(PieceType::King);
        self.moves_of_squares(PieceType::Pawn, self.active(PieceType::Pawn))
            + self.moves_of_squares(PieceType::Rook, self.active(PieceType::Rook))
            + self.moves_of_squares(PieceType::Knight, self.active(PieceType::Knight))
            + self.moves_of_squares(PieceType::Bishop, self.active(PieceType::Bishop))
            + self.moves_of_squares(PieceType::Queen, self.active(PieceType::Queen)) + seq![
            (kings, self.king_moves(kings)),
        ]
    }

    /// `pick` is a possible outcome of choosing a random pseudo-legal move:
    /// (0, 0) when no piece has a destination, else the square of a listed
    /// piece and one of its destination squares.
    pub open spec fn is_random_pick(self, pick: (u64, u64)) -> bool {
        let moves = self.pseudo_legal_moves();
        if total_weight(moves) == 0 {
            pick == (0u64, 0u64)
        } else {
            exists|i: int|
                0 <= i < moves.len() && pick.0 == moves[i].0 && squares_of(moves[i].1).contains(
                    pick.1,
                )
        }
    }
}

/// The number of destination squares over all listed moves.
pub open spec fn total_weight(moves: Seq<(u64, u64)>) -> int
    decreases moves.len(),
{
    if moves.len() == 0 {
        0
    } else {
        total_weight(moves.drop_last()) + popcount(moves.last().1)
    }
}

proof fn lemma_total_weight_bound(moves: Seq<(u64, u64)>)
    ensures
        0 <= total_weight(moves) <= 64 * moves.len(),
    decreases moves.len(),
{
    if moves.len() > 0 {
        lemma_total_weight_bound(moves.drop_last());
        bits::lemma_squares_of(moves.last().1);
    }
}

/// The number of destination squares of a move, its weight in the random
/// choice.
fn move_weight(m: &(u64, u64)) -> (w: u32)
    ensures
        w == popcount(m.1),
{
    bits::count_squares(m.1)
}

#[verifier::external_type_specification]
#[verifier::external_body]
pub struct ExThreadRng(ThreadRng);

/// Calls `rand::rng()`, the thread-local random generator (the crate panics
/// there if the system source fails at first seeding). Nothing is claimed of
/// the generator it hands back.
#[verifier::external_body]
fn new_thread_rng() -> ThreadRng {
    rand::rng()
}

/// Calls `IndexedRandom::choose_weighted` on the moves with each move
/// weighted by its number of destinations. The crate's source picks an item
/// of positive weight, and fails exactly when the slice is empty, the
/// weights sum to zero or the sum overflows `u32`; which item comes out is
/// left to chance.
#[verifier::external_body]
fn choose_weighted_move(moves: &Vec<(u64, u64)>, rng: &mut ThreadRng) -> (r: Option<(u64, u64)>)
    ensures
        r matches Some(m) ==> moves@.contains(m) && popcount(m.1) > 0,
        r is None <==> (total_weight(moves@) == 0 || total_weight(moves@) > u32::MAX),
{
    moves.choose_weighted(rng, |m| move_weight(m)).ok().copied()
}

/// Calls `RngExt::random_range` on `0..n`, which gives a value below `n`
/// (which one is left to chance) and panics on an empty range.
#[verifier::external_body]
fn random_below(rng: &mut ThreadRng, n: u32) -> (r: u32)
    requires
        n > 0,
    ensures
        r < n,
{
    rng.random_range(0..n)
}

impl BoardState {
    /// Appends the pair (square, destinations) of each square of `pieces`,
    /// for pieces of the given kind.
    fn push_moves(&self, result: &mut Vec<(u64, u64)>, pieces: u64, kind: PieceType)
        ensures
            final(result)@ == old(result)@ + self@.moves_of_squares(kind, pieces),
    {
        let squares = bits::square_masks(pieces);
        proof {
            bits::lemma_squares_of(pieces);
        }
        let ghost start = result@;
        let mut i: usize = 0;
        while i < squares.len()
            invariant
                i <= squares@.len(),
                squares@ == squares_of(pieces),
                forall|j: int|
                    0 <= j < squares@.len() ==> is_square_of(pieces, #[trigger] squares@[j], 0),
                result@ == start + self@.moves_of_squares(kind, pieces).take(i as int),
            decreases squares@.len() - i,
        {
            let p = squares[i];
            proof {
                assert(is_square_of(pieces, squares@[i as int], 0));
                let t = choose|t: int| 0 <= t < 64 && occupies(pieces, t) && p == square_bit(t);
                bits::lemma_square_regions(t);
            }
            let destinations = match kind {
                PieceType::Pawn => self.pawn_pseudo_allowed_moves(p),
                PieceType::Rook => self.rook_pseudo_allowed_moves(p),
                PieceType::Knight => self.knight_pseudo_allowed_moves(p),
                PieceType::Bishop => self.bishop_pseudo_allowed_moves(p),
                PieceType::Queen => self.queen_pseudo_allowed_moves(p),
                PieceType::King => self.king_pseudo_allowed_moves(p),
            };
            result.push((p, destinations));
            proof {
                let all = self@.moves_of_squares(kind, pieces);
                assert(all.take(i + 1) =~= all.take(i as int).push((p, destinations)));
            }
            i = i + 1;
        }
        proof {
            let all = self@.moves_of_squares(kind, pieces);
            assert(all.take(i as int) =~= all);
        }
    }

    /// The pseudo-legal moves of the side to move, one entry per piece (see
    /// [`BoardModel::pseudo_legal_moves`]).
    pub fn psuedo_legal_moves(&self) -> (r: Vec<(u64, u64)>)
        ensures
            r@ == self@.pseudo_legal_moves(),
    {
        let mut result = Vec::<(u64, u64)>::new();
        self.push_moves(&mut result, self.active_pawns(), PieceType::Pawn);
        self.push_moves(&mut result, self.active_rooks(), PieceType::Rook);
        self.push_moves(&mut result, self.active_knights(), PieceType::Knight);
        self.push_moves(&mut result, self.active_bishops(), PieceType::Bishop);
        self.push_moves(&mut result, self.active_queens(), PieceType::Queen);
        let kings = self.active_kings();
        result.push((kings, self.king_pseudo_allowed_moves(kings)));
        proof {
            assert(result@ =~= self@.pseudo_legal_moves());
        }
        result
    }

    /// A random pseudo-legal move as (from mask, to mask): a piece is chosen
    /// with probability proportional to its number of destinations, then one
    /// of its destinations uniformly; (0, 0) when no piece can move.
    pub fn random_psuedo_legal_move(&self) -> (r: (u64, u64))
        ensures
            self@.is_random_pick(r),
    {
        let pseudo_legal_moves = self.psuedo_legal_moves();
        proof {
            let b = self@;
            bits::lemma_squares_of(b.active(PieceType::Pawn));
            bits::lemma_squares_of(b.active(PieceType::Rook));
            bits::lemma_squares_of(b.active(PieceType::Knight));
            bits::lemma_squares_of(b.active(PieceType::Bishop));
            bits::lemma_squares_of(b.active(PieceType::Queen));
            lemma_total_weight_bound(pseudo_legal_moves@);
        }
        let mut rng = new_thread_rng();
        let target = choose_weighted_move(&pseudo_legal_moves, &mut rng);
        match target {
            Some(target) => {
                let destination_choice = random_below(&mut rng, move_weight(&target));
                let destination = bits::nth_square_mask(target.1, destination_choice);
                proof {
                    let moves = self@.pseudo_legal_moves();
                    let i = choose|i: int| 0 <= i < moves.len() && moves[i] == target;
                    assert(squares_of(moves[i].1).contains(destination));
                }
                (target.0, destination)
            },
            None => (0, 0),
        }
    }
}

/// The file (0 for a to 7 for h) a letter names.
pub open spec fn file_of_char(c: char) -> Option<usize> {
    if c == 'a' {
        Some(0)
    } else if c == 'b' {
        Some(1)
    } else if c == 'c' {
        Some(2)
    } else if c == 'd' {
        Some(3)
    } else if c == 'e' {
        Some(4)
    } else if c == 'f' {
        Some(5)
    } else if c == 'g' {
        Some(6)
    } else if c == 'h' {
        Some(7)
    } else {
        None
    }
}

/// The rank (0 for 1 to 7 for 8) a digit names.
pub open spec fn rank_of_char(c: char) -> Option<usize> {
    if c == '1' {
        Some(0)
    } else if c == '2' {
        Some(1)
    } else if c == '3' {
        Some(2)
    } else if c == '4' {
        Some(3)
    } else if c == '5' {
        Some(4)
    } else if c == '6' {
        Some(5)
    } else if c == '7' {
        Some(6)
    } else if c == '8' {
        Some(7)
    } else {
        None
    }
}

/// The promotion piece a letter names: `q` queen, `r` rook, `k` knight,
/// `b` bishop.
pub open spec fn promotion_of_char(c: char) -> Option<PieceType> {
    if c == 'q' {
        Some(PieceType::Queen)
    } else if c == 'r' {
        Some(PieceType::Rook)
    } else if c == 'k' {
        Some(PieceType::Knight)
    } else if c == 'b' {
        Some(PieceType::Bishop)
    } else {
        None
    }
}

/// The move a text names, as (file 1, rank 1, file 2, rank 2, promotion):
/// the first four characters are file, rank, file, rank; when the text is
/// longer, its sixth character names the promotion piece.
pub open spec fn parse_move(text: Seq<char>) -> Option<(usize, usize, usize, usize, Option<PieceType>)> {
    if text.len() < 4 {
        None
    } else {
        let promotion = if text.len() >= 5 {
            promotion_of_char(text[5])
        } else {
            None
        };
        match (
            file_of_char(text[0]),
            rank_of_char(text[1]),
            file_of_char(text[2]),
            rank_of_char(text[3]),
        ) {
            (Some(f1), Some(r1), Some(f2), Some(r2)) => Some((f1, r1, f2, r2, promotion)),
            _ => None,
        }
    }
}

/// The result and history after a move from `s1` to `s2` is tried on the last
/// position of `history`: the new position is appended on success, the
/// history is unchanged on error.
pub open spec fn history_after_move(
    history: Seq<BoardModel>,
    s1: int,
    s2: int,
    promotion: Option<PieceType>,
) -> (Result<(), ChersError>, Seq<BoardModel>) {
    match after_move(history.last(), s1, s2, promotion) {
        Ok(next) => (Ok(()), history.push(next)),
        Err(e) => (Err(e), history),
    }
}

/// The result and history after a move given by masks: an illegal move when
/// either mask is empty, else the move between their lowest squares.
pub open spec fn history_after_masks(history: Seq<BoardModel>, from_mask: u64, to_mask: u64) -> (
    Result<(), ChersError>,
    Seq<BoardModel>,
) {
    if from_mask == 0 || to_mask == 0 {
        (Err(ChersError::IllegalMoveError), history)
    } else {
        history_after_move(history, lowest_square(from_mask), lowest_square(to_mask), None)
    }
}

/// A game: the positions played so far, the current one last.
#[derive(Default)]
pub struct Game {
    board_states: Vec<BoardState>,
}

impl View for Game {
    type V = Seq<BoardModel>;

    closed spec fn view(&self) -> Seq<BoardModel> {
        self.board_states@.map_values(|b: BoardState| b@)
    }
}

impl Game {
    /// The game holds a current position.
    pub open spec fn wf(&self) -> bool {
        self@.len() > 0
    }

    /// Every position of the history holds twelve piece masks.
    pub proof fn lemma_history_masks(&self)
        ensures
            forall|i: int| 0 <= i < self@.len() ==> (#[trigger] self@[i]).pieces.len() == 12,
    {
    }

    /// A game at the starting position.
    pub fn new() -> (r: Self)
        ensures
            r@ == seq![initial_board()],
            r.wf(),
    {
        let board_state = BoardState::new();
        let result = Game { board_states: vec![board_state] };
        proof {
            assert(result@ =~= seq![initial_board()]);
        }
        result
    }

    /// The current position.
    pub fn board_state(&self) -> (r: &BoardState)
        requires
            self.wf(),
        ensures
            r@ == self@.last(),
    {
        &self.board_states[self.board_states.len() - 1]
    }

    /// Plays a random pseudo-legal move of the side to move (see
    /// [`BoardState::random_psuedo_legal_move`]); an illegal-move error when
    /// no piece can move.
    pub fn do_random_pseudo_legal_move(&mut self) -> (r: Result<(), ChersError>)
        requires
            old(self).wf(),
        ensures
            final(self).wf(),
            exists|pick: (u64, u64)|
                old(self)@.last().is_random_pick(pick) && #[trigger] history_after_masks(
                    old(self)@,
                    pick.0,
                    pick.1,
                ) == (r, final(self)@),
    {
        let move_squares = self.board_state().random_psuedo_legal_move();
        self.apply_move_by_masks(move_squares.0, move_squares.1)
    }

    /// Plays the move between the lowest squares of two masks, without
    /// promotion; an illegal-move error when either mask is empty.
    pub fn apply_move_by_masks(&mut self, from_mask: u64, to_mask: u64) -> (r: Result<
        (),
        ChersError,
    >)
        requires
            old(self).wf(),
        ensures
            final(self).wf(),
            (r, final(self)@) == history_after_masks(old(self)@, from_mask, to_mask),
    {
        if from_mask == 0 || to_mask == 0 {
            Err(ChersError::IllegalMoveError)
        } else {
            self.apply_move_by_squares(
                bits::square_mask_to_idx(from_mask),
                bits::square_mask_to_idx(to_mask),
                None,
            )
        }
    }

    /// Plays a move written as file, rank, file, rank (such as `e2e4`), with a
    /// promotion letter as sixth character; a parse error for text shorter
    /// than four characters or an unknown file or rank.
    pub fn natural_apply_move(&mut self, move_str: &str) -> (r: Result<(), ChersError>)
        requires
            old(self).wf(),
            move_str@.len() != 5,
        ensures
            final(self).wf(),
            (r, final(self)@) == match parse_move(move_str@) {
                None => (Err(ChersError::MoveParseError), old(self)@),
                Some((f1, r1, f2, r2, promotion)) => history_after_move(
                    old(self)@,
                    square_at(f1 as int, r1 as int),
                    square_at(f2 as int, r2 as int),
                    promotion,
                ),
            },
            r is Ok || r == Err::<(), ChersError>(ChersError::MoveParseError),
    {
        let len = move_str.unicode_len();
        if len < 4 {
            return Err(ChersError::MoveParseError);
        }
        let mut promotion_piece = None;
        if len >= 5 {
            promotion_piece = promotion_from_char(move_str.get_char(5));
        }
        let file_1 = match file_from_char(move_str.get_char(0)) {
            Some(f) => f,
            None => {
                return Err(ChersError::MoveParseError);
            },
        };
        let file_2 = match file_from_char(move_str.get_char(2)) {
            Some(f) => f,
            None => {
                return Err(ChersError::MoveParseError);
            },
        };
        let rank_1 = match rank_from_char(move_str.get_char(1)) {
            Some(r) => r,
            None => {
                return Err(ChersError::MoveParseError);
            },
        };
        let rank_2 = match rank_from_char(move_str.get_char(3)) {
            Some(r) => r,
            None => {
                return Err(ChersError::MoveParseError);
            },
        };
        self.apply_move_by_coords(file_1, rank_1, file_2, rank_2, promotion_piece)
    }

    /// Plays the move between the given coordinates.
    pub fn apply_move_by_coords(
        &mut self,
        file_1: usize,
        rank_1: usize,
        file_2: usize,
        rank_2: usize,
        promotion_piece: Option<PieceType>,
    ) -> (r: Result<(), ChersError>)
        requires
            old(self).wf(),
            square_at(file_1 as int, rank_1 as int) < 64,
            square_at(file_2 as int, rank_2 as int) < 64,
        ensures
            final(self).wf(),
            (r, final(self)@) == history_after_move(
                old(self)@,
                square_at(file_1 as int, rank_1 as int),
                square_at(file_2 as int, rank_2 as int),
                promotion_piece,
            ),
    {
        let next = self.board_state().generate_board_after_move(
            file_1,
            rank_1,
            file_2,
            rank_2,
            promotion_piece,
        );
        self.push_result(next)
    }

    /// Plays the move between the given squares.
    pub fn apply_move_by_squares(
        &mut self,
        square_1: usize,
        square_2: usize,
        promotion_piece: Option<PieceType>,
    ) -> (r: Result<(), ChersError>)
        requires
            old(self).wf(),
            square_1 < 64,
            square_2 < 64,
        ensures
            final(self).wf(),
            (r, final(self)@) == history_after_move(
                old(self)@,
                square_1 as int,
                square_2 as int,
                promotion_piece,
            ),
    {
        let next = self.board_state().generate_board_after_move_by_squares(
            square_1,
            square_2,
            promotion_piece,
        );
        self.push_result(next)
    }

    /// Appends a new position, or hands the error back.
    fn push_result(&mut self, next: Result<BoardState, ChersError>) -> (r: Result<(), ChersError>)
        requires
            old(self).wf(),
        ensures
            final(self).wf(),
            r == match next {
                Ok(_) => Ok(()),
                Err(e) => Err::<(), ChersError>(e),
            },
            final(self)@ == match next {
                Ok(b) => old(self)@.push(b@),
                Err(_) => old(self)@,
            },
    {
        match next {
            Ok(board) => {
                self.board_states.push(board);
                proof {
                    assert(self@ =~= old(self)@.push(board@));
                }
                Ok(())
            },
            Err(e) => Err(e),
        }
    }
}

/// The file a letter names.
fn file_from_char(c: char) -> (r: Option<usize>)
    ensures
        r == file_of_char(c),
{
    match c {
        'a' => Some(0),
        'b' => Some(1),
        'c' => Some(2),
        'd' => Some(3),
        'e' => Some(4),
        'f' => Some(5),
        'g' => Some(6),
        'h' => Some(7),
        _ => None,
    }
}

/// The rank a digit names.
fn rank_from_char(c: char) -> (r: Option<usize>)
    ensures
        r == rank_of_char(c),
{
    match c {
        '1' => Some(0),
        '2' => Some(1),
        '3' => Some(2),
        '4' => Some(3),
        '5' => Some(4),
        '6' => Some(5),
        '7' => Some(6),
        '8' => Some(7),
        _ => None,
    }
}

/// The promotion piece a letter names.
fn promotion_from_char(c: char) -> (r: Option<PieceType>)
    ensures
        r == promotion_of_char(c),
{
    match c {
        'q' => Some(PieceType::Queen),
        'r' => Some(PieceType::Rook),
        'k' => Some(PieceType::Knight),
        'b' => Some(PieceType::Bishop),
        _ => None,
    }
}

/// No rook, bishop, queen, knight or king destination is a square of the
/// side to move, whatever the starting mask.
pub proof fn lemma_moves_avoid_own(b: BoardModel, m: u64)
    ensures
        b.rook_moves(m) & b.own_occupancy() == 0,
        b.bishop_moves(m) & b.own_occupancy() == 0,
        b.queen_moves(m) & b.own_occupancy() == 0,
        b.knight_moves(m) & b.own_occupancy() == 0,
        b.king_moves(m) & b.own_occupancy() == 0,
{
    let own = b.own_occupancy();
    let other = b.other_occupancy();
    bits::lemma_or_facts(own, 0, 0);
    let r1 = ray(m, 0, 1, own, other);
    let r2 = ray(m, 0, -1, own, other);
    let r3 = ray(m, -1, 0, own, other);
    let r4 = ray(m, 1, 0, own, other);
    bits::lemma_ray_avoids_own(m, 0, 1, own, other);
    bits::lemma_ray_avoids_own(m, 0, -1, own, other);
    bits::lemma_ray_avoids_own(m, -1, 0, own, other);
    bits::lemma_ray_avoids_own(m, 1, 0, own, other);
    bits::lemma_or_and(r1, r2, own);
    bits::lemma_or_and(r1 | r2, r3, own);
    bits::lemma_or_and(r1 | r2 | r3, r4, own);
    let d1 = ray(m, -1, 1, own, other);
    let d2 = ray(m, -1, -1, own, other);
    let d3 = ray(m, 1, 1, own, other);
    let d4 = ray(m, 1, -1, own, other);
    bits::lemma_ray_avoids_own(m, -1, 1, own, other);
    bits::lemma_ray_avoids_own(m, -1, -1, own, other);
    bits::lemma_ray_avoids_own(m, 1, 1, own, other);
    bits::lemma_ray_avoids_own(m, 1, -1, own, other);
    bits::lemma_or_and(d1, d2, own);
    bits::lemma_or_and(d1 | d2, d3, own);
    bits::lemma_or_and(d1 | d2 | d3, d4, own);
    bits::lemma_or_and(b.rook_moves(m), b.bishop_moves(m), own);
    lemma_or8_avoids(
        jump(m, -1, 2, own),
        jump(m, 1, 2, own),
        jump(m, -2, 1, own),
        jump(m, 2, 1, own),
        jump(m, -1, -2, own),
        jump(m, 1, -2, own),
        jump(m, -2, -1, own),
        jump(m, 2, -1, own),
        own,
    );
    lemma_or8_avoids(
        jump(m, 0, 1, own),
        jump(m, -1, 1, own),
        jump(m, 1, 1, own),
        jump(m, 0, -1, own),
        jump(m, -1, -1, own),
        jump(m, 1, -1, own),
        jump(m, -1, 0, own),
        jump(m, 1, 0, own),
        own,
    );
}

proof fn lemma_or8_avoids(
    a1: u64,
    a2: u64,
    a3: u64,
    a4: u64,
    a5: u64,
    a6: u64,
    a7: u64,
    a8: u64,
    own: u64,
)
    requires
        a1 == jump_of(a1, own),
        a2 == jump_of(a2, own),
        a3 == jump_of(a3, own),
        a4 == jump_of(a4, own),
        a5 == jump_of(a5, own),
        a6 == jump_of(a6, own),
        a7 == jump_of(a7, own),
        a8 == jump_of(a8, own),
    ensures
        (a1 | a2 | a3 | a4 | a5 | a6 | a7 | a8) & own == 0,
{
    bits::lemma_or_facts(own, 0, 0);
    bits::lemma_or_and(a1, a2, own);
    bits::lemma_or_and(a1 | a2, a3, own);
    bits::lemma_or_and(a1 | a2 | a3, a4, own);
    bits::lemma_or_and(a1 | a2 | a3 | a4, a5, own);
    bits::lemma_or_and(a1 | a2 | a3 | a4 | a5, a6, own);
    bits::lemma_or_and(a1 | a2 | a3 | a4 | a5 | a6, a7, own);
    bits::lemma_or_and(a1 | a2 | a3 | a4 | a5 | a6 | a7, a8, own);
}

/// `a` when it misses `own`, else 0.
spec fn jump_of(a: u64, own: u64) -> u64 {
    if a & own == 0 {
        a
    } else {
        0
    }
}

/// A pawn on one square never moves onto a square of its own side, when the
/// opponent's squares and the en passant square hold none of them.
pub proof fn lemma_pawn_avoids_own(b: BoardModel, s: int)
    requires
        0 <= s < 64,
        b.own_occupancy() & (b.other_occupancy() | b.en_passant_mask()) == 0,
    ensures
        b.pawn_moves(square_bit(s)) & b.own_occupancy() == 0,
{
    lemma_pawn_single(b, s);
    let own = b.own_occupancy();
    let other = b.other_occupancy();
    let occ = own | other;
    let targets = other | b.en_passant_mask();
    let f = s % 8;
    let r = s / 8;
    let dr: int = if b.white_to_move {
        1
    } else {
        -1
    };
    let nr = r + dr;
    bits::lemma_or_facts(own, 0, 0);
    if 0 <= nr < 8 {
        let forward = square_bit(square_at(f, nr));
        let double = square_bit(square_at(f, nr + dr));
        bits::lemma_or_and(own, other, forward);
        bits::lemma_or_and(own, other, double);
        bits::lemma_or_and(forward, double, own);
        bits::lemma_or_and(forward, own, forward);
        bits::lemma_or_and(double, own, double);
        bits::lemma_or_and(forward, double, forward);
        let push = if forward & occ == 0 {
            if r == (if b.white_to_move {
                1int
            } else {
                6int
            }) && double & occ == 0 {
                forward | double
            } else {
                forward
            }
        } else {
            0
        };
        assert(push & own == 0) by {
            if forward & occ == 0 {
                assert(forward & own == 0);
                if double & occ == 0 {
                    assert(double & own == 0);
                }
            }
        }
        let left = square_bit(square_at(f - 1, nr));
        let right = square_bit(square_at(f + 1, nr));
        if f >= 1 && left & targets != 0 {
            bits::lemma_single_in_targets(square_at(f - 1, nr) as u64, targets, own);
        }
        if f <= 6 && right & targets != 0 {
            bits::lemma_single_in_targets(square_at(f + 1, nr) as u64, targets, own);
        }
        let with_left = if f >= 1 && left & targets != 0 {
            push | left
        } else {
            push
        };
        bits::lemma_or_and(push, left, own);
        bits::lemma_or_and(with_left, right, own);
    }
}

/// A square holds a piece exactly when it is in the total occupancy.
pub proof fn lemma_piece_at_iff_occupied(b: BoardModel, s: int)
    requires
        0 <= s < 64,
    ensures
        b.piece_at(s) is Some <==> occupies(b.total_occupancy(), s),
{
    let x = square_bit(s);
    let p = b.pieces;
    bits::lemma_or_and(p[0], p[2], x);
    bits::lemma_or_and(p[0] | p[2], p[3], x);
    bits::lemma_or_and(p[0] | p[2] | p[3], p[1], x);
    bits::lemma_or_and(p[0] | p[2] | p[3] | p[1], p[4], x);
    bits::lemma_or_and(p[0] | p[2] | p[3] | p[1] | p[4], p[5], x);
    bits::lemma_or_and(p[6], p[8], x);
    bits::lemma_or_and(p[6] | p[8], p[9], x);
    bits::lemma_or_and(p[6] | p[8] | p[9], p[7], x);
    bits::lemma_or_and(p[6] | p[8] | p[9] | p[7], p[10], x);
    bits::lemma_or_and(p[6] | p[8] | p[9] | p[7] | p[10], p[11], x);
    bits::lemma_or_and(b.white_occupancy(), b.black_occupancy(), x);
}

/// Coordinates and square indices convert into each other.
pub proof fn lemma_coordinates_round_trip(file: int, rank: int, s: int)
    ensures
        on_board(file, rank) ==> bits::coordinates_of(square_at(file, rank)) == (file, rank),
        0 <= s < 64 ==> square_at(bits::coordinates_of(s).0, bits::coordinates_of(s).1) == s
            && on_board(bits::coordinates_of(s).0, bits::coordinates_of(s).1),
{
}

/// Every move changes the side to move and keeps the castling bits.
pub proof fn lemma_move_switches_side(
    b: BoardModel,
    s1: int,
    s2: int,
    promotion: Option<PieceType>,
)
    requires
        b.pieces.len() == 12,
        0 <= s1 < 64,
        0 <= s2 < 64,
        after_move(b, s1, s2, promotion) is Ok,
    ensures
        after_move(b, s1, s2, promotion)->Ok_0.white_to_move == !b.white_to_move,
        after_move(b, s1, s2, promotion)->Ok_0.special_moves & 0xF0u8 == b.special_moves & 0xF0u8,
        after_move(b, s1, s2, promotion)->Ok_0.pieces.len() == b.pieces.len(),
{
    bits::lemma_special_byte(b.special_moves, (s2 % 8) as u8);
    let lo: int = if b.white_to_move {
        0
    } else {
        6
    };
    let opp: int = if b.white_to_move {
        6
    } else {
        0
    };
    match promotion {
        None => {
            lemma_first_holding_range(b.pieces, lo, lo + 5, s1);
            let moved = toggle_first(b.pieces, lo, lo + 5, s1, square_bit(s1) | square_bit(s2));
            lemma_first_holding_range(moved, opp, opp, s2);
        },
        Some(p) => {
            let p1 = b.pieces.update(lo, b.pieces[lo] ^ square_bit(s1));
            let p2 = p1.update(promotion_index(b.white_to_move, p)->Some_0, b.pieces[lo] ^ square_bit(s2));
            lemma_first_holding_range(p2, opp, opp + 5, s1);
        },
    }
}

/// Without promotion, the mover's piece on `s1` goes to an empty `s2` of its
/// mask: its mask gains `s2`, loses `s1` and keeps every other square, and
/// the opponent's pawn mask no longer holds `s2`.
pub proof fn lemma_move_relocates_piece(b: BoardModel, s1: int, s2: int, i: int)
    requires
        b.pieces.len() == 12,
        0 <= s1 < 64,
        0 <= s2 < 64,
        s1 != s2,
        first_holding(
            b.pieces,
            if b.white_to_move {
                0
            } else {
                6
            },
            if b.white_to_move {
                5
            } else {
                11
            },
            s1,
        ) == Some(i),
        !occupies(b.pieces[i], s2),
    ensures
        ({
            let nb = after_move(b, s1, s2, None)->Ok_0;
            &&& occupies(nb.pieces[i], s2)
            &&& !occupies(nb.pieces[i], s1)
            &&& forall|t: int|
                0 <= t < 64 && t != s1 && t != s2 ==> occupies(nb.pieces[i], t) == occupies(
                    b.pieces[i],
                    t,
                )
            &&& !occupies(
                nb.pieces[if b.white_to_move {
                    6int
                } else {
                    0int
                }],
                s2,
            )
        }),
{
    let lo: int = if b.white_to_move {
        0
    } else {
        6
    };
    let opp: int = if b.white_to_move {
        6
    } else {
        0
    };
    lemma_first_holding_range(b.pieces, lo, lo + 5, s1);
    let moved = toggle_first(b.pieces, lo, lo + 5, s1, square_bit(s1) | square_bit(s2));
    let nb = after_move(b, s1, s2, None)->Ok_0;
    assert forall|t: int| 0 <= t < 64 implies occupies(moved[i], t) == (if t == s1 || t == s2 {
        !occupies(b.pieces[i], t)
    } else {
        occupies(b.pieces[i], t)
    }) by {
        bits::lemma_toggle_squares(b.pieces[i], s1 as u64, s2 as u64, t as u64);
    }
    lemma_first_holding_range(moved, opp, opp, s2);
    assert(nb.pieces[i] == moved[i]);
    bits::lemma_toggle_squares(moved[opp], s2 as u64, s2 as u64, s2 as u64);
}

pub proof fn lemma_first_holding_range(pieces: Seq<u64>, lo: int, hi: int, s: int)
    ensures
        first_holding(pieces, lo, hi, s) matches Some(i) ==> lo <= i <= hi && occupies(
            pieces[i],
            s,
        ),
    decreases hi + 1 - lo,
{
    if lo <= hi {
        lemma_first_holding_range(pieces, lo + 1, hi, s);
    }
}

/// Two mask lists that agree on which masks hold `s` give the same first
/// holder of `s`.
pub proof fn lemma_first_holding_same(p: Seq<u64>, q: Seq<u64>, lo: int, hi: int, s: int)
    requires
        forall|k: int| lo <= k <= hi ==> occupies(p[k], s) == occupies(q[k], s),
    ensures
        first_holding(p, lo, hi, s) == first_holding(q, lo, hi, s),
    decreases hi + 1 - lo,
{
    if lo <= hi {
        lemma_first_holding_same(p, q, lo + 1, hi, s);
    }
}

/// A double step of a pawn from its home rank makes the square it passed
/// over the en passant target of the position after it.
pub proof fn lemma_double_step_sets_en_passant(b: BoardModel, s1: int, s2: int)
    requires
        b.pieces.len() == 12,
        0 <= s1 < 64,
        0 <= s2 < 64,
        b.white_to_move ==> s1 / 8 == 1 && s2 == s1 + 16,
        !b.white_to_move ==> s1 / 8 == 6 && s2 == s1 - 16,
        first_holding(
            b.pieces,
            if b.white_to_move {
                0
            } else {
                6
            },
            if b.white_to_move {
                5
            } else {
                11
            },
            s1,
        ) == Some(
            if b.white_to_move {
                0int
            } else {
                6int
            },
        ),
    ensures
        after_move(b, s1, s2, None)->Ok_0.en_passant_mask() == square_bit((s1 + s2) / 2),
{
    bits::lemma_special_byte(b.special_moves, (s2 % 8) as u8);
}

/// A move attempt on a game appends the new position when the move is
/// accepted and leaves the history as it was when it is refused.
pub proof fn lemma_history_move(
    history: Seq<BoardModel>,
    s1: int,
    s2: int,
    promotion: Option<PieceType>,
)
    requires
        history.len() > 0,
    ensures
        ({
            let (r, after) = history_after_move(history, s1, s2, promotion);
            &&& r is Ok ==> after.len() == history.len() + 1 && after.drop_last() == history
                && Ok::<BoardModel, ChersError>(after.last()) == after_move(history.last(), s1, s2, promotion)
            &&& r is Err ==> after == history && after_move(history.last(), s1, s2, promotion)
                == Err::<BoardModel, ChersError>(r->Err_0)
        }),
{
    let (r, after) = history_after_move(history, s1, s2, promotion);
    if r is Ok {
        assert(after.drop_last() =~= history);
    }
}

impl BoardModel {
    /// Destinations of a piece of the given kind on square `s`, over board
    /// coordinates.
    pub open spec fn targets_from(self, kind: PieceType, s: int) -> u64 {
        match kind {
            PieceType::Pawn => self.pawn_targets(s),
            PieceType::Rook => self.rook_targets(s),
            PieceType::Knight => self.knight_targets(s),
            PieceType::Bishop => self.bishop_targets(s),
            PieceType::Queen => self.rook_targets(s) | self.bishop_targets(s),
            PieceType::King => self.king_targets(s),
        }
    }

    /// `entry` is (the mask of square `t`, the destinations of a piece of the
    /// given kind on `t`) for some square `t` of `m`.
    pub open spec fn is_listed_move(self, kind: PieceType, m: u64, entry: (u64, u64)) -> bool {
        exists|t: int|
            0 <= t < 64 && occupies(m, t) && entry == (square_bit(t), self.targets_from(kind, t))
    }
}

/// Every entry listed for the pieces of one kind is one of those pieces, on
/// its square, with the destinations a piece of that kind has from there.
pub proof fn lemma_listed_moves_geometric(b: BoardModel, kind: PieceType, m: u64)
    ensures
        forall|j: int|
            0 <= j < b.moves_of_squares(kind, m).len() ==> b.is_listed_move(
                kind,
                m,
                #[trigger] b.moves_of_squares(kind, m)[j],
            ),
{
    bits::lemma_squares_of(m);
    let listed = b.moves_of_squares(kind, m);
    assert forall|j: int| 0 <= j < listed.len() implies b.is_listed_move(
        kind,
        m,
        #[trigger] listed[j],
    ) by {
        let p = squares_of(m)[j];
        assert(is_square_of(m, p, 0));
        let t = choose|t: int| 0 <= t < 64 && occupies(m, t) && p == square_bit(t);
        match kind {
            PieceType::Pawn => lemma_pawn_single(b, t),
            PieceType::Rook => lemma_rook_single(b, t),
            PieceType::Knight => lemma_knight_single(b, t),
            PieceType::Bishop => lemma_bishop_single(b, t),
            PieceType::Queen => {
                lemma_rook_single(b, t);
                lemma_bishop_single(b, t);
            },
            PieceType::King => lemma_king_single(b, t),
        }
        assert(listed[j] == (square_bit(t), b.targets_from(kind, t)));
    }
}

/// A promotion by the side to move, from a square of its pawns to a square
/// they do not hold: the side changes, the pawn mask loses the source
/// square, the promotion mask holds the target square, and no en passant
/// square is left.
pub proof fn lemma_promotion(b: BoardModel, s1: int, s2: int, piece: PieceType)
    requires
        b.pieces.len() == 12,
        0 <= s1 < 64,
        0 <= s2 < 64,
        promotion_index(b.white_to_move, piece) is Some,
        occupies(b.active(PieceType::Pawn), s1),
        !occupies(b.active(PieceType::Pawn), s2),
    ensures
        after_move(b, s1, s2, Some(piece)) is Ok,
        ({
            let nb = after_move(b, s1, s2, Some(piece))->Ok_0;
            &&& nb.white_to_move == !b.white_to_move
            &&& nb.pieces.len() == 12
            &&& nb.active_after_move(PieceType::Pawn) == b.active(PieceType::Pawn) & !square_bit(
                s1,
            )
            &&& occupies(nb.active_after_move(piece), s2)
            &&& nb.en_passant_mask() == 0
        }),
{
    let pawn: int = if b.white_to_move {
        0
    } else {
        6
    };
    let opp: int = if b.white_to_move {
        6
    } else {
        0
    };
    let promo = promotion_index(b.white_to_move, piece)->Some_0;
    let p1 = b.pieces.update(pawn, b.pieces[pawn] ^ square_bit(s1));
    let p2 = p1.update(promo, b.pieces[pawn] ^ square_bit(s2));
    lemma_first_holding_range(p2, opp, opp + 5, s1);
    let nb = after_move(b, s1, s2, Some(piece))->Ok_0;
    assert(nb.pieces[pawn] == p2[pawn]);
    assert(nb.pieces[promo] == p2[promo]);
    assert forall|t: int| 0 <= t < 64 implies occupies(p2[pawn], t) == occupies(
        b.pieces[pawn] & !square_bit(s1),
        t,
    ) by {
        bits::lemma_square_ops(b.pieces[pawn], square_bit(s1), t);
        bits::lemma_square_ops(b.pieces[pawn], !square_bit(s1), t);
        bits::lemma_square_ops(square_bit(s1), 0, t);
        bits::lemma_square_bit_holds(s1, t);
    }
    bits::lemma_equal_by_squares(p2[pawn], b.pieces[pawn] & !square_bit(s1));
    bits::lemma_square_ops(b.pieces[pawn], square_bit(s2), s2);
    bits::lemma_square_bit_holds(s2, s2);
    bits::lemma_special_byte(b.special_moves, 0);
}

impl BoardModel {
    /// The mask of the given kind of the side that moved last (the side not
    /// to move).
    pub open spec fn active_after_move(self, kind: PieceType) -> u64 {
        if self.white_to_move {
            self.pieces[kind_index(kind) + 6]
        } else {
            self.pieces[kind_index(kind)]
        }
    }
}

impl BoardModel {
    /// The position has twelve masks and no square is in two of them.
    pub open spec fn disjoint_masks(self) -> bool {
        &&& self.pieces.len() == 12
        &&& forall|j: int, k: int|
            0 <= j < 12 && 0 <= k < 12 && j != k ==> #[trigger] (self.pieces[j] & self.pieces[k])
                == 0
    }
}

/// Which squares the side occupancies hold, one square at a time.
pub proof fn lemma_side_squares(b: BoardModel, t: int)
    requires
        0 <= t < 64,
    ensures
        occupies(b.white_occupancy(), t) == (occupies(b.pieces[0], t) || occupies(b.pieces[2], t)
            || occupies(b.pieces[3], t) || occupies(b.pieces[1], t) || occupies(b.pieces[4], t)
            || occupies(b.pieces[5], t)),
        occupies(b.black_occupancy(), t) == (occupies(b.pieces[6], t) || occupies(b.pieces[8], t)
            || occupies(b.pieces[9], t) || occupies(b.pieces[7], t) || occupies(b.pieces[10], t)
            || occupies(b.pieces[11], t)),
        occupies(b.total_occupancy(), t) == (occupies(b.white_occupancy(), t) || occupies(
            b.black_occupancy(),
            t,
        )),
{
    let p = b.pieces;
    bits::lemma_square_ops(p[0], p[2], t);
    bits::lemma_square_ops(p[0] | p[2], p[3], t);
    bits::lemma_square_ops(p[0] | p[2] | p[3], p[1], t);
    bits::lemma_square_ops(p[0] | p[2] | p[3] | p[1], p[4], t);
    bits::lemma_square_ops(p[0] | p[2] | p[3] | p[1] | p[4], p[5], t);
    bits::lemma_square_ops(p[6], p[8], t);
    bits::lemma_square_ops(p[6] | p[8], p[9], t);
    bits::lemma_square_ops(p[6] | p[8] | p[9], p[7], t);
    bits::lemma_square_ops(p[6] | p[8] | p[9] | p[7], p[10], t);
    bits::lemma_square_ops(p[6] | p[8] | p[9] | p[7] | p[10], p[11], t);
    bits::lemma_square_ops(b.white_occupancy(), b.black_occupancy(), t);
}

/// The total occupancy holds a square exactly when one of the twelve masks
/// does.
pub proof fn lemma_total_squares(b: BoardModel, t: int)
    requires
        b.pieces.len() == 12,
        0 <= t < 64,
    ensures
        occupies(b.total_occupancy(), t) == exists|k: int|
            0 <= k < 12 && #[trigger] occupies(b.pieces[k], t),
{
    lemma_side_squares(b, t);
    if exists|k: int| 0 <= k < 12 && #[trigger] occupies(b.pieces[k], t) {
        let k = choose|k: int| 0 <= k < 12 && #[trigger] occupies(b.pieces[k], t);
        assert(k == 0 || k == 1 || k == 2 || k == 3 || k == 4 || k == 5 || k == 6 || k == 7 || k
            == 8 || k == 9 || k == 10 || k == 11);
    }
}

/// In a position with disjoint masks, no square is in two masks.
pub proof fn lemma_disjoint_squares(b: BoardModel, j: int, k: int, t: int)
    requires
        b.disjoint_masks(),
        0 <= j < 12,
        0 <= k < 12,
        j != k,
        0 <= t < 64,
    ensures
        !(occupies(b.pieces[j], t) && occupies(b.pieces[k], t)),
{
    assert(b.pieces[j] & b.pieces[k] == 0);
    bits::lemma_square_ops(b.pieces[j], b.pieces[k], t);
}

/// Masks that hold no common square make a position with disjoint masks.
pub proof fn lemma_disjoint_from_squares(b: BoardModel)
    requires
        b.pieces.len() == 12,
        forall|j: int, k: int, t: int|
            0 <= j < 12 && 0 <= k < 12 && j != k && 0 <= t < 64 ==> !(#[trigger] occupies(
                b.pieces[j],
                t,
            ) && #[trigger] occupies(b.pieces[k], t)),
    ensures
        b.disjoint_masks(),
{
    assert forall|j: int, k: int|
        0 <= j < 12 && 0 <= k < 12 && j != k implies #[trigger] (b.pieces[j] & b.pieces[k]) == 0 by {
        assert forall|t: int| 0 <= t < 64 implies occupies(b.pieces[j] & b.pieces[k], t)
            == occupies(0, t) by {
            bits::lemma_square_ops(b.pieces[j], b.pieces[k], t);
        }
        bits::lemma_equal_by_squares(b.pieces[j] & b.pieces[k], 0);
    }
}

/// The only mask of `lo..=hi` that holds `s` is the first one that does.
pub proof fn lemma_only_holder(p: Seq<u64>, lo: int, hi: int, s: int, i: int)
    requires
        lo <= i <= hi,
        occupies(p[i], s),
        forall|k: int| lo <= k <= hi && k != i ==> !occupies(#[trigger] p[k], s),
    ensures
        first_holding(p, lo, hi, s) == Some(i),
    decreases hi + 1 - lo,
{
    if lo < i {
        lemma_only_holder(p, lo + 1, hi, s, i);
    }
}

/// A plain move (no promotion) of a piece of the side to move, in a position
/// with disjoint masks, to a square that holds no piece of the mover and no
/// opponent piece other than a pawn: the piece's mask loses the source and
/// gains the target, the opponent's pawns lose the target, the other ten
/// masks stay, the masks stay disjoint, the total occupancy loses the source
/// and gains the target, and the side to move changes.
pub proof fn lemma_plain_move(b: BoardModel, s1: int, s2: int, i: int)
    requires
        b.disjoint_masks(),
        0 <= s1 < 64,
        0 <= s2 < 64,
        s1 != s2,
        (if b.white_to_move {
            0 <= i < 6
        } else {
            6 <= i < 12
        }),
        occupies(b.pieces[i], s1),
        !occupies(b.own_occupancy(), s2),
        forall|k: int|
            0 <= k < 12 && k != (if b.white_to_move {
                6int
            } else {
                0int
            }) && (if b.white_to_move {
                6 <= k
            } else {
                k < 6
            }) ==> !occupies(#[trigger] b.pieces[k], s2),
    ensures
        ({
            let nb = after_move(b, s1, s2, None)->Ok_0;
            let opp: int = if b.white_to_move {
                6
            } else {
                0
            };
            &&& nb.pieces.len() == 12
            &&& nb.pieces[i] == (b.pieces[i] & !square_bit(s1)) | square_bit(s2)
            &&& nb.pieces[opp] == b.pieces[opp] & !square_bit(s2)
            &&& forall|k: int|
                0 <= k < 12 && k != i && k != opp ==> #[trigger] nb.pieces[k] == b.pieces[k]
            &&& nb.disjoint_masks()
            &&& nb.total_occupancy() == (b.total_occupancy() & !square_bit(s1)) | square_bit(s2)
            &&& nb.white_to_move == !b.white_to_move
        }),
{
    let p = b.pieces;
    let lo: int = if b.white_to_move {
        0
    } else {
        6
    };
    let opp: int = if b.white_to_move {
        6
    } else {
        0
    };
    let a = square_bit(s1);
    let c = square_bit(s2);
    lemma_side_squares(b, s2);
    assert forall|k: int| lo <= k <= lo + 5 && k != i implies !occupies(#[trigger] p[k], s1) by {
        lemma_disjoint_squares(b, i, k, s1);
    }
    lemma_only_holder(p, lo, lo + 5, s1, i);
    let moved = toggle_first(p, lo, lo + 5, s1, a | c);
    assert(moved == p.update(i, p[i] ^ (a | c)));
    let nb = after_move(b, s1, s2, None)->Ok_0;
    // The mover's mask.
    assert forall|t: int| 0 <= t < 64 implies occupies(moved[i], t) == occupies(
        (p[i] & !a) | c,
        t,
    ) by {
        bits::lemma_square_ops(p[i], a | c, t);
        bits::lemma_square_ops(a, c, t);
        bits::lemma_square_ops(p[i] & !a, c, t);
        bits::lemma_square_ops(p[i], !a, t);
        bits::lemma_square_ops(a, 0, t);
        bits::lemma_square_bit_holds(s1, t);
        bits::lemma_square_bit_holds(s2, t);
    }
    bits::lemma_equal_by_squares(moved[i], (p[i] & !a) | c);
    // The opponent's pawns.
    assert(moved[opp] == p[opp]);
    assert(first_holding(moved, opp + 1, opp, s2) is None);
    if occupies(moved[opp], s2) {
        assert(nb.pieces == moved.update(opp, moved[opp] ^ c));
    } else {
        assert(nb.pieces == moved);
    }
    assert forall|t: int| 0 <= t < 64 implies occupies(nb.pieces[opp], t) == occupies(
        p[opp] & !c,
        t,
    ) by {
        bits::lemma_square_ops(p[opp], c, t);
        bits::lemma_square_ops(p[opp], !c, t);
        bits::lemma_square_ops(c, 0, t);
        bits::lemma_square_bit_holds(s2, t);
    }
    bits::lemma_equal_by_squares(nb.pieces[opp], p[opp] & !c);
    assert(nb.pieces =~= moved.update(opp, p[opp] & !c));
    // Square by square contents of the new masks.
    assert forall|k: int, t: int| 0 <= k < 12 && 0 <= t < 64 implies #[trigger] occupies(
        nb.pieces[k],
        t,
    ) == (if k == i {
        (occupies(p[i], t) && t != s1) || t == s2
    } else if k == opp {
        occupies(p[opp], t) && t != s2
    } else {
        occupies(p[k], t)
    }) by {
        if k == i {
            assert(nb.pieces[i] == (p[i] & !a) | c);
            bits::lemma_square_ops(a, 0, t);
            bits::lemma_square_ops(p[i] & !a, c, t);
            bits::lemma_square_ops(p[i], !a, t);
            bits::lemma_square_bit_holds(s1, t);
            bits::lemma_square_bit_holds(s2, t);
        } else if k == opp {
            bits::lemma_square_ops(c, 0, t);
            bits::lemma_square_ops(p[opp], !c, t);
            bits::lemma_square_bit_holds(s2, t);
        } else {
            assert(nb.pieces[k] == p[k]);
        }
    }
    // Nothing of the mover holds the target.
    assert forall|k: int| 0 <= k < 12 && k != opp implies !occupies(#[trigger] p[k], s2) by {
        if !(if b.white_to_move {
            6 <= k
        } else {
            k < 6
        }) {
            assert(k == lo || k == lo + 1 || k == lo + 2 || k == lo + 3 || k == lo + 4 || k == lo
                + 5);
        }
    }
    // Disjointness.
    assert forall|j: int, k: int, t: int|
        0 <= j < 12 && 0 <= k < 12 && j != k && 0 <= t < 64 implies !(#[trigger] occupies(
        nb.pieces[j],
        t,
    ) && #[trigger] occupies(nb.pieces[k], t)) by {
        lemma_disjoint_squares(b, j, k, t);
    }
    lemma_disjoint_from_squares(nb);
    // Total occupancy.
    assert forall|t: int| 0 <= t < 64 implies occupies(nb.total_occupancy(), t) == occupies(
        (b.total_occupancy() & !a) | c,
        t,
    ) by {
        lemma_total_squares(b, t);
        lemma_total_squares(nb, t);
        bits::lemma_square_ops(b.total_occupancy() & !a, c, t);
        bits::lemma_square_ops(b.total_occupancy(), !a, t);
        bits::lemma_square_ops(a, 0, t);
        bits::lemma_square_bit_holds(s1, t);
        bits::lemma_square_bit_holds(s2, t);
        if t == s2 {
            assert(occupies(nb.pieces[i], t));
        } else if t == s1 {
            assert forall|k: int| 0 <= k < 12 implies !occupies(#[trigger] nb.pieces[k], t) by {
                if k != i {
                    lemma_disjoint_squares(b, i, k, s1);
                }
            }
        } else {
            if exists|k: int| 0 <= k < 12 && #[trigger] occupies(p[k], t) {
                let k = choose|k: int| 0 <= k < 12 && #[trigger] occupies(p[k], t);
                assert(occupies(nb.pieces[k], t));
            }
            if exists|k: int| 0 <= k < 12 && #[trigger] occupies(nb.pieces[k], t) {
                let k = choose|k: int| 0 <= k < 12 && #[trigger] occupies(nb.pieces[k], t);
                assert(occupies(p[k], t));
            }
        }
    }
    bits::lemma_equal_by_squares(nb.total_occupancy(), (b.total_occupancy() & !a) | c);
}

/// Which squares a one-jump target holds: only the target square, when it is
/// on the board and not in `own`.
pub proof fn lemma_hop_squares(file: int, rank: int, df: int, dr: int, own: u64, t: int)
    requires
        0 <= t < 64,
    ensures
        occupies(hop(file, rank, df, dr, own), t) == (on_board(file + df, rank + dr) && t
            == square_at(file + df, rank + dr) && !occupies(own, t)),
        bits::count_from(hop(file, rank, df, dr, own), 0) <= 1,
{
    let x = square_at(file + df, rank + dr);
    bits::lemma_square_ops(0, 0, t);
    bits::lemma_count_single(0, 0);
    if on_board(file + df, rank + dr) {
        bits::lemma_square_bit_holds(x, t);
        bits::lemma_or_facts(square_bit(x), own, 0);
        bits::lemma_count_single(x, 0);
    }
}

/// The king on square `s` reaches exactly the squares one step away in any
/// direction (without wrapping across an edge) that hold no piece of the
/// side to move, at most eight squares.
pub proof fn lemma_king_neighbourhood(b: BoardModel, s: int)
    requires
        0 <= s < 64,
    ensures
        forall|t: int|
            0 <= t < 64 ==> (#[trigger] occupies(b.king_targets(s), t) <==> t != s && -1 <= t % 8
                - s % 8 <= 1 && -1 <= t / 8 - s / 8 <= 1 && !occupies(b.own_occupancy(), t)),
        popcount(b.king_targets(s)) <= 8,
{
    let own = b.own_occupancy();
    let f = s % 8;
    let r = s / 8;
    let h1 = hop(f, r, 0, 1, own);
    let h2 = hop(f, r, -1, 1, own);
    let h3 = hop(f, r, 1, 1, own);
    let h4 = hop(f, r, 0, -1, own);
    let h5 = hop(f, r, -1, -1, own);
    let h6 = hop(f, r, 1, -1, own);
    let h7 = hop(f, r, -1, 0, own);
    let h8 = hop(f, r, 1, 0, own);
    assert forall|t: int| 0 <= t < 64 implies (#[trigger] occupies(b.king_targets(s), t) <==> t
        != s && -1 <= t % 8 - s % 8 <= 1 && -1 <= t / 8 - s / 8 <= 1 && !occupies(
        b.own_occupancy(),
        t,
    )) by {
        lemma_hop_squares(f, r, 0, 1, own, t);
        lemma_hop_squares(f, r, -1, 1, own, t);
        lemma_hop_squares(f, r, 1, 1, own, t);
        lemma_hop_squares(f, r, 0, -1, own, t);
        lemma_hop_squares(f, r, -1, -1, own, t);
        lemma_hop_squares(f, r, 1, -1, own, t);
        lemma_hop_squares(f, r, -1, 0, own, t);
        lemma_hop_squares(f, r, 1, 0, own, t);
        bits::lemma_square_ops(h1, h2, t);
        bits::lemma_square_ops(h1 | h2, h3, t);
        bits::lemma_square_ops(h1 | h2 | h3, h4, t);
        bits::lemma_square_ops(h1 | h2 | h3 | h4, h5, t);
        bits::lemma_square_ops(h1 | h2 | h3 | h4 | h5, h6, t);
        bits::lemma_square_ops(h1 | h2 | h3 | h4 | h5 | h6, h7, t);
        bits::lemma_square_ops(h1 | h2 | h3 | h4 | h5 | h6 | h7, h8, t);
        assert(t == 8 * (t / 8) + t % 8);
        assert(s == 8 * (s / 8) + s % 8);
    }
    lemma_hop_squares(f, r, 0, 1, own, 0);
    lemma_hop_squares(f, r, -1, 1, own, 0);
    lemma_hop_squares(f, r, 1, 1, own, 0);
    lemma_hop_squares(f, r, 0, -1, own, 0);
    lemma_hop_squares(f, r, -1, -1, own, 0);
    lemma_hop_squares(f, r, 1, -1, own, 0);
    lemma_hop_squares(f, r, -1, 0, own, 0);
    lemma_hop_squares(f, r, 1, 0, own, 0);
    bits::lemma_count_union(h1, h2, 0);
    bits::lemma_count_union(h1 | h2, h3, 0);
    bits::lemma_count_union(h1 | h2 | h3, h4, 0);
    bits::lemma_count_union(h1 | h2 | h3 | h4, h5, 0);
    bits::lemma_count_union(h1 | h2 | h3 | h4 | h5, h6, 0);
    bits::lemma_count_union(h1 | h2 | h3 | h4 | h5 | h6, h7, 0);
    bits::lemma_count_union(h1 | h2 | h3 | h4 | h5 | h6 | h7, h8, 0);
}

/// In a position with disjoint masks where the side to move has one king,
/// the pseudo-legal move list has one entry per piece of that side: its
/// length is the number of squares the side occupies.
pub proof fn lemma_pseudo_legal_count(b: BoardModel)
    requires
        b.disjoint_masks(),
        popcount(b.active(PieceType::King)) == 1,
    ensures
        b.pseudo_legal_moves().len() == popcount(b.own_occupancy()),
{
    let lo: int = if b.white_to_move {
        0
    } else {
        6
    };
    let p = b.pieces;
    let u1 = p[lo] | p[lo + 2];
    let u2 = u1 | p[lo + 3];
    let u3 = u2 | p[lo + 1];
    let u4 = u3 | p[lo + 4];
    let u5 = u4 | p[lo + 5];
    assert(u5 == b.own_occupancy());
    assert forall|t: int| 0 <= t < 64 implies !(occupies(p[lo], t) && occupies(p[lo + 2], t)) by {
        lemma_disjoint_squares(b, lo, lo + 2, t);
    }
    assert forall|t: int| 0 <= t < 64 implies !(occupies(u1, t) && occupies(p[lo + 3], t)) by {
        bits::lemma_square_ops(p[lo], p[lo + 2], t);
        lemma_disjoint_squares(b, lo, lo + 3, t);
        lemma_disjoint_squares(b, lo + 2, lo + 3, t);
    }
    assert forall|t: int| 0 <= t < 64 implies !(occupies(u2, t) && occupies(p[lo + 1], t)) by {
        bits::lemma_square_ops(p[lo], p[lo + 2], t);
        bits::lemma_square_ops(u1, p[lo + 3], t);
        lemma_disjoint_squares(b, lo, lo + 1, t);
        lemma_disjoint_squares(b, lo + 2, lo + 1, t);
        lemma_disjoint_squares(b, lo + 3, lo + 1, t);
    }
    assert forall|t: int| 0 <= t < 64 implies !(occupies(u3, t) && occupies(p[lo + 4], t)) by {
        bits::lemma_square_ops(p[lo], p[lo + 2], t);
        bits::lemma_square_ops(u1, p[lo + 3], t);
        bits::lemma_square_ops(u2, p[lo + 1], t);
        lemma_disjoint_squares(b, lo, lo + 4, t);
        lemma_disjoint_squares(b, lo + 2, lo + 4, t);
        lemma_disjoint_squares(b, lo + 3, lo + 4, t);
        lemma_disjoint_squares(b, lo + 1, lo + 4, t);
    }
    assert forall|t: int| 0 <= t < 64 implies !(occupies(u4, t) && occupies(p[lo + 5], t)) by {
        bits::lemma_square_ops(p[lo], p[lo + 2], t);
        bits::lemma_square_ops(u1, p[lo + 3], t);
        bits::lemma_square_ops(u2, p[lo + 1], t);
        bits::lemma_square_ops(u3, p[lo + 4], t);
        lemma_disjoint_squares(b, lo, lo + 5, t);
        lemma_disjoint_squares(b, lo + 2, lo + 5, t);
        lemma_disjoint_squares(b, lo + 3, lo + 5, t);
        lemma_disjoint_squares(b, lo + 1, lo + 5, t);
        lemma_disjoint_squares(b, lo + 4, lo + 5, t);
    }
    bits::lemma_count_union(p[lo], p[lo + 2], 0);
    bits::lemma_count_union(u1, p[lo + 3], 0);
    bits::lemma_count_union(u2, p[lo + 1], 0);
    bits::lemma_count_union(u3, p[lo + 4], 0);
    bits::lemma_count_union(u4, p[lo + 5], 0);
    assert(popcount(b.own_occupancy()) == bits::count_from(u5, 0));
    assert(b.moves_of_squares(PieceType::Pawn, b.active(PieceType::Pawn)).len() == popcount(
        p[lo],
    ));
    assert(b.moves_of_squares(PieceType::Rook, b.active(PieceType::Rook)).len() == popcount(
        p[lo + 1],
    ));
    assert(b.moves_of_squares(PieceType::Knight, b.active(PieceType::Knight)).len() == popcount(
        p[lo + 2],
    ));
    assert(b.moves_of_squares(PieceType::Bishop, b.active(PieceType::Bishop)).len() == popcount(
        p[lo + 3],
    ));
    assert(b.moves_of_squares(PieceType::Queen, b.active(PieceType::Queen)).len() == popcount(
        p[lo + 4],
    ));
    assert(popcount(p[lo + 5]) == 1);
}

/// `entry` is (the mask of a square `t` of `m`, `targets(t)`).
pub open spec fn is_entry_for(m: u64, entry: (u64, u64), targets: spec_fn(int) -> u64) -> bool {
    exists|t: int| 0 <= t < 64 && occupies(m, t) && entry == (square_bit(t), targets(t))
}

/// The pseudo-legal move list is made of one block per kind, in the order
/// pawns, rooks, knights, bishops, queens, each as long as the side to move
/// has pieces of that kind, then the king entry. Every entry of a block is
/// one of that kind's squares with the squares a piece of that kind reaches
/// from there over the board: pushes and captures for pawns, file and rank
/// slides for rooks, jumps for knights, diagonal slides for bishops, both
/// slides for queens.
pub proof fn lemma_pseudo_legal_blocks(b: BoardModel)
    ensures
        ({
            let ms = b.pseudo_legal_moves();
            let np = popcount(b.active(PieceType::Pawn)) as int;
            let nr = popcount(b.active(PieceType::Rook)) as int;
            let nn = popcount(b.active(PieceType::Knight)) as int;
            let nb = popcount(b.active(PieceType::Bishop)) as int;
            let nq = popcount(b.active(PieceType::Queen)) as int;
            &&& ms.len() == np + nr + nn + nb + nq + 1
            &&& forall|j: int|
                0 <= j < np ==> is_entry_for(
                    b.active(PieceType::Pawn),
                    #[trigger] ms[j],
                    |t: int| b.pawn_targets(t),
                )
            &&& forall|j: int|
                np <= j < np + nr ==> is_entry_for(
                    b.active(PieceType::Rook),
                    #[trigger] ms[j],
                    |t: int| b.rook_targets(t),
                )
            &&& forall|j: int|
                np + nr <= j < np + nr + nn ==> is_entry_for(
                    b.active(PieceType::Knight),
                    #[trigger] ms[j],
                    |t: int| b.knight_targets(t),
                )
            &&& forall|j: int|
                np + nr + nn <= j < np + nr + nn + nb ==> is_entry_for(
                    b.active(PieceType::Bishop),
                    #[trigger] ms[j],
                    |t: int| b.bishop_targets(t),
                )
            &&& forall|j: int|
                np + nr + nn + nb <= j < np + nr + nn + nb + nq ==> is_entry_for(
                    b.active(PieceType::Queen),
                    #[trigger] ms[j],
                    |t: int| b.rook_targets(t) | b.bishop_targets(t),
                )
            &&& ms[np + nr + nn + nb + nq] == (
                b.active(PieceType::King),
                b.king_moves(b.active(PieceType::King)),
            )
        }),
{
    let ms = b.pseudo_legal_moves();
    let mp = b.moves_of_squares(PieceType::Pawn, b.active(PieceType::Pawn));
    let mr = b.moves_of_squares(PieceType::Rook, b.active(PieceType::Rook));
    let mn = b.moves_of_squares(PieceType::Knight, b.active(PieceType::Knight));
    let mb = b.moves_of_squares(PieceType::Bishop, b.active(PieceType::Bishop));
    let mq = b.moves_of_squares(PieceType::Queen, b.active(PieceType::Queen));
    lemma_listed_moves_geometric(b, PieceType::Pawn, b.active(PieceType::Pawn));
    lemma_listed_moves_geometric(b, PieceType::Rook, b.active(PieceType::Rook));
    lemma_listed_moves_geometric(b, PieceType::Knight, b.active(PieceType::Knight));
    lemma_listed_moves_geometric(b, PieceType::Bishop, b.active(PieceType::Bishop));
    lemma_listed_moves_geometric(b, PieceType::Queen, b.active(PieceType::Queen));
    let np = mp.len() as int;
    let nr = mr.len() as int;
    let nn = mn.len() as int;
    let nb = mb.len() as int;
    let nq = mq.len() as int;
    assert(ms == mp + mr + mn + mb + mq + seq![
        (b.active(PieceType::King), b.king_moves(b.active(PieceType::King))),
    ]);
    assert forall|j: int| 0 <= j < np implies is_entry_for(
        b.active(PieceType::Pawn),
        #[trigger] ms[j],
        |t: int| b.pawn_targets(t),
    ) by {
        assert(ms[j] == mp[j]);
        assert(b.is_listed_move(PieceType::Pawn, b.active(PieceType::Pawn), mp[j]));
        let t = choose|t: int|
            0 <= t < 64 && occupies(b.active(PieceType::Pawn), t) && mp[j] == (
                square_bit(t),
                b.targets_from(PieceType::Pawn, t),
            );
        assert((|t: int| b.pawn_targets(t))(t) == b.pawn_targets(t));
    }
    assert forall|j: int| np <= j < np + nr implies is_entry_for(
        b.active(PieceType::Rook),
        #[trigger] ms[j],
        |t: int| b.rook_targets(t),
    ) by {
        assert(ms[j] == mr[j - np]);
        assert(b.is_listed_move(PieceType::Rook, b.active(PieceType::Rook), mr[j - np]));
        let t = choose|t: int|
            0 <= t < 64 && occupies(b.active(PieceType::Rook), t) && mr[j - np] == (
                square_bit(t),
                b.targets_from(PieceType::Rook, t),
            );
        assert((|t: int| b.rook_targets(t))(t) == b.rook_targets(t));
    }
    assert forall|j: int| np + nr <= j < np + nr + nn implies is_entry_for(
        b.active(PieceType::Knight),
        #[trigger] ms[j],
        |t: int| b.knight_targets(t),
    ) by {
        assert(ms[j] == mn[j - np - nr]);
        assert(b.is_listed_move(PieceType::Knight, b.active(PieceType::Knight), mn[j - np - nr]));
        let t = choose|t: int|
            0 <= t < 64 && occupies(b.active(PieceType::Knight), t) && mn[j - np - nr] == (
                square_bit(t),
                b.targets_from(PieceType::Knight, t),
            );
        assert((|t: int| b.knight_targets(t))(t) == b.knight_targets(t));
    }
    assert forall|j: int| np + nr + nn <= j < np + nr + nn + nb implies is_entry_for(
        b.active(PieceType::Bishop),
        #[trigger] ms[j],
        |t: int| b.bishop_targets(t),
    ) by {
        assert(ms[j] == mb[j - np - nr - nn]);
        assert(b.is_listed_move(
            PieceType::Bishop,
            b.active(PieceType::Bishop),
            mb[j - np - nr - nn],
        ));
        let t = choose|t: int|
            0 <= t < 64 && occupies(b.active(PieceType::Bishop), t) && mb[j - np - nr - nn] == (
                square_bit(t),
                b.targets_from(PieceType::Bishop, t),
            );
        assert((|t: int| b.bishop_targets(t))(t) == b.bishop_targets(t));
    }
    assert forall|j: int| np + nr + nn + nb <= j < np + nr + nn + nb + nq implies is_entry_for(
        b.active(PieceType::Queen),
        #[trigger] ms[j],
        |t: int| b.rook_targets(t) | b.bishop_targets(t),
    ) by {
        assert(ms[j] == mq[j - np - nr - nn - nb]);
        assert(b.is_listed_move(
            PieceType::Queen,
            b.active(PieceType::Queen),
            mq[j - np - nr - nn - nb],
        ));
        let t = choose|t: int|
            0 <= t < 64 && occupies(b.active(PieceType::Queen), t) && mq[j - np - nr - nn - nb]
                == (square_bit(t), b.targets_from(PieceType::Queen, t));
        assert((|t: int| b.rook_targets(t) | b.bishop_targets(t))(t) == b.rook_targets(t)
            | b.bishop_targets(t));
    }
}

/// A move that is not a pawn's two-rank step leaves no en passant square:
/// every promotion, and every plain move whose piece is not the mover's
/// pawn or whose squares are not sixteen apart, clears the low four bits of
/// the special-move byte and keeps the castling bits.
pub proof fn lemma_en_passant_cleared(
    b: BoardModel,
    s1: int,
    s2: int,
    promotion: Option<PieceType>,
)
    requires
        b.pieces.len() == 12,
        0 <= s1 < 64,
        0 <= s2 < 64,
        after_move(b, s1, s2, promotion) is Ok,
        promotion is Some || first_holding(
            b.pieces,
            if b.white_to_move {
                0
            } else {
                6
            },
            if b.white_to_move {
                5
            } else {
                11
            },
            s1,
        ) != Some(
            if b.white_to_move {
                0int
            } else {
                6int
            },
        ) || (s1 - s2 != 16 && s2 - s1 != 16),
    ensures
        after_move(b, s1, s2, promotion)->Ok_0.special_moves & 0x0Fu8 == 0,
        after_move(b, s1, s2, promotion)->Ok_0.special_moves & 0xF0u8 == b.special_moves & 0xF0u8,
        after_move(b, s1, s2, promotion)->Ok_0.en_passant_mask() == 0,
{
    bits::lemma_special_byte(b.special_moves, 0);
}

/// A two-rank step of the mover's pawn records the target file as the en
/// passant file, whatever was recorded before, and keeps the castling bits.
pub proof fn lemma_en_passant_recorded(b: BoardModel, s1: int, s2: int)
    requires
        b.pieces.len() == 12,
        0 <= s1 < 64,
        0 <= s2 < 64,
        s1 - s2 == 16 || s2 - s1 == 16,
        first_holding(
            b.pieces,
            if b.white_to_move {
                0
            } else {
                6
            },
            if b.white_to_move {
                5
            } else {
                11
            },
            s1,
        ) == Some(
            if b.white_to_move {
                0int
            } else {
                6int
            },
        ),
    ensures
        after_move(b, s1, s2, None)->Ok_0.special_moves & 8u8 != 0,
        after_move(b, s1, s2, None)->Ok_0.special_moves & 7u8 == (s2 % 8) as u8,
        after_move(b, s1, s2, None)->Ok_0.special_moves & 0xF0u8 == b.special_moves & 0xF0u8,
{
    bits::lemma_special_byte(b.special_moves, (s2 % 8) as u8);
}

/// File letters: exactly `a` to `h` name a file, `a` the first and each
/// following letter the next one.
pub proof fn lemma_file_letters(c: char)
    ensures
        file_of_char(c) is Some <==> 'a' as int <= c as int <= 'h' as int,
        file_of_char(c) matches Some(f) ==> f == c as int - 'a' as int,
{
}

/// Rank digits: exactly `1` to `8` name a rank, `1` the first and each
/// following digit the next one.
pub proof fn lemma_rank_digits(c: char)
    ensures
        rank_of_char(c) is Some <==> '1' as int <= c as int <= '8' as int,
        rank_of_char(c) matches Some(r) ==> r == c as int - '1' as int,
{
}

/// Promotion letters: `q`, `r` and `b` name the queen, rook and bishop, and
/// the knight has a letter of its own; the four letters name four different
/// pieces and no other letter names any.
pub proof fn lemma_promotion_letters(c: char, d: char)
    ensures
        promotion_of_char(c) is Some ==> promotion_index(true, promotion_of_char(c)->Some_0)
            is Some,
        promotion_of_char(c) is Some && promotion_of_char(c) == promotion_of_char(d) ==> c == d,
        promotion_of_char('q') == Some(PieceType::Queen),
        promotion_of_char('r') == Some(PieceType::Rook),
        promotion_of_char('b') == Some(PieceType::Bishop),
{
}

/// Any text whose first four characters are a file letter, a rank digit, a
/// file letter and a rank digit names a move from the first square to the
/// second, and playing it is never refused as badly written.
pub proof fn lemma_well_formed_moves_parse(text: Seq<char>)
    requires
        text.len() >= 4,
        'a' as int <= text[0] as int <= 'h' as int,
        '1' as int <= text[1] as int <= '8' as int,
        'a' as int <= text[2] as int <= 'h' as int,
        '1' as int <= text[3] as int <= '8' as int,
    ensures
        parse_move(text) matches Some((f1, r1, f2, r2, _)) && f1 == text[0] as int - 'a' as int
            && r1 == text[1] as int - '1' as int && f2 == text[2] as int - 'a' as int && r2
            == text[3] as int - '1' as int,
        forall|h: Seq<BoardModel>|
            h.len() > 0 && (#[trigger] h.last()).pieces.len() == 12 ==> (match parse_move(text) {
                None => (Err(ChersError::MoveParseError), h),
                Some((f1, r1, f2, r2, promotion)) => history_after_move(
                    h,
                    square_at(f1 as int, r1 as int),
                    square_at(f2 as int, r2 as int),
                    promotion,
                ),
            }).0 is Ok,
{
    lemma_file_letters(text[0]);
    lemma_rank_digits(text[1]);
    lemma_file_letters(text[2]);
    lemma_rank_digits(text[3]);
}

/// In a position with disjoint masks, the piece on a square held by mask `k`
/// has the colour of that mask (white for the first six) and the kind whose
/// place among one side's six masks is `k % 6`; a square no mask holds is
/// empty.
pub proof fn lemma_piece_at_names_mask(b: BoardModel, s: int, k: int)
    requires
        b.disjoint_masks(),
        0 <= s < 64,
        0 <= k < 12,
        occupies(b.pieces[k], s),
    ensures
        b.piece_at(s) matches Some((color, kind)) && kind_index(kind) == k % 6 && (color
            == PieceColor::White <==> k < 6),
{
    assert forall|j: int| 0 <= j < 12 && j != k implies !occupies(#[trigger] b.pieces[j], s) by {
        lemma_disjoint_squares(b, j, k, s);
    }
}

/// A square that no mask holds is empty.
pub proof fn lemma_piece_at_empty(b: BoardModel, s: int)
    requires
        b.pieces.len() == 12,
        forall|k: int| 0 <= k < 12 ==> !occupies(#[trigger] b.pieces[k], s),
    ensures
        b.piece_at(s) is None,
{
    assert(!occupies(b.pieces[0], s) && !occupies(b.pieces[1], s) && !occupies(b.pieces[2], s)
        && !occupies(b.pieces[3], s) && !occupies(b.pieces[4], s) && !occupies(b.pieces[5], s)
        && !occupies(b.pieces[6], s) && !occupies(b.pieces[7], s) && !occupies(b.pieces[8], s)
        && !occupies(b.pieces[9], s) && !occupies(b.pieces[10], s) && !occupies(
        b.pieces[11],
        s,
    ));
}

/// The knight on square `s` reaches exactly the squares two files and one
/// rank, or one file and two ranks, away (without wrapping across an edge)
/// that hold no piece of the side to move, at most eight squares.
pub proof fn lemma_knight_jumps(b: BoardModel, s: int)
    requires
        0 <= s < 64,
    ensures
        forall|t: int|
            0 <= t < 64 ==> (#[trigger] occupies(b.knight_targets(s), t) <==> ({
                let dx = t % 8 - s % 8;
                let dy = t / 8 - s / 8;
                ((dx == 1 || dx == -1) && (dy == 2 || dy == -2)) || ((dx == 2 || dx == -2) && (dy
                    == 1 || dy == -1))
            }) && !occupies(b.own_occupancy(), t)),
        popcount(b.knight_targets(s)) <= 8,
{
    let own = b.own_occupancy();
    let f = s % 8;
    let r = s / 8;
    let h1 = hop(f, r, -1, 2, own);
    let h2 = hop(f, r, 1, 2, own);
    let h3 = hop(f, r, -2, 1, own);
    let h4 = hop(f, r, 2, 1, own);
    let h5 = hop(f, r, -1, -2, own);
    let h6 = hop(f, r, 1, -2, own);
    let h7 = hop(f, r, -2, -1, own);
    let h8 = hop(f, r, 2, -1, own);
    assert forall|t: int| 0 <= t < 64 implies (#[trigger] occupies(b.knight_targets(s), t) <==> ({
        let dx = t % 8 - s % 8;
        let dy = t / 8 - s / 8;
        ((dx == 1 || dx == -1) && (dy == 2 || dy == -2)) || ((dx == 2 || dx == -2) && (dy == 1
            || dy == -1))
    }) && !occupies(b.own_occupancy(), t)) by {
        lemma_hop_squares(f, r, -1, 2, own, t);
        lemma_hop_squares(f, r, 1, 2, own, t);
        lemma_hop_squares(f, r, -2, 1, own, t);
        lemma_hop_squares(f, r, 2, 1, own, t);
        lemma_hop_squares(f, r, -1, -2, own, t);
        lemma_hop_squares(f, r, 1, -2, own, t);
        lemma_hop_squares(f, r, -2, -1, own, t);
        lemma_hop_squares(f, r, 2, -1, own, t);
        bits::lemma_square_ops(h1, h2, t);
        bits::lemma_square_ops(h1 | h2, h3, t);
        bits::lemma_square_ops(h1 | h2 | h3, h4, t);
        bits::lemma_square_ops(h1 | h2 | h3 | h4, h5, t);
        bits::lemma_square_ops(h1 | h2 | h3 | h4 | h5, h6, t);
        bits::lemma_square_ops(h1 | h2 | h3 | h4 | h5 | h6, h7, t);
        bits::lemma_square_ops(h1 | h2 | h3 | h4 | h5 | h6 | h7, h8, t);
        assert(t == 8 * (t / 8) + t % 8);
        assert(s == 8 * (s / 8) + s % 8);
    }
    lemma_hop_squares(f, r, -1, 2, own, 0);
    lemma_hop_squares(f, r, 1, 2, own, 0);
    lemma_hop_squares(f, r, -2, 1, own, 0);
    lemma_hop_squares(f, r, 2, 1, own, 0);
    lemma_hop_squares(f, r, -1, -2, own, 0);
    lemma_hop_squares(f, r, 1, -2, own, 0);
    lemma_hop_squares(f, r, -2, -1, own, 0);
    lemma_hop_squares(f, r, 2, -1, own, 0);
    bits::lemma_count_union(h1, h2, 0);
    bits::lemma_count_union(h1 | h2, h3, 0);
    bits::lemma_count_union(h1 | h2 | h3, h4, 0);
    bits::lemma_count_union(h1 | h2 | h3 | h4, h5, 0);
    bits::lemma_count_union(h1 | h2 | h3 | h4 | h5, h6, 0);
    bits::lemma_count_union(h1 | h2 | h3 | h4 | h5 | h6, h7, 0);
    bits::lemma_count_union(h1 | h2 | h3 | h4 | h5 | h6 | h7, h8, 0);
}

/// The rook on square `s` reaches exactly the squares some number of steps
/// up, down, left or right whose way there is free: it stops before the
/// first piece of the side to move and on the first opponent piece.
pub proof fn lemma_rook_lines(b: BoardModel, s: int, t: int)
    requires
        0 <= s < 64,
        0 <= t < 64,
    ensures
        occupies(b.rook_targets(s), t) <==> {
            let own = b.own_occupancy();
            let other = b.other_occupancy();
            let f = s % 8;
            let r = s / 8;
            ||| exists|k: int| #[trigger] reached(f, r, 0, 1, own, other, k, t)
            ||| exists|k: int| #[trigger] reached(f, r, 0, -1, own, other, k, t)
            ||| exists|k: int| #[trigger] reached(f, r, -1, 0, own, other, k, t)
            ||| exists|k: int| #[trigger] reached(f, r, 1, 0, own, other, k, t)
        },
{
    let own = b.own_occupancy();
    let other = b.other_occupancy();
    let f = s % 8;
    let r = s / 8;
    let r1 = ray_geo(f, r, 0, 1, own, other);
    let r2 = ray_geo(f, r, 0, -1, own, other);
    let r3 = ray_geo(f, r, -1, 0, own, other);
    let r4 = ray_geo(f, r, 1, 0, own, other);
    bits::lemma_ray_geo_squares(f, r, 0, 1, own, other, t);
    bits::lemma_ray_geo_squares(f, r, 0, -1, own, other, t);
    bits::lemma_ray_geo_squares(f, r, -1, 0, own, other, t);
    bits::lemma_ray_geo_squares(f, r, 1, 0, own, other, t);
    bits::lemma_square_ops(r1, r2, t);
    bits::lemma_square_ops(r1 | r2, r3, t);
    bits::lemma_square_ops(r1 | r2 | r3, r4, t);
}

/// The bishop on square `s` reaches exactly the squares some number of
/// diagonal steps away whose way there is free: it stops before the first
/// piece of the side to move and on the first opponent piece.
pub proof fn lemma_bishop_lines(b: BoardModel, s: int, t: int)
    requires
        0 <= s < 64,
        0 <= t < 64,
    ensures
        occupies(b.bishop_targets(s), t) <==> {
            let own = b.own_occupancy();
            let other = b.other_occupancy();
            let f = s % 8;
            let r = s / 8;
            ||| exists|k: int| #[trigger] reached(f, r, -1, 1, own, other, k, t)
            ||| exists|k: int| #[trigger] reached(f, r, -1, -1, own, other, k, t)
            ||| exists|k: int| #[trigger] reached(f, r, 1, 1, own, other, k, t)
            ||| exists|k: int| #[trigger] reached(f, r, 1, -1, own, other, k, t)
        },
{
    let own = b.own_occupancy();
    let other = b.other_occupancy();
    let f = s % 8;
    let r = s / 8;
    let r1 = ray_geo(f, r, -1, 1, own, other);
    let r2 = ray_geo(f, r, -1, -1, own, other);
    let r3 = ray_geo(f, r, 1, 1, own, other);
    let r4 = ray_geo(f, r, 1, -1, own, other);
    bits::lemma_ray_geo_squares(f, r, -1, 1, own, other, t);
    bits::lemma_ray_geo_squares(f, r, -1, -1, own, other, t);
    bits::lemma_ray_geo_squares(f, r, 1, 1, own, other, t);
    bits::lemma_ray_geo_squares(f, r, 1, -1, own, other, t);
    bits::lemma_square_ops(r1, r2, t);
    bits::lemma_square_ops(r1 | r2, r3, t);
    bits::lemma_square_ops(r1 | r2 | r3, r4, t);
}

/// A pawn on square `s` moves one rank forward (up for white, down for
/// black) onto an empty square, two ranks from its home rank (2 for white,
/// 7 for black) when both squares are empty, and one rank forward and one
/// file aside onto an opponent piece or the en passant square; nothing else.
pub proof fn lemma_pawn_squares(b: BoardModel, s: int, t: int)
    requires
        0 <= s < 64,
        0 <= t < 64,
    ensures
        occupies(b.pawn_targets(s), t) <==> {
            let d: int = if b.white_to_move {
                8
            } else {
                -8
            };
            let home: int = if b.white_to_move {
                1
            } else {
                6
            };
            let occ = b.own_occupancy() | b.other_occupancy();
            let targets = b.other_occupancy() | b.en_passant_mask();
            let ahead = 0 <= s + d < 64;
            ||| ahead && t == s + d && !occupies(occ, t)
            ||| ahead && s / 8 == home && t == s + 2 * d && !occupies(occ, s + d) && !occupies(
                occ,
                t,
            )
            ||| ahead && s % 8 >= 1 && t == s + d - 1 && occupies(targets, t)
            ||| ahead && s % 8 <= 6 && t == s + d + 1 && occupies(targets, t)
        },
{
    let occ = b.own_occupancy() | b.other_occupancy();
    let targets = b.other_occupancy() | b.en_passant_mask();
    let f = s % 8;
    let r = s / 8;
    let dr: int = if b.white_to_move {
        1
    } else {
        -1
    };
    let nr = r + dr;
    bits::lemma_square_ops(0, 0, t);
    if 0 <= nr < 8 {
        let fw = square_at(f, nr);
        let db = square_at(f, nr + dr);
        let lf = square_at(f - 1, nr);
        let rt = square_at(f + 1, nr);
        let forward = square_bit(fw);
        let double = square_bit(db);
        let left = square_bit(lf);
        let right = square_bit(rt);
        assert(fw == s + 8 * dr);
        assert(0 <= fw < 64);
        bits::lemma_square_bit_holds(fw, t);
        bits::lemma_or_facts(forward, occ, 0);
        let home_rank: int = if b.white_to_move {
            1
        } else {
            6
        };
        let push = if forward & occ == 0 {
            if r == home_rank && double & occ == 0 {
                forward | double
            } else {
                forward
            }
        } else {
            0
        };
        if r == home_rank {
            assert(0 <= db < 64);
            bits::lemma_square_bit_holds(db, t);
            bits::lemma_or_facts(double, occ, 0);
            bits::lemma_square_ops(forward, double, t);
        }
        if f >= 1 {
            bits::lemma_square_bit_holds(lf, t);
            bits::lemma_or_facts(left, targets, 0);
        }
        if f <= 6 {
            bits::lemma_square_bit_holds(rt, t);
            bits::lemma_or_facts(right, targets, 0);
        }
        let with_left = if f >= 1 && left & targets != 0 {
            push | left
        } else {
            push
        };
        bits::lemma_square_ops(push, left, t);
        bits::lemma_square_ops(with_left, right, t);
    } else {
        assert(!(0 <= s + (if b.white_to_move {
            8int
        } else {
            -8int
        }) < 64));
    }
}

proof fn lemma_start_squares(t: u64)
    by (bit_vector)
    requires
        t < 64,
    ensures
        (0x00FF_0000_0000_0000u64 & (1u64 << (((7 - t / 8) * 8 + t % 8) as u64))) != 0 == ((
        0x0000_0000_0000_FF00u64 & (1u64 << t)) != 0),
        (0x8100_0000_0000_0000u64 & (1u64 << (((7 - t / 8) * 8 + t % 8) as u64))) != 0 == ((
        0x0000_0000_0000_0081u64 & (1u64 << t)) != 0),
        (0x4200_0000_0000_0000u64 & (1u64 << (((7 - t / 8) * 8 + t % 8) as u64))) != 0 == ((
        0x0000_0000_0000_0042u64 & (1u64 << t)) != 0),
        (0x2400_0000_0000_0000u64 & (1u64 << (((7 - t / 8) * 8 + t % 8) as u64))) != 0 == ((
        0x0000_0000_0000_0024u64 & (1u64 << t)) != 0),
        (0x0800_0000_0000_0000u64 & (1u64 << (((7 - t / 8) * 8 + t % 8) as u64))) != 0 == ((
        0x0000_0000_0000_0008u64 & (1u64 << t)) != 0),
        (0x1000_0000_0000_0000u64 & (1u64 << (((7 - t / 8) * 8 + t % 8) as u64))) != 0 == ((
        0x0000_0000_0000_0010u64 & (1u64 << t)) != 0),
{
}

proof fn lemma_start_masks_apart()
    by (bit_vector)
    ensures
        0xFF00u64 | 0x42u64 | 0x24u64 | 0x81u64 | 0x08u64 | 0x10u64 == 0xFFFFu64,
        0x00FF_0000_0000_0000u64 | 0x4200_0000_0000_0000u64 | 0x2400_0000_0000_0000u64
            | 0x8100_0000_0000_0000u64 | 0x0800_0000_0000_0000u64 | 0x1000_0000_0000_0000u64
            == 0xFFFF_0000_0000_0000u64,
        0x0000_0000_0000_FF00u64 & 0x0000_0000_0000_0081u64 == 0,
        0x0000_0000_0000_FF00u64 & 0x0000_0000_0000_0042u64 == 0,
        0x0000_0000_0000_FF00u64 & 0x0000_0000_0000_0024u64 == 0,
        0x0000_0000_0000_FF00u64 & 0x0000_0000_0000_0008u64 == 0,
        0x0000_0000_0000_FF00u64 & 0x0000_0000_0000_0010u64 == 0,
        0x0000_0000_0000_FF00u64 & 0x00FF_0000_0000_0000u64 == 0,
        0x0000_0000_0000_FF00u64 & 0x8100_0000_0000_0000u64 == 0,
        0x0000_0000_0000_FF00u64 & 0x4200_0000_0000_0000u64 == 0,
        0x0000_0000_0000_FF00u64 & 0x2400_0000_0000_0000u64 == 0,
        0x0000_0000_0000_FF00u64 & 0x0800_0000_0000_0000u64 == 0,
        0x0000_0000_0000_FF00u64 & 0x1000_0000_0000_0000u64 == 0,
        0x0000_0000_0000_0081u64 & 0x0000_0000_0000_FF00u64 == 0,
        0x0000_0000_0000_0081u64 & 0x0000_0000_0000_0042u64 == 0,
        0x0000_0000_0000_0081u64 & 0x0000_0000_0000_0024u64 == 0,
        0x0000_0000_0000_0081u64 & 0x0000_0000_0000_0008u64 == 0,
        0x0000_0000_0000_0081u64 & 0x0000_0000_0000_0010u64 == 0,
        0x0000_0000_0000_0081u64 & 0x00FF_0000_0000_0000u64 == 0,
        0x0000_0000_0000_0081u64 & 0x8100_0000_0000_0000u64 == 0,
        0x0000_0000_0000_0081u64 & 0x4200_0000_0000_0000u64 == 0,
        0x0000_0000_0000_0081u64 & 0x2400_0000_0000_0000u64 == 0,
        0x0000_0000_0000_0081u64 & 0x0800_0000_0000_0000u64 == 0,
        0x0000_0000_0000_0081u64 & 0x1000_0000_0000_0000u64 == 0,
        0x0000_0000_0000_0042u64 & 0x0000_0000_0000_FF00u64 == 0,
        0x0000_0000_0000_0042u64 & 0x0000_0000_0000_0081u64 == 0,
        0x0000_0000_0000_0042u64 & 0x0000_0000_0000_0024u64 == 0,
        0x0000_0000_0000_0042u64 & 0x0000_0000_0000_0008u64 == 0,
        0x0000_0000_0000_0042u64 & 0x0000_0000_0000_0010u64 == 0,
        0x0000_0000_0000_0042u64 & 0x00FF_0000_0000_0000u64 == 0,
        0x0000_0000_0000_0042u64 & 0x8100_0000_0000_0000u64 == 0,
        0x0000_0000_0000_0042u64 & 0x4200_0000_0000_0000u64 == 0,
        0x0000_0000_0000_0042u64 & 0x2400_0000_0000_0000u64 == 0,
        0x0000_0000_0000_0042u64 & 0x0800_0000_0000_0000u64 == 0,
        0x0000_0000_0000_0042u64 & 0x1000_0000_0000_0000u64 == 0,
        0x0000_0000_0000_0024u64 & 0x0000_0000_0000_FF00u64 == 0,
        0x0000_0000_0000_0024u64 & 0x0000_0000_0000_0081u64 == 0,
        0x0000_0000_0000_0024u64 & 0x0000_0000_0000_0042u64 == 0,
        0x0000_0000_0000_0024u64 & 0x0000_0000_0000_0008u64 == 0,
        0x0000_0000_0000_0024u64 & 0x0000_0000_0000_0010u64 == 0,
        0x0000_0000_0000_0024u64 & 0x00FF_0000_0000_0000u64 == 0,
        0x0000_0000_0000_0024u64 & 0x8100_0000_0000_0000u64 == 0,
        0x0000_0000_0000_0024u64 & 0x4200_0000_0000_0000u64 == 0,
        0x0000_0000_0000_0024u64 & 0x2400_0000_0000_0000u64 == 0,
        0x0000_0000_0000_0024u64 & 0x0800_0000_0000_0000u64 == 0,
        0x0000_0000_0000_0024u64 & 0x1000_0000_0000_0000u64 == 0,
        0x0000_0000_0000_0008u64 & 0x0000_0000_0000_FF00u64 == 0,
        0x0000_0000_0000_0008u64 & 0x0000_0000_0000_0081u64 == 0,
        0x0000_0000_0000_0008u64 & 0x0000_0000_0000_0042u64 == 0,
        0x0000_0000_0000_0008u64 & 0x0000_0000_0000_0024u64 == 0,
        0x0000_0000_0000_0008u64 & 0x0000_0000_0000_0010u64 == 0,
        0x0000_0000_0000_0008u64 & 0x00FF_0000_0000_0000u64 == 0,
        0x0000_0000_0000_0008u64 & 0x8100_0000_0000_0000u64 == 0,
        0x0000_0000_0000_0008u64 & 0x4200_0000_0000_0000u64 == 0,
        0x0000_0000_0000_0008u64 & 0x2400_0000_0000_0000u64 == 0,
        0x0000_0000_0000_0008u64 & 0x0800_0000_0000_0000u64 == 0,
        0x0000_0000_0000_0008u64 & 0x1000_0000_0000_0000u64 == 0,
        0x0000_0000_0000_0010u64 & 0x0000_0000_0000_FF00u64 == 0,
        0x0000_0000_0000_0010u64 & 0x0000_0000_0000_0081u64 == 0,
        0x0000_0000_0000_0010u64 & 0x0000_0000_0000_0042u64 == 0,
        0x0000_0000_0000_0010u64 & 0x0000_0000_0000_0024u64 == 0,
        0x0000_0000_0000_0010u64 & 0x0000_0000_0000_0008u64 == 0,
        0x0000_0000_0000_0010u64 & 0x00FF_0000_0000_0000u64 == 0,
        0x0000_0000_0000_0010u64 & 0x8100_0000_0000_0000u64 == 0,
        0x0000_0000_0000_0010u64 & 0x4200_0000_0000_0000u64 == 0,
        0x0000_0000_0000_0010u64 & 0x2400_0000_0000_0000u64 == 0,
        0x0000_0000_0000_0010u64 & 0x0800_0000_0000_0000u64 == 0,
        0x0000_0000_0000_0010u64 & 0x1000_0000_0000_0000u64 == 0,
        0x00FF_0000_0000_0000u64 & 0x0000_0000_0000_FF00u64 == 0,
        0x00FF_0000_0000_0000u64 & 0x0000_0000_0000_0081u64 == 0,
        0x00FF_0000_0000_0000u64 & 0x0000_0000_0000_0042u64 == 0,
        0x00FF_0000_0000_0000u64 & 0x0000_0000_0000_0024u64 == 0,
        0x00FF_0000_0000_0000u64 & 0x0000_0000_0000_0008u64 == 0,
        0x00FF_0000_0000_0000u64 & 0x0000_0000_0000_0010u64 == 0,
        0x00FF_0000_0000_0000u64 & 0x8100_0000_0000_0000u64 == 0,
        0x00FF_0000_0000_0000u64 & 0x4200_0000_0000_0000u64 == 0,
        0x00FF_0000_0000_0000u64 & 0x2400_0000_0000_0000u64 == 0,
        0x00FF_0000_0000_0000u64 & 0x0800_0000_0000_0000u64 == 0,
        0x00FF_0000_0000_0000u64 & 0x1000_0000_0000_0000u64 == 0,
        0x8100_0000_0000_0000u64 & 0x0000_0000_0000_FF00u64 == 0,
        0x8100_0000_0000_0000u64 & 0x0000_0000_0000_0081u64 == 0,
        0x8100_0000_0000_0000u64 & 0x0000_0000_0000_0042u64 == 0,
        0x8100_0000_0000_0000u64 & 0x0000_0000_0000_0024u64 == 0,
        0x8100_0000_0000_0000u64 & 0x0000_0000_0000_0008u64 == 0,
        0x8100_0000_0000_0000u64 & 0x0000_0000_0000_0010u64 == 0,
        0x8100_0000_0000_0000u64 & 0x00FF_0000_0000_0000u64 == 0,
        0x8100_0000_0000_0000u64 & 0x4200_0000_0000_0000u64 == 0,
        0x8100_0000_0000_0000u64 & 0x2400_0000_0000_0000u64 == 0,
        0x8100_0000_0000_0000u64 & 0x0800_0000_0000_0000u64 == 0,
        0x8100_0000_0000_0000u64 & 0x1000_0000_0000_0000u64 == 0,
        0x4200_0000_0000_0000u64 & 0x0000_0000_0000_FF00u64 == 0,
        0x4200_0000_0000_0000u64 & 0x0000_0000_0000_0081u64 == 0,
        0x4200_0000_0000_0000u64 & 0x0000_0000_0000_0042u64 == 0,
        0x4200_0000_0000_0000u64 & 0x0000_0000_0000_0024u64 == 0,
        0x4200_0000_0000_0000u64 & 0x0000_0000_0000_0008u64 == 0,
        0x4200_0000_0000_0000u64 & 0x0000_0000_0000_0010u64 == 0,
        0x4200_0000_0000_0000u64 & 0x00FF_0000_0000_0000u64 == 0,
        0x4200_0000_0000_0000u64 & 0x8100_0000_0000_0000u64 == 0,
        0x4200_0000_0000_0000u64 & 0x2400_0000_0000_0000u64 == 0,
        0x4200_0000_0000_0000u64 & 0x0800_0000_0000_0000u64 == 0,
        0x4200_0000_0000_0000u64 & 0x1000_0000_0000_0000u64 == 0,
        0x2400_0000_0000_0000u64 & 0x0000_0000_0000_FF00u64 == 0,
        0x2400_0000_0000_0000u64 & 0x0000_0000_0000_0081u64 == 0,
        0x2400_0000_0000_0000u64 & 0x0000_0000_0000_0042u64 == 0,
        0x2400_0000_0000_0000u64 & 0x0000_0000_0000_0024u64 == 0,
        0x2400_0000_0000_0000u64 & 0x0000_0000_0000_0008u64 == 0,
        0x2400_0000_0000_0000u64 & 0x0000_0000_0000_0010u64 == 0,
        0x2400_0000_0000_0000u64 & 0x00FF_0000_0000_0000u64 == 0,
        0x2400_0000_0000_0000u64 & 0x8100_0000_0000_0000u64 == 0,
        0x2400_0000_0000_0000u64 & 0x4200_0000_0000_0000u64 == 0,
        0x2400_0000_0000_0000u64 & 0x0800_0000_0000_0000u64 == 0,
        0x2400_0000_0000_0000u64 & 0x1000_0000_0000_0000u64 == 0,
        0x0800_0000_0000_0000u64 & 0x0000_0000_0000_FF00u64 == 0,
        0x0800_0000_0000_0000u64 & 0x0000_0000_0000_0081u64 == 0,
        0x0800_0000_0000_0000u64 & 0x0000_0000_0000_0042u64 == 0,
        0x0800_0000_0000_0000u64 & 0x0000_0000_0000_0024u64 == 0,
        0x0800_0000_0000_0000u64 & 0x0000_0000_0000_0008u64 == 0,
        0x0800_0000_0000_0000u64 & 0x0000_0000_0000_0010u64 == 0,
        0x0800_0000_0000_0000u64 & 0x00FF_0000_0000_0000u64 == 0,
        0x0800_0000_0000_0000u64 & 0x8100_0000_0000_0000u64 == 0,
        0x0800_0000_0000_0000u64 & 0x4200_0000_0000_0000u64 == 0,
        0x0800_0000_0000_0000u64 & 0x2400_0000_0000_0000u64 == 0,
        0x0800_0000_0000_0000u64 & 0x1000_0000_0000_0000u64 == 0,
        0x1000_0000_0000_0000u64 & 0x0000_0000_0000_FF00u64 == 0,
        0x1000_0000_0000_0000u64 & 0x0000_0000_0000_0081u64 == 0,
        0x1000_0000_0000_0000u64 & 0x0000_0000_0000_0042u64 == 0,
        0x1000_0000_0000_0000u64 & 0x0000_0000_0000_0024u64 == 0,
        0x1000_0000_0000_0000u64 & 0x0000_0000_0000_0008u64 == 0,
        0x1000_0000_0000_0000u64 & 0x0000_0000_0000_0010u64 == 0,
        0x1000_0000_0000_0000u64 & 0x00FF_0000_0000_0000u64 == 0,
        0x1000_0000_0000_0000u64 & 0x8100_0000_0000_0000u64 == 0,
        0x1000_0000_0000_0000u64 & 0x4200_0000_0000_0000u64 == 0,
        0x1000_0000_0000_0000u64 & 0x2400_0000_0000_0000u64 == 0,
        0x1000_0000_0000_0000u64 & 0x0800_0000_0000_0000u64 == 0,
        0xF0u8 & 8u8 == 0,
{
}

/// The starting position: white to move, no en passant square, white on the
/// first two ranks and black on the last two, the masks disjoint, and each
/// black mask the mirror image (rank `r` to rank `7 - r`, same file) of the
/// white mask of the same kind.
pub proof fn lemma_initial_position()
    ensures
        initial_board().white_to_move,
        initial_board().en_passant_mask() == 0,
        initial_board().white_occupancy() == bits::RANKS_1_2,
        initial_board().black_occupancy() == bits::RANKS_7_8,
        initial_board().disjoint_masks(),
        forall|k: int, t: int|
            0 <= k < 6 && 0 <= t < 64 ==> occupies(
                initial_board().pieces[k + 6],
                square_at(t % 8, 7 - t / 8),
            ) == #[trigger] occupies(initial_board().pieces[k], t),
{
    let b = initial_board();
    lemma_start_masks_apart();
    assert forall|k: int, t: int| 0 <= k < 6 && 0 <= t < 64 implies occupies(
        b.pieces[k + 6],
        square_at(t % 8, 7 - t / 8),
    ) == #[trigger] occupies(b.pieces[k], t) by {
        lemma_start_squares(t as u64);
        assert(k == 0 || k == 1 || k == 2 || k == 3 || k == 4 || k == 5);
        assert(((7 - (t as u64) / 8) * 8 + (t as u64) % 8) as int == square_at(t % 8, 7 - t / 8));
    }
    assert forall|j: int, k: int|
        0 <= j < 12 && 0 <= k < 12 && j != k implies #[trigger] (b.pieces[j] & b.pieces[k]) == 0 by {
        assert(j == 0 || j == 1 || j == 2 || j == 3 || j == 4 || j == 5 || j == 6 || j == 7 || j
            == 8 || j == 9 || j == 10 || j == 11);
        assert(k == 0 || k == 1 || k == 2 || k == 3 || k == 4 || k == 5 || k == 6 || k == 7 || k
            == 8 || k == 9 || k == 10 || k == 11);
    }
}

/// The material value of a piece kind by its place among one side's masks:
/// pawn 1, rook 5, knight 3, bishop 3, queen 9, king 0.
pub open spec fn piece_value(index: int) -> int {
    if index == 0 {
        1
    } else if index == 1 {
        5
    } else if index == 2 {
        3
    } else if index == 3 {
        3
    } else if index == 4 {
        9
    } else {
        0
    }
}

/// Taking one piece off a mask changes the material balance by that piece's
/// value: down for a white piece, up for a black one; and swapping the
/// colours of all pieces negates the balance.
pub proof fn lemma_material_changes(b: BoardModel, c: BoardModel, k: int)
    requires
        b.pieces.len() == 12,
        c.pieces.len() == 12,
        0 <= k < 12,
        forall|j: int| 0 <= j < 12 && j != k ==> #[trigger] c.pieces[j] == b.pieces[j],
        popcount(c.pieces[k]) + 1 == popcount(b.pieces[k]),
    ensures
        c.material_balance() - b.material_balance() == if k < 6 {
            -piece_value(k)
        } else {
            piece_value(k - 6)
        },
        (BoardModel {
            pieces: b.pieces.subrange(6, 12) + b.pieces.subrange(0, 6),
            ..b
        }).material_balance() == -b.material_balance(),
{
    let sw = b.pieces.subrange(6, 12) + b.pieces.subrange(0, 6);
    assert(sw[0] == b.pieces[6] && sw[1] == b.pieces[7] && sw[2] == b.pieces[8] && sw[3]
        == b.pieces[9] && sw[4] == b.pieces[10] && sw[6] == b.pieces[0] && sw[7] == b.pieces[1]
        && sw[8] == b.pieces[2] && sw[9] == b.pieces[3] && sw[10] == b.pieces[4]);
    assert(k == 0 || k == 1 || k == 2 || k == 3 || k == 4 || k == 5 || k == 6 || k == 7 || k
        == 8 || k == 9 || k == 10 || k == 11);
    assert(c.pieces[0] == b.pieces[0] || k == 0);
    assert(c.pieces[1] == b.pieces[1] || k == 1);
    assert(c.pieces[2] == b.pieces[2] || k == 2);
    assert(c.pieces[3] == b.pieces[3] || k == 3);
    assert(c.pieces[4] == b.pieces[4] || k == 4);
    assert(c.pieces[6] == b.pieces[6] || k == 6);
    assert(c.pieces[7] == b.pieces[7] || k == 7);
    assert(c.pieces[8] == b.pieces[8] || k == 8);
    assert(c.pieces[9] == b.pieces[9] || k == 9);
    assert(c.pieces[10] == b.pieces[10] || k == 10);
}

} // verus!
