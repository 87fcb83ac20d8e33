use crate::chess::{BoardModel, Game};
use crate::common::bits::{self, lowest_square, occupies, popcount, squares_of};
use crate::common::{PieceColor, PieceType};
use vstd::prelude::*;

verus! {

/// The symbol set a board is drawn with.
#[derive(Debug, Clone, Copy, PartialEq, Eq, Structural, Default)]
pub enum RenderType {
    #[default]
    ASCII,
    ASCIIGreek,
    Normal,
    Inverted,
}

/// Draws games in a terminal.
pub struct GameViewer {
    render_type: RenderType,
}

/// How one square is drawn: a piece symbol with the colour of its owner, or
/// an empty square, light or dark.
#[derive(Debug, Clone, Copy, PartialEq, Eq, Structural)]
pub enum SquareLabel {
    Piece { symbol: char, color: PieceColor },
    Empty { light: bool },
}

/// The index of a piece kind in the symbol tables.
pub open spec fn symbol_index(piece_type: PieceType) -> int {
    match piece_type {
        PieceType::Pawn => 0,
        PieceType::Rook => 1,
        PieceType::Knight => 2,
        PieceType::Bishop => 3,
        PieceType::Queen => 4,
        PieceType::King => 5,
    }
}

/// The outlined Unicode chess symbols, pawn to king.
pub open spec fn outlined_symbols() -> Seq<char> {
    seq!['\u{2659}', '\u{2656}', '\u{2658}', '\u{2657}', '\u{2655}', '\u{2654}']
}

/// The filled Unicode chess symbols, pawn to king.
pub open spec fn filled_symbols() -> Seq<char> {
    seq!['\u{265F}', '\u{265C}', '\u{265E}', '\u{265D}', '\u{265B}', '\u{265A}']
}

/// The symbol of a piece in a symbol set: letters (upper case for white) in
/// ASCII, Greek letters whatever the colour in ASCIIGreek, outlined symbols
/// for white and filled ones for black in Normal, the other way round in
/// Inverted.
pub open spec fn piece_symbol(
    render_type: RenderType,
    piece_type: PieceType,
    piece_color: PieceColor,
) -> char {
    match render_type {
        RenderType::ASCII => match (piece_color, piece_type) {
            (PieceColor::White, PieceType::Pawn) => 'P',
            (PieceColor::White, PieceType::Rook) => 'R',
            (PieceColor::White, PieceType::Knight) => 'N',
            (PieceColor::White, PieceType::Bishop) => 'B',
            (PieceColor::White, PieceType::Queen) => 'Q',
            (PieceColor::White, PieceType::King) => 'K',
            (PieceColor::Black, PieceType::Pawn) => 'p',
            (PieceColor::Black, PieceType::Rook) => 'r',
            (PieceColor::Black, PieceType::Knight) => 'n',
            (PieceColor::Black, PieceType::Bishop) => 'b',
            (PieceColor::Black, PieceType::Queen) => 'q',
            (PieceColor::Black, PieceType::King) => 'k',
        },
        RenderType::ASCIIGreek => match piece_type {
            PieceType::Pawn => '\u{03C0}',
            PieceType::Rook => '\u{03A0}',
            PieceType::Knight => '\u{0393}',
            PieceType::Bishop => '\u{0394}',
            PieceType::Queen => '\u{03C8}',
            PieceType::King => '+',
        },
        RenderType::Normal => match piece_color {
            PieceColor::White => outlined_symbols()[symbol_index(piece_type)],
            PieceColor::Black => filled_symbols()[symbol_index(piece_type)],
        },
        RenderType::Inverted => match piece_color {
            PieceColor::White => filled_symbols()[symbol_index(piece_type)],
            PieceColor::Black => outlined_symbols()[symbol_index(piece_type)],
        },
    }
}

/// How square `s` of a position is drawn: its piece with the black symbol
/// of its kind, or an empty square that is light when file + rank is odd.
pub open spec fn square_label(render_type: RenderType, b: BoardModel, s: int) -> SquareLabel {
    match b.piece_at(s) {
        Some((color, piece)) => SquareLabel::Piece {
            symbol: piece_symbol(render_type, piece, PieceColor::Black),
            color,
        },
        None => SquareLabel::Empty { light: (s % 8 + s / 8) % 2 == 1 },
    }
}

/// The character square `s` of a position is drawn with in plain output:
/// its piece's symbol, or a middle dot.
pub open spec fn plain_char(render_type: RenderType, b: BoardModel, s: int) -> char {
    match b.piece_at(s) {
        Some((color, piece)) => piece_symbol(render_type, piece, color),
        None => '\u{00B7}',
    }
}

/// The other colour.
pub open spec fn opposite(c: PieceColor) -> PieceColor {
    match c {
        PieceColor::White => PieceColor::Black,
        PieceColor::Black => PieceColor::White,
    }
}

/// The inverted set draws each piece with the symbol the normal set gives
/// the same piece of the other colour, and the Greek set ignores colour.
pub proof fn lemma_symbol_sets(piece_type: PieceType, piece_color: PieceColor)
    ensures
        piece_symbol(RenderType::Inverted, piece_type, piece_color) == piece_symbol(
            RenderType::Normal,
            piece_type,
            opposite(piece_color),
        ),
        piece_symbol(RenderType::ASCIIGreek, piece_type, piece_color) == piece_symbol(
            RenderType::ASCIIGreek,
            piece_type,
            opposite(piece_color),
        ),
{
}

/// Calls `ToString::to_string` on a `char`, which std documents as the
/// string of that one character.
#[verifier::external_body]
fn char_to_string(c: char) -> (s: String)
    ensures
        s@ == seq![c],
{
    c.to_string()
}

impl Default for GameViewer {
    fn default() -> (r: Self)
        ensures
            r.render() == RenderType::ASCII,
    {
        Self::new()
    }
}

impl GameViewer {
    /// The symbol set in use.
    pub closed spec fn render(&self) -> RenderType {
        self.render_type
    }

    /// A viewer drawing in ASCII.
    pub fn new() -> (r: Self)
        ensures
            r.render() == RenderType::ASCII,
    {
        Self { render_type: RenderType::ASCII }
    }

    /// The viewer with another symbol set.
    pub fn with_render_type(self, render_type: RenderType) -> (r: Self)
        ensures
            r.render() == render_type,
    {
        let mut viewer = self;
        viewer.render_type = render_type;
        viewer
    }

    /// The symbol of a piece, as a string.
    pub fn string_from_piece(&self, piece_type: &PieceType, piece_color: &PieceColor) -> (s:
        String)
        ensures
            s@ == seq![piece_symbol(self.render(), *piece_type, *piece_color)],
    {
        char_to_string(self.char_from_piece(piece_type, piece_color))
    }

    fn char_from_piece(&self, piece_type: &PieceType, piece_color: &PieceColor) -> (c: char)
        ensures
            c == piece_symbol(self.render(), *piece_type, *piece_color),
    {
        let (white_symbols, black_symbols) = match self.render_type {
            RenderType::ASCII => {
                return match piece_color {
                    PieceColor::White => match piece_type {
                        PieceType::Pawn => 'P',
                        PieceType::Rook => 'R',
                        PieceType::Knight => 'N',
                        PieceType::Bishop => 'B',
                        PieceType::Queen => 'Q',
                        PieceType::King => 'K',
                    },
                    PieceColor::Black => match piece_type {
                        PieceType::Pawn => 'p',
                        PieceType::Rook => 'r',
                        PieceType::Knight => 'n',
                        PieceType::Bishop => 'b',
                        PieceType::Queen => 'q',
                        PieceType::King => 'k',
                    },
                };
            },
            RenderType::ASCIIGreek => {
                return match piece_type {
                    PieceType::Pawn => '\u{03C0}',
                    PieceType::Rook => '\u{03A0}',
                    PieceType::Knight => '\u{0393}',
                    PieceType::Bishop => '\u{0394}',
                    PieceType::Queen => '\u{03C8}',
                    PieceType::King => '+',
                };
            },
            RenderType::Normal => (
                ['\u{2659}', '\u{2656}', '\u{2658}', '\u{2657}', '\u{2655}', '\u{2654}'],
                ['\u{265F}', '\u{265C}', '\u{265E}', '\u{265D}', '\u{265B}', '\u{265A}'],
            ),
            RenderType::Inverted => (
                ['\u{265F}', '\u{265C}', '\u{265E}', '\u{265D}', '\u{265B}', '\u{265A}'],
                ['\u{2659}', '\u{2656}', '\u{2658}', '\u{2657}', '\u{2655}', '\u{2654}'],
            ),
        };
        let idx: usize = match piece_type {
            PieceType::Pawn => 0,
            PieceType::Rook => 1,
            PieceType::Knight => 2,
            PieceType::Bishop => 3,
            PieceType::Queen => 4,
            PieceType::King => 5,
        };
        proof {
            assert(white_symbols@ =~= outlined_symbols() || white_symbols@ =~= filled_symbols());
        }
        match piece_color {
            PieceColor::White => white_symbols[idx],
            PieceColor::Black => black_symbols[idx],
        }
    }

    /// How each of the 64 squares of the current position is drawn, square 0
    /// (a1) first.
    pub fn board_labels(&self, game: &Game) -> (r: Vec<SquareLabel>)
        requires
            game.wf(),
        ensures
            r@.len() == 64,
            forall|s: int|
                0 <= s < 64 ==> r@[s] == square_label(self.render(), game@.last(), s),
    {
        let board = game.board_state();
        let mut labels: Vec<SquareLabel> = Vec::new();
        let mut square: usize = 0;
        while square < 64
            invariant
                square <= 64,
                board@ == game@.last(),
                labels@.len() == square,
                forall|s: int|
                    0 <= s < square ==> labels@[s] == square_label(self.render(), game@.last(), s),
            decreases 64 - square,
        {
            let (file, rank) = crate::chess::BoardState::square_to_coordinate(square);
            let label = match board.piece_in_square(square) {
                Some((color, piece)) => SquareLabel::Piece {
                    symbol: self.char_from_piece(&piece, &PieceColor::Black),
                    color,
                },
                None => SquareLabel::Empty { light: (file + rank) % 2 == 1 },
            };
            labels.push(label);
            square = square + 1;
        }
        labels
    }

    /// The character of each of the 64 squares of the current position in
    /// plain output, square 0 (a1) first.
    pub fn plain_chars(&self, game: &Game) -> (r: Vec<char>)
        requires
            game.wf(),
        ensures
            r@.len() == 64,
            forall|s: int| 0 <= s < 64 ==> r@[s] == plain_char(self.render(), game@.last(), s),
    {
        let board = game.board_state();
        let mut out_chars: Vec<char> = Vec::new();
        let mut square: usize = 0;
        while square < 64
            invariant
                square <= 64,
                board@ == game@.last(),
                out_chars@.len() == square,
                forall|s: int|
                    0 <= s < square ==> out_chars@[s] == plain_char(self.render(), game@.last(), s),
            decreases 64 - square,
        {
            let c = match board.piece_in_square(square) {
                Some((color, piece)) => self.char_from_piece(&piece, &color),
                None => '\u{00B7}',
            };
            out_chars.push(c);
            square = square + 1;
        }
        out_chars
    }
}

/// The squares to highlight for one pseudo-legal move entry: the index of
/// the lowest square of the piece mask, then the index of each destination
/// in ascending order.
pub fn highlight_squares(move_set: (u64, u64)) -> (r: Vec<usize>)
    ensures
        r@.len() == 1 + popcount(move_set.1),
        r@[0] == lowest_square(move_set.0),
        forall|k: int|
            0 <= k < popcount(move_set.1) ==> r@[k + 1] == lowest_square(squares_of(move_set.1)[k]),
{
    let mut highlights: Vec<usize> = Vec::new();
    highlights.push(bits::square_mask_to_idx(move_set.0));
    let destinations = bits::square_masks(move_set.1);
    let mut k: usize = 0;
    while k < destinations.len()
        invariant
            k <= destinations@.len(),
            destinations@ == squares_of(move_set.1),
            highlights@.len() == 1 + k,
            highlights@[0] == lowest_square(move_set.0),
            forall|j: int|
                0 <= j < k ==> highlights@[j + 1] == lowest_square(squares_of(move_set.1)[j]),
        decreases destinations@.len() - k,
    {
        highlights.push(bits::square_mask_to_idx(destinations[k]));
        k = k + 1;
    }
    highlights
}

/// For each highlighted square of one pseudo-legal move entry (see
/// [`highlight_squares`]), whether the current position has a piece there
/// (never for index 64, the index of an empty piece mask).
pub fn highlight_occupancy(game: &Game, move_set: (u64, u64)) -> (r: Vec<(usize, bool)>)
    requires
        game.wf(),
    ensures
        r@.len() == 1 + popcount(move_set.1),
        r@[0].0 == lowest_square(move_set.0),
        forall|k: int|
            0 <= k < popcount(move_set.1) ==> r@[k + 1].0 == lowest_square(
                squares_of(move_set.1)[k],
            ),
        forall|k: int|
            0 <= k < r@.len() ==> r@[k].1 == occupies(
                game@.last().total_occupancy(),
                r@[k].0 as int,
            ),
{
    let highlights = highlight_squares(move_set);
    let total = game.board_state().total_occupancy();
    let mut marks: Vec<(usize, bool)> = Vec::new();
    let mut k: usize = 0;
    while k < highlights.len()
        invariant
            k <= highlights@.len(),
            total == game@.last().total_occupancy(),
            marks@.len() == k,
            forall|j: int| 0 <= j < k ==> marks@[j].0 == highlights@[j],
            forall|j: int|
                0 <= j < k ==> marks@[j].1 == occupies(
                    game@.last().total_occupancy(),
                    marks@[j].0 as int,
                ),
        decreases highlights@.len() - k,
    {
        let h = highlights[k];
        let occupied = if h < 64 {
            crate::chess::BoardState::square_occupied_by(h, total)
        } else {
            false
        };
        marks.push((h, occupied));
        k = k + 1;
    }
    marks
}

/// In the ASCII set a white piece is drawn with an upper-case letter and the
/// black piece of the same kind with the lower-case form of that letter; in
/// the normal set the white pieces use the outlined symbols U+2654 to U+2659
/// and each black piece the filled symbol six places on; within a colour
/// each kind has a symbol of its own.
pub proof fn lemma_symbol_cases(kind: PieceType, other: PieceType, color: PieceColor)
    ensures
        'A' as int <= piece_symbol(RenderType::ASCII, kind, PieceColor::White) as int <= 'Z' as int,
        piece_symbol(RenderType::ASCII, kind, PieceColor::Black) as int == piece_symbol(
            RenderType::ASCII,
            kind,
            PieceColor::White,
        ) as int + ('a' as int - 'A' as int),
        0x2654 <= piece_symbol(RenderType::Normal, kind, PieceColor::White) as int <= 0x2659,
        piece_symbol(RenderType::Normal, kind, PieceColor::Black) as int == piece_symbol(
            RenderType::Normal,
            kind,
            PieceColor::White,
        ) as int + 6,
        piece_symbol(RenderType::ASCII, kind, color) == piece_symbol(
            RenderType::ASCII,
            other,
            color,
        ) ==> kind == other,
        piece_symbol(RenderType::Normal, kind, color) == piece_symbol(
            RenderType::Normal,
            other,
            color,
        ) ==> kind == other,
        piece_symbol(RenderType::ASCIIGreek, kind, color) == piece_symbol(
            RenderType::ASCIIGreek,
            other,
            color,
        ) ==> kind == other,
{
}

/// Empty squares alternate in shade along ranks and files, and a1 (square
/// 0) is dark.
pub proof fn lemma_square_shades(render_type: RenderType, b: BoardModel, s: int)
    requires
        0 <= s < 64,
    ensures
        square_label(render_type, b, s) matches SquareLabel::Empty { light } ==> (s == 0
            ==> !light),
        s % 8 <= 6 ==> (square_label(render_type, b, s) matches SquareLabel::Empty { light: l1 }
            ==> square_label(render_type, b, s + 1) matches SquareLabel::Empty { light: l2 }
            ==> l1 != l2),
        s < 56 ==> (square_label(render_type, b, s) matches SquareLabel::Empty { light: l1 }
            ==> square_label(render_type, b, s + 8) matches SquareLabel::Empty { light: l2 }
            ==> l1 != l2),
{
    assert((s + 1) % 8 == s % 8 + 1 && (s + 1) / 8 == s / 8 || s % 8 == 7);
    assert((s + 8) % 8 == s % 8 && (s + 8) / 8 == s / 8 + 1);
}

} // verus!
