use chers::chess::Game;
use chers::common::{PieceColor, PieceType};
use chers::view::{highlight_occupancy, highlight_squares, GameViewer, RenderType, SquareLabel};

#[test]
fn ascii_symbols() {
    let v = GameViewer::new();
    assert_eq!(v.string_from_piece(&PieceType::Knight, &PieceColor::White), "N");
    assert_eq!(v.string_from_piece(&PieceType::Knight, &PieceColor::Black), "n");
    assert_eq!(v.string_from_piece(&PieceType::King, &PieceColor::White), "K");
    let d = GameViewer::default();
    assert_eq!(d.string_from_piece(&PieceType::Queen, &PieceColor::Black), "q");
}

#[test]
fn other_symbol_sets() {
    let greek = GameViewer::new().with_render_type(RenderType::ASCIIGreek);
    assert_eq!(greek.string_from_piece(&PieceType::Pawn, &PieceColor::White), "\u{03C0}");
    assert_eq!(greek.string_from_piece(&PieceType::King, &PieceColor::Black), "+");
    let normal = GameViewer::new().with_render_type(RenderType::Normal);
    assert_eq!(normal.string_from_piece(&PieceType::Rook, &PieceColor::White), "\u{2656}");
    assert_eq!(normal.string_from_piece(&PieceType::Rook, &PieceColor::Black), "\u{265C}");
    let inverted = GameViewer::new().with_render_type(RenderType::Inverted);
    assert_eq!(inverted.string_from_piece(&PieceType::Rook, &PieceColor::White), "\u{265C}");
    assert_eq!(inverted.string_from_piece(&PieceType::Bishop, &PieceColor::Black), "\u{2657}");
}

#[test]
fn labels_of_the_start_position() {
    let game = Game::new();
    let labels = GameViewer::new().board_labels(&game);
    assert_eq!(labels.len(), 64);
    assert_eq!(labels[0], SquareLabel::Piece { symbol: 'r', color: PieceColor::White });
    assert_eq!(labels[60], SquareLabel::Piece { symbol: 'k', color: PieceColor::Black });
    assert_eq!(labels[16], SquareLabel::Empty { light: false });
    assert_eq!(labels[17], SquareLabel::Empty { light: true });
}

#[test]
fn plain_chars_of_the_start_position() {
    let game = Game::new();
    let chars = GameViewer::new().plain_chars(&game);
    assert_eq!(chars.len(), 64);
    assert_eq!(chars[0], 'R');
    assert_eq!(chars[59], 'q');
    assert_eq!(chars[30], '\u{00B7}');
}

#[test]
fn highlights_of_a_move() {
    let h = highlight_squares((1u64 << 12, (1u64 << 20) | (1u64 << 28)));
    assert_eq!(h, vec![12, 20, 28]);
    let none = highlight_squares((0, 0));
    assert_eq!(none, vec![64]);
}

#[test]
fn highlight_occupancy_of_a_move() {
    let game = Game::new();
    let h = highlight_occupancy(&game, (1u64 << 12, (1u64 << 20) | (1u64 << 28)));
    assert_eq!(h, vec![(12, true), (20, false), (28, false)]);
    let none = highlight_occupancy(&game, (0, 0));
    assert_eq!(none, vec![(64, false)]);
}

#[test]
fn inverted_is_normal_with_colours_swapped() {
    let normal = GameViewer::new().with_render_type(RenderType::Normal);
    let inverted = GameViewer::new().with_render_type(RenderType::Inverted);
    for t in [PieceType::Pawn, PieceType::Rook, PieceType::Knight, PieceType::Bishop, PieceType::Queen, PieceType::King] {
        assert_eq!(
            inverted.string_from_piece(&t, &PieceColor::White),
            normal.string_from_piece(&t, &PieceColor::Black)
        );
        assert_eq!(
            inverted.string_from_piece(&t, &PieceColor::Black),
            normal.string_from_piece(&t, &PieceColor::White)
        );
    }
}
