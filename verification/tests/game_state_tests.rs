use chers::game_state::{BoardState, GameState, PieceType};

#[test]
fn legacy_board_at_start() {
    let b = BoardState::new();
    assert_eq!(b.white_pawns(), 0xFF00);
    assert_eq!(b.white_rooks(), 0x81);
    assert_eq!(b.white_knights(), 0x42);
    assert_eq!(b.white_bishops(), 0x24);
    assert_eq!(b.white_queens(), 0x08);
    assert_eq!(b.white_kings(), 0x10);
    assert_eq!(b.black_pawns(), 0x00FF_0000_0000_0000);
    assert_eq!(b.black_rooks(), 0x8100_0000_0000_0000);
    assert_eq!(b.black_knights(), 0x4200_0000_0000_0000);
    assert_eq!(b.black_bishops(), 0x2400_0000_0000_0000);
    assert_eq!(b.black_queens(), 0x0800_0000_0000_0000);
    assert_eq!(b.black_kings(), 0x1000_0000_0000_0000);
    assert_eq!(b.white_occupancy(), 0xFFFF);
    assert_eq!(b.black_occupancy(), 0xFFFF_0000_0000_0000);
    assert_eq!(b.total_occupancy(), 0xFFFF_0000_0000_FFFF);
    assert_eq!(b.piece_in_square(0), PieceType::WhiteRook);
    assert_eq!(b.piece_in_square(60), PieceType::BlackKing);
    assert_eq!(b.piece_in_square(30), PieceType::Empty);
}

#[test]
fn legacy_coordinates() {
    assert_eq!(BoardState::coordinate_to_square(3, 2), 19);
    assert_eq!(BoardState::square_to_coordinate(19), (3, 2));
    assert!(BoardState::coordinate_occupied_by(3, 2, 1 << 19));
    assert!(BoardState::square_occupied_by(19, 1 << 19));
    assert!(!BoardState::square_occupied_by(18, 1 << 19));
}

#[test]
fn legacy_move_captures_any_piece() {
    let mut g = GameState::new();
    // Queen d1 takes d8 (the black queen) directly.
    g.apply_move(3, 0, 3, 7);
    let b = g.board_state();
    assert_eq!(b.piece_in_square(59), PieceType::WhiteQueen);
    assert_eq!(b.piece_in_square(3), PieceType::Empty);
    assert_eq!(b.black_queens(), 0);
    assert_eq!(b.white_queens(), 1 << 59);
}

#[test]
fn legacy_move_from_empty_square_only_captures() {
    let mut b = BoardState::new();
    b.apply_move(4, 3, 4, 6);
    assert_eq!(b.black_pawns(), 0x00FF_0000_0000_0000 ^ (1 << 52));
    assert_eq!(b.white_occupancy(), 0xFFFF);
}

#[test]
fn symbols() {
    assert_eq!(PieceType::WhitePawn.to_char(), '\u{2659}');
    assert_eq!(PieceType::WhiteKing.to_char(), '\u{2654}');
    assert_eq!(PieceType::BlackPawn.to_char(), '\u{265F}');
    assert_eq!(PieceType::BlackKnight.to_char(), '\u{265E}');
    assert_eq!(PieceType::Empty.to_char(), '\u{2810}');
}

#[test]
fn legacy_square_chars() {
    let g = GameState::new();
    let chars = g.square_chars();
    assert_eq!(chars.len(), 64);
    assert_eq!(chars[0], '\u{2656}');
    assert_eq!(chars[4], '\u{2654}');
    assert_eq!(chars[20], '\u{2810}');
    assert_eq!(chars[59], '\u{265B}');
}

#[test]
fn legacy_move_contents() {
    let mut b = BoardState::new();
    // Knight b1 to c3 (empty target), then c3 to d7 (a black pawn).
    b.apply_move(1, 0, 2, 2);
    assert_eq!(b.piece_in_square(18), PieceType::WhiteKnight);
    assert_eq!(b.piece_in_square(1), PieceType::Empty);
    b.apply_move(2, 2, 3, 6);
    assert_eq!(b.piece_in_square(51), PieceType::WhiteKnight);
    assert_eq!(b.piece_in_square(18), PieceType::Empty);
    assert_eq!(b.white_occupancy() & b.black_occupancy(), 0);
}
