use chers::chess::{BoardState, Game};
use chers::common::bits;
use chers::common::{ChersError, PieceColor, PieceType};

fn sq(file: u64, rank: u64) -> u64 {
    1u64 << (8 * rank + file)
}

#[test]
fn new_board_has_starting_masks() {
    let b = BoardState::new();
    assert_eq!(b.white_pawns(), 0xFF00);
    assert_eq!(b.white_rooks(), 0x81);
    assert_eq!(b.white_knights(), 0x42);
    assert_eq!(b.white_bishops(), 0x24);
    assert_eq!(b.white_queens(), 0x08);
    assert_eq!(b.white_kings(), 0x10);
    assert_eq!(b.black_pawns(), 0x00FF_0000_0000_0000);
    assert_eq!(b.black_rooks(), 0x8100_0000_0000_0000);
    assert_eq!(b.black_knights(), 0x4200_0000_0000_0000);
    assert_eq!(b.black_bishops(), 0x2400_0000_0000_0000);
    assert_eq!(b.black_queens(), 0x0800_0000_0000_0000);
    assert_eq!(b.black_kings(), 0x1000_0000_0000_0000);
    assert_eq!(b.white_occupancy(), 0xFFFF);
    assert_eq!(b.black_occupancy(), 0xFFFF_0000_0000_0000);
    assert_eq!(b.total_occupancy(), 0xFFFF_0000_0000_FFFF);
    assert_eq!(b.en_passant_square_mask(), 0);
    assert_eq!(b.num_active_pieces(), 16);
}

#[test]
fn active_pieces_follow_the_side_to_move() {
    let mut game = Game::new();
    assert_eq!(game.board_state().active_pawns(), 0xFF00);
    assert_eq!(game.board_state().active_kings(), 0x10);
    game.natural_apply_move("e2e4").unwrap();
    let b = game.board_state();
    assert_eq!(b.active_pawns(), 0x00FF_0000_0000_0000);
    assert_eq!(b.active_rooks(), 0x8100_0000_0000_0000);
    assert_eq!(b.active_knights(), 0x4200_0000_0000_0000);
    assert_eq!(b.active_bishops(), 0x2400_0000_0000_0000);
    assert_eq!(b.active_queens(), 0x0800_0000_0000_0000);
    assert_eq!(b.active_kings(), 0x1000_0000_0000_0000);
}

#[test]
fn coordinates_and_squares_convert() {
    assert_eq!(BoardState::coordinate_to_square(4, 1), 12);
    assert_eq!(BoardState::coordinate_to_square(7, 7), 63);
    assert_eq!(BoardState::square_to_coordinate(12), (4, 1));
    assert_eq!(BoardState::square_to_coordinate(63), (7, 7));
    for s in 0..64 {
        let (f, r) = BoardState::square_to_coordinate(s);
        assert_eq!(BoardState::coordinate_to_square(f, r), s);
    }
}

#[test]
fn occupancy_tests() {
    assert!(BoardState::square_occupied_by(3, 0b1000));
    assert!(!BoardState::square_occupied_by(2, 0b1000));
    assert!(BoardState::coordinate_occupied_by(0, 1, 0x100));
    assert!(!BoardState::coordinate_occupied_by(1, 1, 0x100));
}

#[test]
fn piece_in_square_at_start() {
    let b = BoardState::new();
    assert_eq!(b.piece_in_square(0), Some((PieceColor::White, PieceType::Rook)));
    assert_eq!(b.piece_in_square(1), Some((PieceColor::White, PieceType::Knight)));
    assert_eq!(b.piece_in_square(2), Some((PieceColor::White, PieceType::Bishop)));
    assert_eq!(b.piece_in_square(3), Some((PieceColor::White, PieceType::Queen)));
    assert_eq!(b.piece_in_square(4), Some((PieceColor::White, PieceType::King)));
    assert_eq!(b.piece_in_square(12), Some((PieceColor::White, PieceType::Pawn)));
    assert_eq!(b.piece_in_square(28), None);
    assert_eq!(b.piece_in_square(52), Some((PieceColor::Black, PieceType::Pawn)));
    assert_eq!(b.piece_in_square(59), Some((PieceColor::Black, PieceType::Queen)));
    assert_eq!(b.piece_in_square(60), Some((PieceColor::Black, PieceType::King)));
    assert_eq!(b.piece_in_square(63), Some((PieceColor::Black, PieceType::Rook)));
    assert_eq!(b.piece_in_square(62), Some((PieceColor::Black, PieceType::Knight)));
    assert_eq!(b.piece_in_square(61), Some((PieceColor::Black, PieceType::Bishop)));
}

#[test]
fn piece_in_square_matches_total_occupancy() {
    let mut game = Game::new();
    for m in ["e2e4", "d7d5", "e4d5", "g8f6"] {
        game.natural_apply_move(m).unwrap();
    }
    let b = game.board_state();
    for s in 0..64usize {
        assert_eq!(b.piece_in_square(s).is_some(), BoardState::square_occupied_by(s, b.total_occupancy()));
    }
}

#[test]
fn starting_moves_of_each_piece() {
    let b = BoardState::new();
    assert_eq!(b.knight_pseudo_allowed_moves(sq(1, 0)), sq(0, 2) | sq(2, 2));
    assert_eq!(b.knight_pseudo_allowed_moves(sq(6, 0)), sq(5, 2) | sq(7, 2));
    assert_eq!(b.pawn_pseudo_allowed_moves(sq(4, 1)), sq(4, 2) | sq(4, 3));
    assert_eq!(b.rook_pseudo_allowed_moves(sq(0, 0)), 0);
    assert_eq!(b.bishop_pseudo_allowed_moves(sq(2, 0)), 0);
    assert_eq!(b.queen_pseudo_allowed_moves(sq(3, 0)), 0);
    assert_eq!(b.king_pseudo_allowed_moves(sq(4, 0)), 0);
}

#[test]
fn sliding_pieces_stop_at_pieces() {
    let mut game = Game::new();
    // 1. e4 d5: the white queen on d1 sees e2 through the open diagonal.
    game.natural_apply_move("e2e4").unwrap();
    game.natural_apply_move("d7d5").unwrap();
    let b = game.board_state();
    assert_eq!(
        b.queen_pseudo_allowed_moves(sq(3, 0)),
        sq(4, 1) | sq(5, 2) | sq(6, 3) | sq(7, 4)
    );
    // A bishop on f1 sees e2 .. a6.
    assert_eq!(
        b.bishop_pseudo_allowed_moves(sq(5, 0)),
        sq(4, 1) | sq(3, 2) | sq(2, 3) | sq(1, 4) | sq(0, 5)
    );
    // A rook placed on e3: the white pawn on e4 blocks it upward, downward
    // it reaches the empty e2 and stops before the king on e1, sideways it
    // crosses the empty third rank.
    assert_eq!(
        b.rook_pseudo_allowed_moves(sq(4, 2)),
        sq(4, 1) | sq(0, 2) | sq(1, 2) | sq(2, 2) | sq(3, 2) | sq(5, 2) | sq(6, 2) | sq(7, 2)
    );
    // The pawn on e4 can capture on d5 and push to e5.
    assert_eq!(b.pawn_pseudo_allowed_moves(sq(4, 3)), sq(4, 4) | sq(3, 4));
}

#[test]
fn king_and_knight_in_the_corner() {
    let b = BoardState::new();
    // A king placed on h8 among black pieces: from white's point of view all
    // three neighbours hold black pieces, which it may capture.
    assert_eq!(b.king_pseudo_allowed_moves(sq(7, 7)), sq(6, 7) | sq(6, 6) | sq(7, 6));
    // A knight on a8 jumps to b6 and c7 (c7 holds a black pawn).
    assert_eq!(b.knight_pseudo_allowed_moves(sq(0, 7)), sq(1, 5) | sq(2, 6));
}

#[test]
fn pseudo_legal_moves_at_start() {
    let b = BoardState::new();
    let moves = b.psuedo_legal_moves();
    assert_eq!(moves.len(), 16);
    assert_eq!(moves[0], (sq(0, 1), sq(0, 2) | sq(0, 3)));
    assert_eq!(moves[7], (sq(7, 1), sq(7, 2) | sq(7, 3)));
    assert_eq!(moves[8], (sq(0, 0), 0));
    assert_eq!(moves[10], (sq(1, 0), sq(0, 2) | sq(2, 2)));
    assert_eq!(moves[15], (0x10, 0));
    let total: u32 = moves.iter().map(|m| m.1.count_ones()).sum();
    assert_eq!(total, 20);
}

#[test]
fn random_move_is_pseudo_legal() {
    for _ in 0..50 {
        let b = BoardState::new();
        let (from, to) = b.random_psuedo_legal_move();
        let moves = b.psuedo_legal_moves();
        assert!(moves.iter().any(|m| m.0 == from && m.1 & to == to));
        assert_eq!(to.count_ones(), 1);
    }
}

#[test]
fn random_game_plays_moves() {
    let mut game = Game::new();
    for _ in 0..11 {
        game.do_random_pseudo_legal_move().unwrap();
    }
    // Eleven moves made: black is to move.
    assert_eq!(game.board_state().active_kings() & 0x00FF_FFFF_FFFF_FFFF, game.board_state().black_kings() & 0x00FF_FFFF_FFFF_FFFF);
}

#[test]
fn double_push_sets_en_passant() {
    let mut game = Game::new();
    game.natural_apply_move("e2e4").unwrap();
    assert_eq!(game.board_state().en_passant_square_mask(), sq(4, 2));
    game.natural_apply_move("d7d5").unwrap();
    assert_eq!(game.board_state().en_passant_square_mask(), sq(3, 5));
    game.natural_apply_move("g1f3").unwrap();
    assert_eq!(game.board_state().en_passant_square_mask(), 0);
}

#[test]
fn en_passant_capture_target_is_offered() {
    let mut game = Game::new();
    for m in ["e2e4", "a7a6", "e4e5", "d7d5"] {
        game.natural_apply_move(m).unwrap();
    }
    let b = game.board_state();
    assert_eq!(b.pawn_pseudo_allowed_moves(sq(4, 4)), sq(4, 5) | sq(3, 5));
}

#[test]
fn move_parse_errors() {
    let mut game = Game::new();
    assert_eq!(game.natural_apply_move("e2"), Err(ChersError::MoveParseError));
    assert_eq!(game.natural_apply_move("z2e4"), Err(ChersError::MoveParseError));
    assert_eq!(game.natural_apply_move("e9e4"), Err(ChersError::MoveParseError));
    assert_eq!(game.natural_apply_move("e2i4"), Err(ChersError::MoveParseError));
    assert_eq!(game.natural_apply_move("e2e0"), Err(ChersError::MoveParseError));
    // Nothing was played.
    assert_eq!(game.board_state().white_pawns(), 0xFF00);
    assert_eq!(game.board_state().active_pawns(), 0xFF00);
}

#[test]
fn promotion_through_natural_notation() {
    let mut game = Game::new();
    // The sixth character names the promotion piece.
    game.natural_apply_move("a2a8=q").unwrap();
    let b = game.board_state();
    // The pawn mask loses a2; the queen mask becomes the former pawn mask
    // with a8 toggled; the first black mask holding a2 (none) is unchanged.
    assert_eq!(b.white_pawns(), 0xFF00 ^ sq(0, 1));
    assert_eq!(b.white_queens(), 0xFF00 ^ sq(0, 7));
    assert_eq!(b.black_rooks(), 0x8100_0000_0000_0000);
}

#[test]
fn promotion_to_king_is_a_parse_error() {
    let b = BoardState::new();
    assert_eq!(
        b.generate_board_after_move_by_squares(8, 56, Some(PieceType::King)).err(),
        Some(ChersError::MoveParseError)
    );
    assert_eq!(
        b.generate_board_after_move(0, 1, 0, 7, Some(PieceType::Pawn)).err(),
        Some(ChersError::MoveParseError)
    );
    let mut game = Game::new();
    assert_eq!(
        game.apply_move_by_squares(8, 56, Some(PieceType::King)),
        Err(ChersError::MoveParseError)
    );
    assert_eq!(game.board_state().white_pawns(), 0xFF00);
}

#[test]
fn promotion_by_coordinates_for_black() {
    let mut game = Game::new();
    game.natural_apply_move("a2a3").unwrap();
    game.apply_move_by_coords(7, 6, 7, 0, Some(PieceType::Knight)).unwrap();
    let b = game.board_state();
    assert_eq!(b.black_pawns(), 0x00FF_0000_0000_0000 ^ sq(7, 6));
    assert_eq!(b.black_knights(), 0x00FF_0000_0000_0000 ^ sq(7, 0));
    // The first white mask holding h7 (none) keeps its squares.
    assert_eq!(b.white_rooks(), 0x81);
}

#[test]
fn only_pawns_are_captured_without_promotion() {
    let mut game = Game::new();
    // The white knight jumps onto d7, a black pawn: the pawn is taken.
    game.apply_move_by_squares(1, 51, None).unwrap();
    assert_eq!(game.board_state().black_pawns(), 0x00FF_0000_0000_0000 ^ sq(3, 6));
    // A black knight jumps onto e1, the white king: the king stays.
    game.apply_move_by_squares(62, 4, None).unwrap();
    assert_eq!(game.board_state().white_kings(), 0x10);
    assert_eq!(game.board_state().black_knights(), 0x4200_0000_0000_0000 ^ sq(6, 7) ^ sq(4, 0));
}

#[test]
fn move_by_masks() {
    let mut game = Game::new();
    assert_eq!(game.apply_move_by_masks(0, sq(4, 3)), Err(ChersError::IllegalMoveError));
    assert_eq!(game.apply_move_by_masks(sq(4, 1), 0), Err(ChersError::IllegalMoveError));
    assert_eq!(game.board_state().white_pawns(), 0xFF00);
    game.apply_move_by_masks(sq(4, 1), sq(4, 3)).unwrap();
    assert_eq!(game.board_state().white_pawns(), 0xFF00 ^ sq(4, 1) ^ sq(4, 3));
}

#[test]
fn moving_from_an_empty_square_changes_no_piece() {
    let b = BoardState::new();
    let next = b.generate_board_after_move(4, 3, 4, 4, None).unwrap();
    assert_eq!(next.white_occupancy(), b.white_occupancy());
    assert_eq!(next.black_occupancy(), b.black_occupancy());
    assert_eq!(next.active_pawns(), b.black_pawns());
}

#[test]
fn error_messages() {
    assert_eq!(ChersError::MoveParseError.message(), "An invalid move format was submitted.");
    assert_eq!(ChersError::IllegalMoveError.message(), "An illegal move was attempted.");
}

#[test]
fn bit_helpers() {
    assert_eq!(bits::square_idx_to_mask(0), 1);
    assert_eq!(bits::square_idx_to_mask(63), 1u64 << 63);
    assert_eq!(bits::square_mask_to_idx(1u64 << 63), 63);
    assert_eq!(bits::square_mask_to_idx(0b1100), 2);
    assert_eq!(bits::square_mask_to_idx(0), 64);
    assert_eq!(bits::square_masks(0b1010_0001), vec![1, 0b10_0000, 0b1000_0000]);
    assert_eq!(bits::count_squares(0xFF00_0000_0000_00FF), 16);
    assert_eq!(bits::count_squares(0), 0);
    assert_eq!(bits::nth_square_mask(0b1010_0001, 1), 0b10_0000);
    for s in 0..64usize {
        assert_eq!(bits::square_mask_to_idx(bits::square_idx_to_mask(s)), s);
    }
}

#[test]
fn bit_moves_and_edges() {
    assert!(!bits::square_exists_up_mask(sq(0, 7)));
    assert!(bits::square_exists_up_mask(sq(0, 6)));
    assert!(!bits::square_exists_down_mask(sq(3, 0)));
    assert!(!bits::square_exists_left_mask(sq(0, 4)));
    assert!(!bits::square_exists_right_mask(sq(7, 4)));
    assert!(!bits::square_exists_two_up_mask(sq(2, 6)));
    assert!(!bits::square_exists_two_down_mask(sq(2, 1)));
    assert!(!bits::square_exists_two_left_mask(sq(1, 3)));
    assert!(!bits::square_exists_two_right_mask(sq(6, 3)));
    let e4 = sq(4, 3);
    assert_eq!(bits::move_one_up(e4), sq(4, 4));
    assert_eq!(bits::move_one_down(e4), sq(4, 2));
    assert_eq!(bits::move_one_left(e4), sq(3, 3));
    assert_eq!(bits::move_one_right(e4), sq(5, 3));
    assert_eq!(bits::move_one_up_one_left(e4), sq(3, 4));
    assert_eq!(bits::move_one_up_one_right(e4), sq(5, 4));
    assert_eq!(bits::move_one_down_one_left(e4), sq(3, 2));
    assert_eq!(bits::move_one_down_one_right(e4), sq(5, 2));
    assert_eq!(bits::move_two_up_one_left(e4), sq(3, 5));
    assert_eq!(bits::move_two_up_one_right(e4), sq(5, 5));
    assert_eq!(bits::move_one_up_two_left(e4), sq(2, 4));
    assert_eq!(bits::move_one_up_two_right(e4), sq(6, 4));
    assert_eq!(bits::move_two_down_one_left(e4), sq(3, 1));
    assert_eq!(bits::move_two_down_one_right(e4), sq(5, 1));
    assert_eq!(bits::move_one_down_two_left(e4), sq(2, 2));
    assert_eq!(bits::move_one_down_two_right(e4), sq(6, 2));
}

#[test]
fn slide_helper() {
    // A rook-like slide up from a1 on an empty board reaches a2..a8.
    assert_eq!(bits::slide(1, 0, 1, 0, 0), 0x0101_0101_0101_0100);
    // Blocked by an own piece on a4, it stops at a3.
    assert_eq!(bits::slide(1, 0, 1, sq(0, 3), 0), sq(0, 1) | sq(0, 2));
    // Stopped by an opponent piece on a4, it includes a4.
    assert_eq!(bits::slide(1, 0, 1, 0, sq(0, 3)), sq(0, 1) | sq(0, 2) | sq(0, 3));
}

#[test]
fn destinations_never_hold_own_pieces() {
    let mut game = Game::new();
    for m in ["e2e4", "e7e5", "g1f3", "b8c6", "f1c4", "g8f6"] {
        game.natural_apply_move(m).unwrap();
        let b = game.board_state();
        let own = if b.active_kings() == b.white_kings() {
            b.white_occupancy()
        } else {
            b.black_occupancy()
        };
        for (from, dests) in b.psuedo_legal_moves() {
            assert_eq!(dests & own, 0, "piece {:x}", from);
        }
    }
}

#[test]
fn material_balance_counts_pieces() {
    let mut game = Game::new();
    assert_eq!(game.board_state().material_balance(), 0);
    // The white knight takes the pawn on d7.
    game.apply_move_by_squares(1, 51, None).unwrap();
    assert_eq!(game.board_state().material_balance(), 1);
}

#[test]
fn pseudo_legal_list_has_one_entry_per_piece() {
    let mut game = Game::new();
    for m in ["e2e4", "d7d5", "e4d5", "g8f6"] {
        game.natural_apply_move(m).unwrap();
        let b = game.board_state();
        assert_eq!(b.psuedo_legal_moves().len() as u32, b.num_active_pieces());
    }
}

#[test]
fn plain_move_updates_total_occupancy() {
    let b = BoardState::new();
    let next = b.generate_board_after_move_by_squares(12, 28, None).unwrap();
    assert_eq!(next.white_pawns(), (0xFF00 & !sq(4, 1)) | sq(4, 3));
    assert_eq!(next.total_occupancy(), (b.total_occupancy() & !sq(4, 1)) | sq(4, 3));
    assert_eq!(next.white_occupancy() & next.black_occupancy(), 0);
}

#[test]
fn king_in_the_middle_has_eight_squares() {
    let mut game = Game::new();
    game.natural_apply_move("a2a3").unwrap();
    game.natural_apply_move("a7a6").unwrap();
    let b = game.board_state();
    // A white king placed on e5 sees all eight neighbours, none white.
    let moves = b.king_pseudo_allowed_moves(sq(4, 4));
    assert_eq!(moves.count_ones(), 8);
    assert_eq!(
        moves,
        sq(3, 3) | sq(4, 3) | sq(5, 3) | sq(3, 4) | sq(5, 4) | sq(3, 5) | sq(4, 5) | sq(5, 5)
    );
}
