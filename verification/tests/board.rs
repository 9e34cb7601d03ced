use jesschess::bitboard::Bitboard;
use jesschess::board::{
    Board, BLACK, BLACK_BISHOP, BLACK_KING, BLACK_KNIGHT, BLACK_PAWN, BLACK_QUEEN, BLACK_ROOK,
    FEN_STARTPOS, WHITE, WHITE_BISHOP, WHITE_KING, WHITE_KNIGHT, WHITE_PAWN, WHITE_QUEEN,
    WHITE_ROOK,
};
use jesschess::moves::Move;
use jesschess::square::Square;

fn words(board: &Board) -> Vec<u64> {
    board.bitboards.iter().map(|&bb| u64::from(bb)).collect()
}

#[test]
fn piece_indices() {
    assert_eq!(
        [WHITE_KING, WHITE_QUEEN, WHITE_ROOK, WHITE_BISHOP, WHITE_KNIGHT, WHITE_PAWN],
        [0, 1, 2, 3, 4, 5]
    );
    assert_eq!(
        [BLACK_KING, BLACK_QUEEN, BLACK_ROOK, BLACK_BISHOP, BLACK_KNIGHT, BLACK_PAWN],
        [6, 7, 8, 9, 10, 11]
    );
    assert_eq!((WHITE, BLACK), (0, 1));
}

#[test]
fn startpos_is_the_opening_position() {
    let board = Board::startpos();
    assert_eq!(
        words(&board),
        vec![
            0x0000_0000_0000_0010,
            0x0000_0000_0000_0008,
            0x0000_0000_0000_0081,
            0x0000_0000_0000_0024,
            0x0000_0000_0000_0042,
            0x0000_0000_0000_FF00,
            0x1000_0000_0000_0000,
            0x0800_0000_0000_0000,
            0x8100_0000_0000_0000,
            0x2400_0000_0000_0000,
            0x4200_0000_0000_0000,
            0x00FF_0000_0000_0000,
        ]
    );
    assert_eq!(board.side_to_move, WHITE);
    assert_eq!(board.castling_rights, 0b1111);
    assert_eq!(board.en_passant, None);
    assert_eq!(board.halfmove_clock, 0);
    assert_eq!(board.fullmove_counter, 1);
    assert!(board.move_stack.is_empty());
}

#[test]
fn startpos_is_what_its_fen_reads_as() {
    let read = Board::from_fen(FEN_STARTPOS).unwrap();
    let built = Board::startpos();
    assert_eq!(words(&read), words(&built));
    assert_eq!(read.side_to_move, built.side_to_move);
    assert_eq!(read.castling_rights, built.castling_rights);
    assert_eq!(read.en_passant, built.en_passant);
    assert_eq!(read.halfmove_clock, built.halfmove_clock);
    assert_eq!(read.fullmove_counter, built.fullmove_counter);
    assert_eq!(read.move_stack.len(), built.move_stack.len());
}

#[test]
fn pawn_push_from_the_opening_position() {
    let mut board = Board::startpos();
    let before = words(&board);
    board.make_move(Move::new(Square::E2, Square::E4, 0));
    assert!(!board.bitboards[WHITE_PAWN].is_occ(Square::E2));
    assert!(board.bitboards[WHITE_PAWN].is_occ(Square::E4));
    assert_eq!(u64::from(board.bitboards[WHITE_PAWN]), 0xFF00 ^ (1 << 12) ^ (1 << 28));
    let after = words(&board);
    for piece in 0..12 {
        if piece != WHITE_PAWN {
            assert_eq!(after[piece], before[piece]);
        }
    }
    assert_eq!(board.side_to_move, WHITE);
    assert_eq!(board.castling_rights, 0b1111);
    assert_eq!(board.en_passant, None);
    assert_eq!(board.halfmove_clock, 0);
    assert_eq!(board.fullmove_counter, 1);
    assert!(board.move_stack.is_empty());
}

#[test]
fn a_move_from_a_text_is_applied() {
    let mut board = Board::startpos();
    board.make_move(Move::from_algebraic_simple("g1f3").unwrap());
    assert_eq!(u64::from(board.bitboards[WHITE_KNIGHT]), (1 << 1) | (1 << 21));
}

#[test]
fn a_piece_on_the_target_stays() {
    let mut board = Board::startpos();
    board.make_move(Move::new(Square::A1, Square::A8, 4));
    assert_eq!(u64::from(board.bitboards[WHITE_ROOK]), (1 << 7) | (1 << 56));
    assert_eq!(u64::from(board.bitboards[BLACK_ROOK]), 0x8100_0000_0000_0000);
}

#[test]
fn a_move_onto_a_piece_of_the_same_kind_takes_both_off() {
    let mut board = Board::startpos();
    board.make_move(Move::new(Square::A2, Square::B2, 0));
    assert_eq!(u64::from(board.bitboards[WHITE_PAWN]), 0xFC00);
}

#[test]
fn a_move_from_an_empty_square_changes_nothing() {
    let mut board = Board::startpos();
    let before = words(&board);
    board.make_move(Move::new(Square::E4, Square::E5, 0));
    assert_eq!(words(&board), before);
}

#[test]
fn a_move_to_its_own_origin_takes_the_piece_off() {
    let mut board = Board::startpos();
    board.make_move(Move::new(Square::E1, Square::E1, 0));
    assert!(board.bitboards[WHITE_KING].is_empty());
}

#[test]
fn every_set_that_holds_the_origin_is_toggled() {
    let mut board = Board::startpos();
    board.bitboards[BLACK_QUEEN] = Bitboard::from_square(Square::E2);
    board.make_move(Move::new(Square::E2, Square::E4, 0));
    assert_eq!(u64::from(board.bitboards[WHITE_PAWN]), 0xFF00 ^ (1 << 12) ^ (1 << 28));
    assert_eq!(u64::from(board.bitboards[BLACK_QUEEN]), 1 << 28);
}

#[test]
fn picture_of_the_opening_position() {
    let expected = "r n b q k b n r | Next move: White\n\
                    p p p p p p p p | Castling rights: KQkq\n\
                    - - - - - - - - | En passant: -\n\
                    - - - - - - - - | Halfmove clock: 0\n\
                    - - - - - - - - | Fullmove counter: 1\n\
                    - - - - - - - -\n\
                    P P P P P P P P\n\
                    R N B Q K B N R";
    assert_eq!(Board::startpos().to_string(), expected);
}

#[test]
fn picture_of_a_middle_game_position() {
    let board =
        Board::from_fen("r3k2r/pp3ppp/2n5/3q4/4P3/8/PP3PPP/R3K2R b Kq e3 12 34").unwrap();
    let expected = "r - - - k - - r | Next move: Black\n\
                    p p - - - p p p | Castling rights: Kq\n\
                    - - n - - - - - | En passant: e3\n\
                    - - - q - - - - | Halfmove clock: 12\n\
                    - - - - P - - - | Fullmove counter: 34\n\
                    - - - - - - - -\n\
                    P P - - - P P P\n\
                    R - - - K - - R";
    assert_eq!(board.to_string(), expected);
}

#[test]
fn picture_of_an_unknown_side_and_no_rights() {
    let mut board = Board::from_fen("8/8/8/8/8/8/8/8 w - - 4294967295 0").unwrap();
    board.side_to_move = 7;
    board.castling_rights = 0xF0;
    let expected = "- - - - - - - - | Next move: ?\n\
                    - - - - - - - - | Castling rights: \n\
                    - - - - - - - - | En passant: -\n\
                    - - - - - - - - | Halfmove clock: 4294967295\n\
                    - - - - - - - - | Fullmove counter: 0\n\
                    - - - - - - - -\n\
                    - - - - - - - -\n\
                    - - - - - - - -";
    assert_eq!(board.to_string(), expected);
}

#[test]
fn picture_shows_the_first_set_that_holds_a_square() {
    let mut board = Board::startpos();
    board.bitboards[BLACK_PAWN] = Bitboard::from_u64(u64::MAX);
    let text = board.to_string();
    let rows: Vec<&str> = text.lines().collect();
    assert_eq!(rows[7], "R N B Q K B N R");
    assert_eq!(rows[5], "p p p p p p p p");
    assert_eq!(rows[0], "r n b q k b n r | Next move: White");
}

#[test]
fn picture_lists_the_rights_in_the_order_of_their_bits() {
    let mut board = Board::startpos();
    for (rights, letters) in [(0u8, ""), (1, "K"), (2, "Q"), (4, "k"), (8, "q"), (5, "Kk"), (10, "Qq"), (15, "KQkq")] {
        board.castling_rights = rights;
        let text = board.to_string();
        let row = text.lines().nth(1).unwrap();
        assert_eq!(row, format!("p p p p p p p p | Castling rights: {letters}"));
    }
}
