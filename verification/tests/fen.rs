use jesschess::board::{Board, BLACK, BLACK_KING, FEN_STARTPOS, WHITE, WHITE_KING, WHITE_PAWN, WHITE_ROOK};
use jesschess::error::ChessError;
use jesschess::square::Square;

fn fen_failure(text: &str) -> String {
    match Board::from_fen(text) {
        Err(ChessError::InvalidFen { msg }) => msg,
        Err(other) => panic!("{text:?} failed with {other:?}"),
        Ok(_) => panic!("{text:?} was accepted"),
    }
}

fn notation_failure(text: &str) -> String {
    match Board::from_fen(text) {
        Err(ChessError::InvalidAlgNotation { msg }) => msg,
        Err(other) => panic!("{text:?} failed with {other:?}"),
        Ok(_) => panic!("{text:?} was accepted"),
    }
}

#[test]
fn the_opening_position_is_read() {
    let board = Board::from_fen(FEN_STARTPOS).unwrap();
    assert_eq!(board.bitboards[WHITE_KING].count(), 1);
    assert!(board.bitboards[WHITE_KING].is_occ(Square::E1));
    assert_eq!(u64::from(board.bitboards[WHITE_KING]), 1 << 4);
    assert_eq!(board.castling_rights, 0b1111);
    assert_eq!(board.en_passant, None);
    assert_eq!(board.halfmove_clock, 0);
    assert_eq!(board.fullmove_counter, 1);
    assert_eq!(board.side_to_move, WHITE);
    assert!(board.move_stack.is_empty());
}

#[test]
fn seven_ranks_are_too_few() {
    assert_eq!(
        fen_failure("rnbqkbnr/pppppppp/8/8/8/8/PPPPPPPP w KQkq - 0 1"),
        "Invalid number of ranks (7)"
    );
    assert_eq!(fen_failure("8 w - - 0 1"), "Invalid number of ranks (1)");
}

#[test]
fn an_unknown_side_is_refused() {
    let text = "rnbqkbnr/pppppppp/8/8/8/8/PPPPPPPP/RNBQKBNR x KQkq - 0 1";
    assert_eq!(fen_failure(text), "Invalid side to move: x");
    assert_eq!(fen_failure("8/8/8/8/8/8/8/8 W - - 0 1"), "Invalid side to move: W");
    assert_eq!(fen_failure("8/8/8/8/8/8/8/8 wb - - 0 1"), "Invalid side to move: wb");
}

#[test]
fn a_halfmove_clock_that_is_no_number_is_refused() {
    let text = "rnbqkbnr/pppppppp/8/8/8/8/PPPPPPPP/RNBQKBNR w KQkq - x 1";
    assert_eq!(fen_failure(text), "Invalid halfmove clock: x");
    assert_eq!(fen_failure("8/8/8/8/8/8/8/8 w - - -1 1"), "Invalid halfmove clock: -1");
    assert_eq!(
        fen_failure("8/8/8/8/8/8/8/8 w - - 4294967296 1"),
        "Invalid halfmove clock: 4294967296"
    );
}

#[test]
fn a_fullmove_counter_that_is_no_number_is_refused() {
    assert_eq!(fen_failure("8/8/8/8/8/8/8/8 w - - 0 one"), "Invalid fullmove counter: one");
    assert_eq!(fen_failure("8/8/8/8/8/8/8/8 w - - 0 1.5"), "Invalid fullmove counter: 1.5");
}

#[test]
fn the_number_of_fields_must_be_six() {
    assert_eq!(fen_failure(""), "Invalid number of fields (0)");
    assert_eq!(fen_failure("   "), "Invalid number of fields (0)");
    assert_eq!(fen_failure("8/8/8/8/8/8/8/8"), "Invalid number of fields (1)");
    assert_eq!(fen_failure("8/8/8/8/8/8/8/8 w - - 0"), "Invalid number of fields (5)");
    assert_eq!(fen_failure("8/8/8/8/8/8/8/8 w - - 0 1 2"), "Invalid number of fields (7)");
    assert_eq!(fen_failure("a b c d e f g h i j k l"), "Invalid number of fields (12)");
}

#[test]
fn fields_may_be_separated_by_any_white_space() {
    let board = Board::from_fen("  8/8/8/8/8/8/8/K7\tb \n Qk\u{3000}a6   7 \r\n 9  ").unwrap();
    assert_eq!(u64::from(board.bitboards[WHITE_KING]), 1);
    assert_eq!(board.side_to_move, BLACK);
    assert_eq!(board.castling_rights, 0b0110);
    assert_eq!(board.en_passant, Some(Square::A6));
    assert_eq!(board.halfmove_clock, 7);
    assert_eq!(board.fullmove_counter, 9);
}

#[test]
fn pieces_are_put_on_their_squares() {
    let board = Board::from_fen("k7/8/8/8/3P4/8/8/R3K2R w - - 0 1").unwrap();
    assert_eq!(u64::from(board.bitboards[BLACK_KING]), 1 << 56);
    assert_eq!(u64::from(board.bitboards[WHITE_PAWN]), 1 << 27);
    assert_eq!(u64::from(board.bitboards[WHITE_KING]), 1 << 4);
    assert_eq!(u64::from(board.bitboards[WHITE_ROOK]), 0x81);
    let total: u32 = board.bitboards.iter().map(|bb| bb.count()).sum();
    assert_eq!(total, 5);
}

#[test]
fn no_square_holds_two_pieces() {
    for text in [FEN_STARTPOS, "r3k2r/pp3ppp/2n5/3q4/4P3/8/PP3PPP/R3K2R b Kq e3 12 34", "KQRBNPkq/rbnp4/0K0Q6/8/8/8/8/pppppppp w - - 0 1"] {
        let board = Board::from_fen(text).unwrap();
        let mut seen = 0u64;
        for bb in board.bitboards.iter() {
            let word = u64::from(*bb);
            assert_eq!(seen & word, 0);
            seen |= word;
        }
    }
}

#[test]
fn an_unknown_piece_is_refused() {
    assert_eq!(fen_failure("8/8/8/8/8/8/8/7x w - - 0 1"), "Invalid piece: x");
    assert_eq!(fen_failure("8/8/8/8/8/8/8/K-6 w - - 0 1"), "Invalid piece: -");
    assert_eq!(fen_failure("8/8/8/8/8/8/8/\u{e9}7 w - - 0 1"), "Invalid piece: \u{e9}");
}

#[test]
fn empty_squares_may_not_pass_the_eighth_file() {
    assert_eq!(fen_failure("9/8/8/8/8/8/8/8 w - - 0 1"), "Empty squares exceed board: 9");
    assert_eq!(fen_failure("8/8/8/8/8/8/8/45 w - - 0 1"), "Empty squares exceed board: 45");
    assert_eq!(fen_failure("8/8/8/8/8/8/8/PPPP5 w - - 0 1"), "Empty squares exceed board: PPPP5");
}

#[test]
fn the_first_malformed_rank_gives_the_failure() {
    assert_eq!(fen_failure("8/x/9/8/8/8/8/8 w - - 0 1"), "Invalid piece: x");
    assert_eq!(fen_failure("8/9/x/8/8/8/8/8 w - - 0 1"), "Empty squares exceed board: 9");
}

#[test]
fn what_follows_a_full_rank_is_not_read() {
    let board = Board::from_fen("8/8/8/8/8/8/8/RNBQKBNRxyz w - - 0 1").unwrap();
    assert_eq!(u64::from(board.bitboards[WHITE_KING]), 1 << 4);
    let board = Board::from_fen("8/8/8/8/8/8/8/449 w - - 0 1").unwrap();
    assert!(board.bitboards.iter().all(|bb| bb.is_empty()));
}

#[test]
fn a_rank_may_be_short_or_empty() {
    let board = Board::from_fen("///////K w - - 0 1").unwrap();
    assert_eq!(u64::from(board.bitboards[WHITE_KING]), 1);
    let board = Board::from_fen("8/8/8/8/8/8/8/0K0 w - - 0 1").unwrap();
    assert_eq!(u64::from(board.bitboards[WHITE_KING]), 1);
}

#[test]
fn ranks_after_the_eighth_are_not_read() {
    let board = Board::from_fen("8/8/8/8/8/8/8/K7/xyz/99 w - - 0 1").unwrap();
    assert_eq!(u64::from(board.bitboards[WHITE_KING]), 1);
}

#[test]
fn castling_rights_are_read_in_any_order() {
    let rights = |field: &str| {
        Board::from_fen(&format!("8/8/8/8/8/8/8/8 w {field} - 0 1")).unwrap().castling_rights
    };
    assert_eq!(rights("-"), 0);
    assert_eq!(rights("K"), 1);
    assert_eq!(rights("Q"), 2);
    assert_eq!(rights("k"), 4);
    assert_eq!(rights("q"), 8);
    assert_eq!(rights("KQkq"), 15);
    assert_eq!(rights("qkQK"), 15);
    assert_eq!(rights("Kq"), 9);
    assert_eq!(rights("KKKK"), 1);
    assert_eq!(rights("qQq"), 10);
}

#[test]
fn unknown_castling_rights_are_refused() {
    assert_eq!(fen_failure("8/8/8/8/8/8/8/8 w KQx - 0 1"), "Invalid castling rights: KQx");
    assert_eq!(fen_failure("8/8/8/8/8/8/8/8 w K- - 0 1"), "Invalid castling rights: K-");
    assert_eq!(fen_failure("8/8/8/8/8/8/8/8 w -- - 0 1"), "Invalid castling rights: --");
}

#[test]
fn the_en_passant_target_is_read() {
    let target = |field: &str| {
        Board::from_fen(&format!("8/8/8/8/8/8/8/8 w - {field} 0 1")).unwrap().en_passant
    };
    assert_eq!(target("-"), None);
    assert_eq!(target("e3"), Some(Square::E3));
    assert_eq!(target("E3"), Some(Square::E3));
    assert_eq!(target("a6"), Some(Square::A6));
    assert_eq!(target("h8"), Some(Square::H8));
}

#[test]
fn a_malformed_en_passant_target_is_a_notation_failure() {
    assert_eq!(notation_failure("8/8/8/8/8/8/8/8 w - e9 0 1"), "Invalid rank/file: e9");
    assert_eq!(notation_failure("8/8/8/8/8/8/8/8 w - e 0 1"), "e");
    assert_eq!(notation_failure("8/8/8/8/8/8/8/8 w - e3x 0 1"), "e3x");
}

#[test]
fn the_first_malformed_field_gives_the_failure() {
    assert_eq!(notation_failure("8/8/8/8/8/8/8/8 w - zz x y"), "Invalid rank/file: zz");
    assert_eq!(fen_failure("8/8/8/8/8/8/8/8 ? - zz x y"), "Invalid side to move: ?");
    assert_eq!(fen_failure("8/8/8/8/8/8/8 ? ? zz x y"), "Invalid number of ranks (7)");
    assert_eq!(fen_failure("8/8/8/8/8/8/8/8 w ? zz x y"), "Invalid castling rights: ?");
    assert_eq!(fen_failure("8/8/8/8/8/8/8/8 w - - x y"), "Invalid halfmove clock: x");
}

#[test]
fn counters_are_read() {
    let board = Board::from_fen("8/8/8/8/8/8/8/8 b - - +17 4294967295").unwrap();
    assert_eq!(board.halfmove_clock, 17);
    assert_eq!(board.fullmove_counter, u32::MAX);
    let board = Board::from_fen("8/8/8/8/8/8/8/8 b - - 007 0").unwrap();
    assert_eq!(board.halfmove_clock, 7);
    assert_eq!(board.fullmove_counter, 0);
}

#[test]
fn a_failure_reads_as_one_line() {
    let line = |text: &str| match Board::from_fen(text) {
        Err(e) => e.to_string(),
        Ok(_) => panic!("{text:?} was accepted"),
    };
    assert_eq!(line("8/8/8/8/8/8/8/8 w - - 0"), "Invalid FEN: Invalid number of fields (5)");
    assert_eq!(
        line("8/8/8/8/8/8/8/8 w - j1 0 1"),
        "Invalid algebraic notation: Invalid rank/file: j1"
    );
}
