use jesschess::error::ChessError;

#[test]
fn invalid_fen_line() {
    let e = ChessError::InvalidFen { msg: String::from("no fields") };
    assert_eq!(e.to_string(), "Invalid FEN: no fields");
}

#[test]
fn invalid_algebraic_notation_line() {
    let e = ChessError::InvalidAlgNotation { msg: String::from("z9") };
    assert_eq!(e.to_string(), "Invalid algebraic notation: z9");
}

#[test]
fn invalid_square_line() {
    assert_eq!(ChessError::InvalidSquare { square: 64 }.to_string(), "Invalid square: 64");
    assert_eq!(ChessError::InvalidSquare { square: 0 }.to_string(), "Invalid square: 0");
    assert_eq!(ChessError::InvalidSquare { square: 65535 }.to_string(), "Invalid square: 65535");
}

#[test]
fn empty_message_leaves_the_prefix() {
    let e = ChessError::InvalidFen { msg: String::new() };
    assert_eq!(e.to_string(), "Invalid FEN: ");
}

#[test]
fn version_is_0_1() {
    assert_eq!(jesschess::version(), "0.1");
    assert_eq!(jesschess::VERSION, "0.1");
}
