use jesschess::error::ChessError;
use jesschess::moves::Move;
use jesschess::square::Square;

fn every_square() -> Vec<Square> {
    (0..64u16).map(|n| Square::from_u16(n).unwrap()).collect()
}

#[test]
fn new_keeps_origin_target_and_code() {
    for from in every_square() {
        for to in every_square() {
            for code in 0..16u16 {
                let mv = Move::new(from, to, code);
                assert_eq!(mv.from().unwrap(), from);
                assert_eq!(mv.to().unwrap(), to);
                assert_eq!(mv.from_panic(), from);
                assert_eq!(mv.to_panic(), to);
                assert_eq!(mv.promotion(), code);
            }
        }
    }
}

#[test]
fn new_packs_the_fields_in_order() {
    assert_eq!(Move::new(Square::E2, Square::E4, 0).to_u16(), 12 | (28 << 6));
    assert_eq!(Move::new(Square::E7, Square::E8, 11).to_u16(), 52 | (60 << 6) | (11 << 12));
    assert_eq!(Move::new(Square::A1, Square::A1, 0).to_u16(), 0);
    assert_eq!(Move::new(Square::H8, Square::H8, 15).to_u16(), 0xFFFF);
    assert_eq!(Move::new(Square::B1, Square::A1, 0).to_u16(), 1);
    assert_eq!(Move::new(Square::A1, Square::B1, 0).to_u16(), 64);
    assert_eq!(Move::new(Square::A1, Square::A1, 1).to_u16(), 4096);
}

#[test]
fn new_keeps_the_low_four_bits_of_a_code() {
    assert_eq!(Move::new(Square::A1, Square::B1, 16).promotion(), 0);
    assert_eq!(Move::new(Square::A1, Square::B1, 0x1F).promotion(), 15);
    assert_eq!(Move::new(Square::A1, Square::B1, 0xFFF8).promotion(), 8);
    assert_eq!(Move::new(Square::C3, Square::D4, 16).to_u16(), Move::new(Square::C3, Square::D4, 0).to_u16());
}

#[test]
fn from_raw_keeps_the_word() {
    for raw in [0u16, 1, 63, 64, 4095, 4096, 0x8000, 0xFFFF, 0xABCD] {
        let mv = Move::from_raw(raw);
        assert_eq!(mv.to_u16(), raw);
        assert_eq!(mv.from().unwrap().to_u16(), raw & 63);
        assert_eq!(mv.to().unwrap().to_u16(), (raw >> 6) & 63);
        assert_eq!(mv.promotion(), raw >> 12);
    }
}

#[test]
fn every_raw_word_decodes() {
    for raw in 0..=u16::MAX {
        let mv = Move::from_raw(raw);
        assert!(mv.from().is_ok());
        assert!(mv.to().is_ok());
        assert!(mv.to_algebraic().is_ok());
    }
}

#[test]
fn simple_move_round_trip() {
    let mv = Move::from_algebraic_simple("e2e4").unwrap();
    assert_eq!(mv.to_algebraic().unwrap(), "e2e4");
    assert_eq!(mv.from().unwrap(), Square::E2);
    assert_eq!(mv.to().unwrap(), Square::E4);
    assert_eq!(mv.promotion(), 0);
}

#[test]
fn promotion_move_round_trip() {
    let mv = Move::from_algebraic_simple("e7e8q").unwrap();
    assert_ne!(mv.promotion() & 0b1000, 0);
    assert_eq!(mv.promotion(), 11);
    let text = mv.to_algebraic().unwrap();
    assert!(text.ends_with('q'));
    assert_eq!(text, "e7e8q");
}

#[test]
fn promotion_letters_have_their_codes() {
    for (text, code) in [("a7a8n", 8u16), ("a7a8b", 9), ("a7a8r", 10), ("a7a8q", 11)] {
        let mv = Move::from_algebraic_simple(text).unwrap();
        assert_eq!(mv.promotion(), code);
        assert_eq!(mv.to_algebraic().unwrap(), text);
    }
}

#[test]
fn move_squares_read_in_either_case() {
    let mv = Move::from_algebraic_simple("E2E4").unwrap();
    assert_eq!(mv.to_algebraic().unwrap(), "e2e4");
}

#[test]
fn what_follows_the_fifth_character_is_not_read() {
    let mv = Move::from_algebraic_simple("e7e8qx").unwrap();
    assert_eq!(mv.to_algebraic().unwrap(), "e7e8q");
}

#[test]
fn from_algebraic_simple_rejects_malformed_text() {
    for text in ["", "e", "e2", "e2e", "e2e4x", "e2e4Q", "e2e4 ", "e2e41", "i2e4", "e2e9", "e9e4", "e2 e4", "\u{e9}2e4", "e2e4\u{e9}"] {
        assert!(
            matches!(Move::from_algebraic_simple(text), Err(ChessError::InvalidAlgNotation { .. })),
            "{text:?} was accepted"
        );
    }
}

#[test]
fn from_algebraic_simple_messages() {
    match Move::from_algebraic_simple("e2") {
        Err(ChessError::InvalidAlgNotation { msg }) => assert_eq!(msg, "Invalid algebraic move notation: e2"),
        _ => panic!("e2 was accepted"),
    }
    match Move::from_algebraic_simple("e2e4x") {
        Err(ChessError::InvalidAlgNotation { msg }) => assert_eq!(msg, "Invalid promo piece (e2e4x): x"),
        _ => panic!("e2e4x was accepted"),
    }
    match Move::from_algebraic_simple("z2e4") {
        Err(ChessError::InvalidAlgNotation { msg }) => assert_eq!(msg, "Invalid rank/file: z2"),
        _ => panic!("z2e4 was accepted"),
    }
    match Move::from_algebraic_simple("e2e9") {
        Err(ChessError::InvalidAlgNotation { msg }) => assert_eq!(msg, "Invalid rank/file: e9"),
        _ => panic!("e2e9 was accepted"),
    }
}

#[test]
fn to_algebraic_adds_the_promoted_piece() {
    let text = |code: u16| Move::new(Square::B7, Square::A8, code).to_algebraic().unwrap();
    for code in 0..8 {
        assert_eq!(text(code), "b7a8");
    }
    assert_eq!(text(8), "b7a8n");
    assert_eq!(text(9), "b7a8b");
    assert_eq!(text(10), "b7a8r");
    assert_eq!(text(11), "b7a8q");
    assert_eq!(text(12), "b7a8n");
    assert_eq!(text(13), "b7a8b");
    assert_eq!(text(14), "b7a8r");
    assert_eq!(text(15), "b7a8q");
}

#[test]
fn to_algebraic_of_a_raw_word() {
    assert_eq!(Move::from_raw(0xFFFF).to_algebraic().unwrap(), "h8h8q");
    assert_eq!(Move::from_raw(0).to_algebraic().unwrap(), "a1a1");
}

#[test]
fn move_shown_with_an_arrow() {
    assert_eq!(Move::new(Square::E2, Square::E4, 0).to_string(), "e2 -> e4");
    assert_eq!(Move::new(Square::E7, Square::E8, 11).to_string(), "e7 -> e8");
    assert_eq!(Move::from_raw(0xFFFF).to_string(), "h8 -> h8");
}

#[test]
fn text_round_trip_for_every_plain_move() {
    for raw in 0..=u16::MAX {
        let code = raw >> 12;
        if code == 0 || (8..=11).contains(&code) {
            let text = Move::from_raw(raw).to_algebraic().unwrap();
            assert_eq!(Move::from_algebraic_simple(&text).unwrap().to_u16(), raw);
        }
    }
}
