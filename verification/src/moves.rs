//! A move packed into sixteen bits.
//!
//! | bits  | field                         |
//! |-------|-------------------------------|
//! | 0-5   | index of the origin square    |
//! | 6-11  | index of the target square    |
//! | 12-15 | kind of move                  |
//!
//! The kind of move is a four-bit code. Bit 3 marks a promotion, bit 2 a
//! capture, and the two low bits tell the special moves apart:
//!
//! | code  | kind of move                                   |
//! |-------|------------------------------------------------|
//! | 0     | quiet move                                     |
//! | 1     | double pawn push                               |
//! | 2     | king-side castle                               |
//! | 3     | queen-side castle                              |
//! | 4     | capture                                        |
//! | 5     | en-passant capture                             |
//! | 8-11  | promotion to knight, bishop, rook, queen       |
//! | 12-15 | the same four promotions, with a capture       |

use vstd::prelude::*;
use vstd::string::*;
use crate::bits::{lemma_code_bits, lemma_pack_fields, lemma_unpack_fields};
use crate::error::{ChessError, ChessErrorView};
use crate::square::{
    Square, lemma_algebraic_round_trip, lemma_at_index, lemma_index_round_trip, parse_square,
};

verus! {

/// A move: its origin, its target and the code of its kind, in one
/// sixteen-bit word. The type does not check the code against a position.
pub struct Move(u16);

/// The word that packs an origin, a target and the low four bits of a
/// code.
pub open spec fn packed(from: Square, to: Square, promotion: u16) -> u16 {
    (from.index() + 64 * to.index() + 4096 * (promotion % 16)) as u16
}

/// The index of the origin square held in a packed word.
pub open spec fn origin_of(raw: u16) -> int {
    (raw as int) % 64
}

/// The index of the target square held in a packed word.
pub open spec fn target_of(raw: u16) -> int {
    ((raw as int) / 64) % 64
}

/// The code of the kind of move held in a packed word.
pub open spec fn code_of(raw: u16) -> int {
    (raw as int) / 4096
}

/// The code that a promotion letter stands for.
pub open spec fn promotion_of_char(c: char) -> Option<u16> {
    if c == 'n' {
        Some(8)
    } else if c == 'b' {
        Some(9)
    } else if c == 'r' {
        Some(10)
    } else if c == 'q' {
        Some(11)
    } else {
        None
    }
}

/// The letter of the piece that a promotion code promotes to, chosen by
/// the two low bits of the code.
pub open spec fn promotion_char(code: int) -> char {
    if code % 4 == 0 {
        'n'
    } else if code % 4 == 1 {
        'b'
    } else if code % 4 == 2 {
        'r'
    } else {
        'q'
    }
}

/// The packed word that a move text denotes: two squares, then at most
/// one promotion letter. What follows the fifth character is not read.
pub open spec fn parse_move(text: Seq<char>) -> Result<u16, ChessErrorView> {
    if text.len() < 4 {
        Err(ChessErrorView::InvalidAlgNotation { msg: "Invalid algebraic move notation: "@ + text })
    } else {
        match parse_square(text.subrange(0, 2)) {
            Err(e) => Err(e),
            Ok(from) => match parse_square(text.subrange(2, 4)) {
                Err(e) => Err(e),
                Ok(to) => if text.len() == 4 {
                    Ok(packed(from, to, 0))
                } else {
                    match promotion_of_char(text[4]) {
                        Some(code) => Ok(packed(from, to, code)),
                        None => Err(
                            ChessErrorView::InvalidAlgNotation {
                                msg: "Invalid promo piece ("@ + text + "): "@ + seq![text[4]],
                            },
                        ),
                    }
                },
            },
        }
    }
}

/// The text of a packed word: origin, target, and the promotion letter
/// when bit 3 of the code is set.
pub open spec fn move_text(raw: u16) -> Seq<char> {
    Square::at(origin_of(raw)).algebraic() + Square::at(target_of(raw)).algebraic() + (if code_of(
        raw,
    ) >= 8 {
        seq![promotion_char(code_of(raw))]
    } else {
        Seq::<char>::empty()
    })
}

/// The line that shows a packed word as its origin, an arrow and its
/// target.
pub open spec fn move_arrow_text(raw: u16) -> Seq<char> {
    Square::at(origin_of(raw)).algebraic() + " -> "@ + Square::at(target_of(raw)).algebraic()
}

impl Move {
    /// The word that holds the move.
    pub closed spec fn raw(self) -> u16 {
        self.0
    }

    /// The move held in `raw`, whatever its fields are.
    pub fn from_raw(raw: u16) -> (mv: Move)
        ensures
            mv.raw() == raw,
    {
        Move(raw)
    }

    /// Packs an origin, a target and a code. Only the low four bits of
    /// the code are kept.
    pub fn new(from: Square, to: Square, promotion: u16) -> (mv: Move)
        ensures
            mv.raw() == packed(from, to, promotion),
    {
        let low = from.to_u16();
        let mid = to.to_u16();
        proof {
            lemma_index_round_trip(from);
            lemma_index_round_trip(to);
            lemma_pack_fields(low, mid, promotion);
        }
        Move((low | (mid << 6)) | ((promotion & 0xF) << 12))
    }

    /// The word that holds the move.
    pub fn to_u16(&self) -> (raw: u16)
        ensures
            raw == self.raw(),
    {
        self.0
    }

    /// The origin square. A six-bit field always names a square, so this
    /// never fails.
    pub fn from(&self) -> (r: Result<Square, ChessError>)
        ensures
            r == Ok::<Square, ChessError>(Square::at(origin_of(self.raw()))),
    {
        proof {
            lemma_unpack_fields(self.0);
        }
        Square::from_u16(self.0 & 0x3F)
    }

    /// The target square. A six-bit field always names a square, so this
    /// never fails.
    pub fn to(&self) -> (r: Result<Square, ChessError>)
        ensures
            r == Ok::<Square, ChessError>(Square::at(target_of(self.raw()))),
    {
        proof {
            lemma_unpack_fields(self.0);
        }
        Square::from_u16((self.0 & 0xFC0) >> 6)
    }

    /// The origin square, without a result to unwrap.
    pub fn from_panic(&self) -> (sq: Square)
        ensures
            sq == Square::at(origin_of(self.raw())),
    {
        proof {
            lemma_unpack_fields(self.0);
        }
        Square::from_u16_panic(self.0 & 0x3F)
    }

    /// The target square, without a result to unwrap.
    pub fn to_panic(&self) -> (sq: Square)
        ensures
            sq == Square::at(target_of(self.raw())),
    {
        proof {
            lemma_unpack_fields(self.0);
        }
        Square::from_u16_panic((self.0 & 0xFC0) >> 6)
    }

    /// The code of the kind of move, as it was packed.
    pub fn promotion(&self) -> (code: u16)
        ensures
            code == code_of(self.raw()),
            code < 16,
    {
        proof {
            lemma_unpack_fields(self.0);
        }
        (self.0 & 0xF000) >> 12
    }

    /// Reads a move such as `e2e4` or `e7e8q`: the origin, the target,
    /// and at most one of the promotion letters n, b, r, q. A text alone
    /// cannot tell a capture or a castle, so the code is 0 or one of the
    /// four plain promotions. What follows the fifth character is not
    /// read.
    pub fn from_algebraic_simple(algr: &str) -> (r: Result<Move, ChessError>)
        ensures
            match r {
                Ok(mv) => parse_move(algr@) == Ok::<u16, ChessErrorView>(mv.raw()),
                Err(e) => parse_move(algr@) == Err::<u16, ChessErrorView>(e@),
            },
    {
        let n = algr.unicode_len();
        if n < 4 {
            let mut msg = String::from_str("Invalid algebraic move notation: ");
            msg.append(algr);
            return Err(ChessError::InvalidAlgNotation { msg });
        }
        let from = match Square::from_algebraic(algr.substring_char(0, 2)) {
            Ok(sq) => sq,
            Err(e) => {
                return Err(e);
            },
        };
        let to = match Square::from_algebraic(algr.substring_char(2, 4)) {
            Ok(sq) => sq,
            Err(e) => {
                return Err(e);
            },
        };
        if n == 4 {
            return Ok(Move::new(from, to, 0));
        }
        let code: u16 = match algr.get_char(4) {
            'n' => 8,
            'b' => 9,
            'r' => 10,
            'q' => 11,
            _ => {
                let mut msg = String::from_str("Invalid promo piece (");
                msg.append(algr);
                msg.append("): ");
                msg.append(algr.substring_char(4, 5));
                proof {
                    assert(algr@.subrange(4, 5) =~= seq![algr@[4]]);
                }
                return Err(ChessError::InvalidAlgNotation { msg });
            },
        };
        Ok(Move::new(from, to, code))
    }

    /// Writes the move as its origin and target, followed by the letter
    /// of the promoted piece when the code marks a promotion. This never
    /// fails.
    pub fn to_algebraic(&self) -> (r: Result<String, ChessError>)
        ensures
            r matches Ok(s) && s@ == move_text(self.raw()),
    {
        let from = match self.from() {
            Ok(sq) => sq,
            Err(e) => {
                return Err(e);
            },
        };
        let to = match self.to() {
            Ok(sq) => sq,
            Err(e) => {
                return Err(e);
            },
        };
        let mut algr = from.to_algebraic();
        algr.append(to.to_algebraic().as_str());
        let promotion = self.promotion();
        proof {
            lemma_code_bits(promotion);
            reveal_strlit("n");
            reveal_strlit("b");
            reveal_strlit("r");
            reveal_strlit("q");
        }
        if promotion & 0x8 != 0 {
            let letter = match promotion & 0x3 {
                0 => "n",
                1 => "b",
                2 => "r",
                _ => "q",
            };
            assert(letter@ =~= seq![promotion_char(promotion as int)]);
            algr.append(letter);
        }
        assert(algr@ =~= move_text(self.raw()));
        Ok(algr)
    }

    /// Writes the move as its origin, an arrow and its target.
    pub fn to_string(&self) -> (s: String)
        ensures
            s@ == move_arrow_text(self.raw()),
    {
        let mut s = self.from_panic().to_algebraic();
        s.append(" -> ");
        s.append(self.to_panic().to_algebraic().as_str());
        s
    }
}

/// A move packed from two squares and a four-bit code holds those
/// squares and that code.
pub proof fn lemma_packed_fields(from: Square, to: Square, code: u16)
    requires
        code < 16,
    ensures
        Square::at(origin_of(packed(from, to, code))) == from,
        Square::at(target_of(packed(from, to, code))) == to,
        code_of(packed(from, to, code)) == code,
{
    lemma_index_round_trip(from);
    lemma_index_round_trip(to);
    lemma_weighted_fields(from.index(), to.index(), code as int);
}

/// Reading the text of a move gives the move back, when its code is one
/// that a text can tell: 0, or one of the four plain promotions.
pub proof fn lemma_move_text_round_trip(raw: u16)
    requires
        code_of(raw) == 0 || 8 <= code_of(raw) <= 11,
    ensures
        parse_move(move_text(raw)) == Ok::<u16, ChessErrorView>(raw),
{
    let from = Square::at(origin_of(raw));
    let to = Square::at(target_of(raw));
    let code = code_of(raw);
    let text = move_text(raw);
    lemma_at_index(origin_of(raw));
    lemma_at_index(target_of(raw));
    lemma_algebraic_round_trip(from);
    lemma_algebraic_round_trip(to);
    assert(text.subrange(0, 2) =~= from.algebraic());
    assert(text.subrange(2, 4) =~= to.algebraic());
    assert(raw == origin_of(raw) + 64 * target_of(raw) + 4096 * code);
    if code >= 8 {
        assert(text[4] == promotion_char(code));
        assert(promotion_of_char(text[4]) == Some(code as u16));
    }
}

/// Three fields weighted by 1, 64 and 4096 are read back by dividing.
proof fn lemma_weighted_fields(low: int, mid: int, high: int)
    requires
        0 <= low < 64,
        0 <= mid < 64,
        0 <= high < 16,
    ensures
        low + 64 * mid + 4096 * high < 65536,
        (low + 64 * mid + 4096 * high) % 64 == low,
        ((low + 64 * mid + 4096 * high) / 64) % 64 == mid,
        (low + 64 * mid + 4096 * high) / 4096 == high,
{
}

} // verus!
