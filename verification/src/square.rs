//! The 64 squares of the board and their three names: an index, a file and
//! rank, and two characters of algebraic notation.

use vstd::prelude::*;
use vstd::string::*;
use crate::error::{ChessError, ChessErrorView, result_view};
use crate::text::{digit_char, digit_str};

verus! {

/// One cell of the board. The squares are listed rank by rank from White's
/// side, each rank from file a to file h, so that a square's index is eight
/// times its rank plus its file.
#[derive(Clone, Copy, Debug, PartialEq, Eq, Structural)]
pub enum Square {
    A1, B1, C1, D1, E1, F1, G1, H1,
    A2, B2, C2, D2, E2, F2, G2, H2,
    A3, B3, C3, D3, E3, F3, G3, H3,
    A4, B4, C4, D4, E4, F4, G4, H4,
    A5, B5, C5, D5, E5, F5, G5, H5,
    A6, B6, C6, D6, E6, F6, G6, H6,
    A7, B7, C7, D7, E7, F7, G7, H7,
    A8, B8, C8, D8, E8, F8, G8, H8,
}

/// The letter that names file `file`, for files 0 to 7.
pub open spec fn file_char(file: int) -> char {
    if file == 0 {
        'a'
    } else if file == 1 {
        'b'
    } else if file == 2 {
        'c'
    } else if file == 3 {
        'd'
    } else if file == 4 {
        'e'
    } else if file == 5 {
        'f'
    } else if file == 6 {
        'g'
    } else {
        'h'
    }
}

/// The file that `c` names, in either case, if it names one.
pub open spec fn file_of_char(c: char) -> Option<int> {
    if c == 'a' || c == 'A' {
        Some(0)
    } else if c == 'b' || c == 'B' {
        Some(1)
    } else if c == 'c' || c == 'C' {
        Some(2)
    } else if c == 'd' || c == 'D' {
        Some(3)
    } else if c == 'e' || c == 'E' {
        Some(4)
    } else if c == 'f' || c == 'F' {
        Some(5)
    } else if c == 'g' || c == 'G' {
        Some(6)
    } else if c == 'h' || c == 'H' {
        Some(7)
    } else {
        None
    }
}

/// The rank that `c` names, if it is one of the digits 1 to 8.
pub open spec fn rank_of_char(c: char) -> Option<int> {
    if c == '1' {
        Some(0)
    } else if c == '2' {
        Some(1)
    } else if c == '3' {
        Some(2)
    } else if c == '4' {
        Some(3)
    } else if c == '5' {
        Some(4)
    } else if c == '6' {
        Some(5)
    } else if c == '7' {
        Some(6)
    } else if c == '8' {
        Some(7)
    } else {
        None
    }
}

/// What a text in algebraic notation denotes: a square when the text is
/// exactly a file letter followed by a rank digit, a failure that quotes
/// the text otherwise.
pub open spec fn parse_square(text: Seq<char>) -> Result<Square, ChessErrorView> {
    if text.len() != 2 {
        Err(ChessErrorView::InvalidAlgNotation { msg: text })
    } else {
        match (file_of_char(text[0]), rank_of_char(text[1])) {
            (Some(file), Some(rank)) => Ok(Square::at(rank * 8 + file)),
            _ => Err(ChessErrorView::InvalidAlgNotation { msg: "Invalid rank/file: "@ + text }),
        }
    }
}

impl Square {
    /// The position of the square in the enumeration, from 0 to 63.
    #[verifier::opaque]
    pub open spec fn index(self) -> int {
        match self {
            Square::A1 => 0, Square::B1 => 1, Square::C1 => 2, Square::D1 => 3,
            Square::E1 => 4, Square::F1 => 5, Square::G1 => 6, Square::H1 => 7,
            Square::A2 => 8, Square::B2 => 9, Square::C2 => 10, Square::D2 => 11,
            Square::E2 => 12, Square::F2 => 13, Square::G2 => 14, Square::H2 => 15,
            Square::A3 => 16, Square::B3 => 17, Square::C3 => 18, Square::D3 => 19,
            Square::E3 => 20, Square::F3 => 21, Square::G3 => 22, Square::H3 => 23,
            Square::A4 => 24, Square::B4 => 25, Square::C4 => 26, Square::D4 => 27,
            Square::E4 => 28, Square::F4 => 29, Square::G4 => 30, Square::H4 => 31,
            Square::A5 => 32, Square::B5 => 33, Square::C5 => 34, Square::D5 => 35,
            Square::E5 => 36, Square::F5 => 37, Square::G5 => 38, Square::H5 => 39,
            Square::A6 => 40, Square::B6 => 41, Square::C6 => 42, Square::D6 => 43,
            Square::E6 => 44, Square::F6 => 45, Square::G6 => 46, Square::H6 => 47,
            Square::A7 => 48, Square::B7 => 49, Square::C7 => 50, Square::D7 => 51,
            Square::E7 => 52, Square::F7 => 53, Square::G7 => 54, Square::H7 => 55,
            Square::A8 => 56, Square::B8 => 57, Square::C8 => 58, Square::D8 => 59,
            Square::E8 => 60, Square::F8 => 61, Square::G8 => 62, Square::H8 => 63,
        }
    }

    /// The square with index `n`, for `n` from 0 to 63.
    #[verifier::opaque]
    pub open spec fn at(n: int) -> Square {
        if n == 0 {
            Square::A1
        } else if n == 1 {
            Square::B1
        } else if n == 2 {
            Square::C1
        } else if n == 3 {
            Square::D1
        } else if n == 4 {
            Square::E1
        } else if n == 5 {
            Square::F1
        } else if n == 6 {
            Square::G1
        } else if n == 7 {
            Square::H1
        } else if n == 8 {
            Square::A2
        } else if n == 9 {
            Square::B2
        } else if n == 10 {
            Square::C2
        } else if n == 11 {
            Square::D2
        } else if n == 12 {
            Square::E2
        } else if n == 13 {
            Square::F2
        } else if n == 14 {
            Square::G2
        } else if n == 15 {
            Square::H2
        } else if n == 16 {
            Square::A3
        } else if n == 17 {
            Square::B3
        } else if n == 18 {
            Square::C3
        } else if n == 19 {
            Square::D3
        } else if n == 20 {
            Square::E3
        } else if n == 21 {
            Square::F3
        } else if n == 22 {
            Square::G3
        } else if n == 23 {
            Square::H3
        } else if n == 24 {
            Square::A4
        } else if n == 25 {
            Square::B4
        } else if n == 26 {
            Square::C4
        } else if n == 27 {
            Square::D4
        } else if n == 28 {
            Square::E4
        } else if n == 29 {
            Square::F4
        } else if n == 30 {
            Square::G4
        } else if n == 31 {
            Square::H4
        } else if n == 32 {
            Square::A5
        } else if n == 33 {
            Square::B5
        } else if n == 34 {
            Square::C5
        } else if n == 35 {
            Square::D5
        } else if n == 36 {
            Square::E5
        } else if n == 37 {
            Square::F5
        } else if n == 38 {
            Square::G5
        } else if n == 39 {
            Square::H5
        } else if n == 40 {
            Square::A6
        } else if n == 41 {
            Square::B6
        } else if n == 42 {
            Square::C6
        } else if n == 43 {
            Square::D6
        } else if n == 44 {
            Square::E6
        } else if n == 45 {
            Square::F6
        } else if n == 46 {
            Square::G6
        } else if n == 47 {
            Square::H6
        } else if n == 48 {
            Square::A7
        } else if n == 49 {
            Square::B7
        } else if n == 50 {
            Square::C7
        } else if n == 51 {
            Square::D7
        } else if n == 52 {
            Square::E7
        } else if n == 53 {
            Square::F7
        } else if n == 54 {
            Square::G7
        } else if n == 55 {
            Square::H7
        } else if n == 56 {
            Square::A8
        } else if n == 57 {
            Square::B8
        } else if n == 58 {
            Square::C8
        } else if n == 59 {
            Square::D8
        } else if n == 60 {
            Square::E8
        } else if n == 61 {
            Square::F8
        } else if n == 62 {
            Square::G8
        } else {
            Square::H8
        }
    }

    /// The file of the square, from 0 for file a to 7 for file h.
    pub open spec fn file(self) -> int {
        self.index() % 8
    }

    /// The rank of the square, from 0 for rank 1 to 7 for rank 8.
    pub open spec fn rank(self) -> int {
        self.index() / 8
    }

    /// The square in algebraic notation: its file letter, then its rank
    /// digit.
    pub open spec fn algebraic(self) -> Seq<char> {
        seq![file_char(self.file()), digit_char(self.rank() + 1)]
    }

    /// The index of the square.
    pub fn to_u8(&self) -> (n: u8)
        ensures
            n == self.index(),
            n < 64,
    {
        reveal(Square::index);
        match self {
            Square::A1 => 0, Square::B1 => 1, Square::C1 => 2, Square::D1 => 3,
            Square::E1 => 4, Square::F1 => 5, Square::G1 => 6, Square::H1 => 7,
            Square::A2 => 8, Square::B2 => 9, Square::C2 => 10, Square::D2 => 11,
            Square::E2 => 12, Square::F2 => 13, Square::G2 => 14, Square::H2 => 15,
            Square::A3 => 16, Square::B3 => 17, Square::C3 => 18, Square::D3 => 19,
            Square::E3 => 20, Square::F3 => 21, Square::G3 => 22, Square::H3 => 23,
            Square::A4 => 24, Square::B4 => 25, Square::C4 => 26, Square::D4 => 27,
            Square::E4 => 28, Square::F4 => 29, Square::G4 => 30, Square::H4 => 31,
            Square::A5 => 32, Square::B5 => 33, Square::C5 => 34, Square::D5 => 35,
            Square::E5 => 36, Square::F5 => 37, Square::G5 => 38, Square::H5 => 39,
            Square::A6 => 40, Square::B6 => 41, Square::C6 => 42, Square::D6 => 43,
            Square::E6 => 44, Square::F6 => 45, Square::G6 => 46, Square::H6 => 47,
            Square::A7 => 48, Square::B7 => 49, Square::C7 => 50, Square::D7 => 51,
            Square::E7 => 52, Square::F7 => 53, Square::G7 => 54, Square::H7 => 55,
            Square::A8 => 56, Square::B8 => 57, Square::C8 => 58, Square::D8 => 59,
            Square::E8 => 60, Square::F8 => 61, Square::G8 => 62, Square::H8 => 63,
        }
    }

    /// The index of the square, in sixteen bits.
    pub fn to_u16(&self) -> (n: u16)
        ensures
            n == self.index(),
            n < 64,
    {
        self.to_u8() as u16
    }

    /// Decodes an index. Any number above 63 is reported as
    /// [`ChessError::InvalidSquare`].
    pub fn from_u16(n: u16) -> (r: Result<Self, ChessError>)
        ensures
            n < 64 ==> r == Ok::<Square, ChessError>(Square::at(n as int)),
            n >= 64 ==> r == Err::<Square, ChessError>(ChessError::InvalidSquare { square: n }),
    {
        reveal(Square::at);
        match n {
            0 => Ok(Square::A1), 1 => Ok(Square::B1), 2 => Ok(Square::C1), 3 => Ok(Square::D1),
            4 => Ok(Square::E1), 5 => Ok(Square::F1), 6 => Ok(Square::G1), 7 => Ok(Square::H1),
            8 => Ok(Square::A2), 9 => Ok(Square::B2), 10 => Ok(Square::C2), 11 => Ok(Square::D2),
            12 => Ok(Square::E2), 13 => Ok(Square::F2), 14 => Ok(Square::G2), 15 => Ok(Square::H2),
            16 => Ok(Square::A3), 17 => Ok(Square::B3), 18 => Ok(Square::C3), 19 => Ok(Square::D3),
            20 => Ok(Square::E3), 21 => Ok(Square::F3), 22 => Ok(Square::G3), 23 => Ok(Square::H3),
            24 => Ok(Square::A4), 25 => Ok(Square::B4), 26 => Ok(Square::C4), 27 => Ok(Square::D4),
            28 => Ok(Square::E4), 29 => Ok(Square::F4), 30 => Ok(Square::G4), 31 => Ok(Square::H4),
            32 => Ok(Square::A5), 33 => Ok(Square::B5), 34 => Ok(Square::C5), 35 => Ok(Square::D5),
            36 => Ok(Square::E5), 37 => Ok(Square::F5), 38 => Ok(Square::G5), 39 => Ok(Square::H5),
            40 => Ok(Square::A6), 41 => Ok(Square::B6), 42 => Ok(Square::C6), 43 => Ok(Square::D6),
            44 => Ok(Square::E6), 45 => Ok(Square::F6), 46 => Ok(Square::G6), 47 => Ok(Square::H6),
            48 => Ok(Square::A7), 49 => Ok(Square::B7), 50 => Ok(Square::C7), 51 => Ok(Square::D7),
            52 => Ok(Square::E7), 53 => Ok(Square::F7), 54 => Ok(Square::G7), 55 => Ok(Square::H7),
            56 => Ok(Square::A8), 57 => Ok(Square::B8), 58 => Ok(Square::C8), 59 => Ok(Square::D8),
            60 => Ok(Square::E8), 61 => Ok(Square::F8), 62 => Ok(Square::G8), 63 => Ok(Square::H8),
            _ => Err(ChessError::InvalidSquare { square: n }),
        }
    }

    /// Decodes an index that the caller knows to be below 64.
    pub fn from_u16_panic(n: u16) -> (sq: Self)
        requires
            n < 64,
        ensures
            sq == Square::at(n as int),
            sq.index() == n,
    {
        proof {
            lemma_at_index(n as int);
        }
        match Self::from_u16(n) {
            Ok(sq) => sq,
            Err(_) => unreached(),
        }
    }

    /// The square on file `file` and rank `rank`, both counted from 0.
    pub fn from_file_rank(file: usize, rank: usize) -> (sq: Self)
        requires
            file < 8,
            rank < 8,
        ensures
            sq == Square::at(rank * 8 + file),
            sq.index() == rank * 8 + file,
            sq.file() == file,
            sq.rank() == rank,
    {
        Self::from_u16_panic((rank * 8 + file) as u16)
    }

    /// Reads a square in algebraic notation: exactly two characters, a file
    /// letter from a to h in either case, then a rank digit from 1 to 8.
    /// Any other text is reported as [`ChessError::InvalidAlgNotation`].
    pub fn from_algebraic(algr: &str) -> (r: Result<Self, ChessError>)
        ensures
            result_view(r) == parse_square(algr@),
    {
        if algr.unicode_len() != 2 {
            return Err(ChessError::InvalidAlgNotation { msg: String::from_str(algr) });
        }
        match (file_from_char(algr.get_char(0)), rank_from_char(algr.get_char(1))) {
            (Some(file), Some(rank)) => Ok(Self::from_file_rank(file, rank)),
            _ => {
                let mut msg = String::from_str("Invalid rank/file: ");
                msg.append(algr);
                Err(ChessError::InvalidAlgNotation { msg })
            },
        }
    }

    /// Writes the square in algebraic notation, in lower case.
    pub fn to_algebraic(&self) -> (s: String)
        ensures
            s@ == self.algebraic(),
    {
        let n = self.to_u8();
        let mut s = String::from_str(file_str(n % 8));
        s.append(digit_str((n / 8 + 1) as u64));
        s
    }
}

impl core::str::FromStr for Square {
    type Err = ChessError;

    /// Reads a square as [`Square::from_algebraic`] does.
    fn from_str(s: &str) -> (r: Result<Self, ChessError>)
        ensures
            result_view(r) == parse_square(s@),
    {
        Self::from_algebraic(s)
    }
}

/// The file that a character names, in either case.
fn file_from_char(c: char) -> (r: Option<usize>)
    ensures
        match r {
            Some(file) => file_of_char(c) == Some(file as int),
            None => file_of_char(c) is None,
        },
{
    match c {
        'a' | 'A' => Some(0),
        'b' | 'B' => Some(1),
        'c' | 'C' => Some(2),
        'd' | 'D' => Some(3),
        'e' | 'E' => Some(4),
        'f' | 'F' => Some(5),
        'g' | 'G' => Some(6),
        'h' | 'H' => Some(7),
        _ => None,
    }
}

/// The rank that a character names.
fn rank_from_char(c: char) -> (r: Option<usize>)
    ensures
        match r {
            Some(rank) => rank_of_char(c) == Some(rank as int),
            None => rank_of_char(c) is None,
        },
{
    match c {
        '1' => Some(0),
        '2' => Some(1),
        '3' => Some(2),
        '4' => Some(3),
        '5' => Some(4),
        '6' => Some(5),
        '7' => Some(6),
        '8' => Some(7),
        _ => None,
    }
}

/// The one-letter text of a file.
fn file_str(file: u8) -> (s: &'static str)
    requires
        file < 8,
    ensures
        s@ == seq![file_char(file as int)],
{
    proof {
        reveal_strlit("a");
        reveal_strlit("b");
        reveal_strlit("c");
        reveal_strlit("d");
        reveal_strlit("e");
        reveal_strlit("f");
        reveal_strlit("g");
        reveal_strlit("h");
    }
    let s = match file {
        0 => "a",
        1 => "b",
        2 => "c",
        3 => "d",
        4 => "e",
        5 => "f",
        6 => "g",
        _ => "h",
    };
    assert(s@ =~= seq![file_char(file as int)]);
    s
}

/// Every square has an index from 0 to 63, and decoding that index gives
/// the square back.
pub proof fn lemma_index_round_trip(s: Square)
    ensures
        0 <= s.index() < 64,
        Square::at(s.index()) == s,
{
    reveal(Square::index);
    reveal(Square::at);
}

/// Every number from 0 to 63 is the index of the square that it decodes
/// to.
pub proof fn lemma_at_index(n: int)
    requires
        0 <= n < 64,
    ensures
        Square::at(n).index() == n,
{
    reveal(Square::index);
    reveal(Square::at);
}

/// Reading the algebraic notation of a square gives the square back.
pub proof fn lemma_algebraic_round_trip(s: Square)
    ensures
        parse_square(s.algebraic()) == Ok::<Square, ChessErrorView>(s),
{
    lemma_index_round_trip(s);
}

} // verus!
