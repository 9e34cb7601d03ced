//! A chess position: twelve bitboards, one for each colour and kind of
//! piece, with the side to move, the castling rights, the en-passant
//! target and the two move counters.

use vstd::prelude::*;
use vstd::string::*;
use crate::bitboard::{Bitboard, toggled};
use crate::bits::lemma_low_bits;
use crate::error::ChessErrorView;
use crate::fen::parse_fen;
use crate::grid::{grid_rows, grid_text, row_cells};
use crate::text::{decimal, push_decimal};
use crate::moves::{Move, origin_of, target_of};
use crate::opening::lemma_opening_notation;
use crate::square::{Square, lemma_index_round_trip};

verus! {

/// The opening position in Forsyth-Edwards Notation.
pub const FEN_STARTPOS: &'static str = "rnbqkbnr/pppppppp/8/8/8/8/PPPPPPPP/RNBQKBNR w KQkq - 0 1";

pub const WHITE_KING: usize = 0;

pub const WHITE_QUEEN: usize = 1;

pub const WHITE_ROOK: usize = 2;

pub const WHITE_BISHOP: usize = 3;

pub const WHITE_KNIGHT: usize = 4;

pub const WHITE_PAWN: usize = 5;

pub const BLACK_KING: usize = 6;

pub const BLACK_QUEEN: usize = 7;

pub const BLACK_ROOK: usize = 8;

pub const BLACK_BISHOP: usize = 9;

pub const BLACK_KNIGHT: usize = 10;

pub const BLACK_PAWN: usize = 11;

pub const WHITE: usize = 0;

pub const BLACK: usize = 1;

/// A position. The type keeps no rule of chess: that a square holds at
/// most one piece is up to whoever fills the bitboards.
pub struct Board {
    /// The squares of each colour and kind of piece: White's at 0 to 5,
    /// Black's at 6 to 11, each in the order king, queen, rook, bishop,
    /// knight, pawn.
    pub bitboards: [Bitboard; 12],
    /// [`WHITE`] or [`BLACK`].
    pub side_to_move: usize,
    /// Bit 0: White may castle king-side. Bit 1: White, queen-side.
    /// Bit 2: Black, king-side. Bit 3: Black, queen-side.
    pub castling_rights: u8,
    /// The square that a pawn may capture onto in passing, if any.
    pub en_passant: Option<Square>,
    /// Half-moves since the last capture or pawn move.
    pub halfmove_clock: u32,
    /// The number of the full move, starting at 1.
    pub fullmove_counter: u32,
    /// The moves applied so far.
    pub move_stack: Vec<Move>,
}

/// A position as plain values: the pieces as twelve sets of squares and
/// the history as the packed words of its moves.
pub struct BoardView {
    pub pieces: Seq<Set<Square>>,
    pub side_to_move: usize,
    pub castling_rights: u8,
    pub en_passant: Option<Square>,
    pub halfmove_clock: u32,
    pub fullmove_counter: u32,
    pub move_stack: Seq<u16>,
}

/// Whether no square belongs to two of the sets.
pub open spec fn no_square_twice(pieces: Seq<Set<Square>>) -> bool {
    forall|i: int, j: int, s: Square|
        0 <= i < j < pieces.len() ==> !(#[trigger] pieces[i].contains(s)
            && #[trigger] pieces[j].contains(s))
}

impl BoardView {
    /// Whether the position could stand on a board: twelve sets of
    /// pieces, no square with two pieces, a side that is White or Black,
    /// and no castling right beyond the four.
    pub open spec fn consistent(self) -> bool {
        &&& self.pieces.len() == 12
        &&& no_square_twice(self.pieces)
        &&& (self.side_to_move == WHITE || self.side_to_move == BLACK)
        &&& self.castling_rights < 16
    }
}

/// The sets of squares that twelve bitboards hold.
pub open spec fn piece_sets(bitboards: [Bitboard; 12]) -> Seq<Set<Square>> {
    Seq::new(12, |i: int| bitboards[i]@)
}

/// Twelve sets that hold no square.
pub open spec fn no_pieces() -> Seq<Set<Square>> {
    Seq::new(12, |i: int| Set::<Square>::empty())
}

/// The pieces after the piece on `from` has been lifted and put on `to`
/// with nothing else considered: every set that holds `from` has `from`
/// and `to` toggled, and the other sets stay as they are.
pub open spec fn moved_pieces(pieces: Seq<Set<Square>>, from: Square, to: Square) -> Seq<
    Set<Square>,
> {
    Seq::new(
        pieces.len(),
        |i: int|
            if pieces[i].contains(from) {
                toggled(pieces[i], set![from, to])
            } else {
                pieces[i]
            },
    )
}

/// The squares of rank `rank`.
pub open spec fn rank_squares(rank: int) -> Set<Square> {
    Set::new(|s: Square| s.rank() == rank)
}

/// The opening position.
pub open spec fn start_position() -> BoardView {
    BoardView {
        pieces: seq![
            set![Square::E1],
            set![Square::D1],
            set![Square::A1, Square::H1],
            set![Square::C1, Square::F1],
            set![Square::B1, Square::G1],
            rank_squares(1),
            set![Square::E8],
            set![Square::D8],
            set![Square::A8, Square::H8],
            set![Square::C8, Square::F8],
            set![Square::B8, Square::G8],
            rank_squares(6),
        ],
        side_to_move: WHITE,
        castling_rights: 15,
        en_passant: None,
        halfmove_clock: 0,
        fullmove_counter: 1,
        move_stack: Seq::<u16>::empty(),
    }
}

/// The bitboard of two squares.
fn two_squares(a: Square, b: Square) -> (bb: Bitboard)
    ensures
        bb@ == set![a, b],
{
    let bb = Bitboard::from_square(a).union(Bitboard::from_square(b));
    assert(bb@ =~= set![a, b]);
    bb
}

/// The bitboard of a whole rank.
fn whole_rank(rank: usize) -> (bb: Bitboard)
    requires
        rank < 8,
    ensures
        bb@ == rank_squares(rank as int),
{
    let mut bb = Bitboard::empty();
    let mut file: usize = 0;
    while file < 8
        invariant
            file <= 8,
            rank < 8,
            bb@ == Set::new(|s: Square| s.rank() == rank && s.file() < file),
        decreases 8 - file,
    {
        let square = Square::from_file_rank(file, rank);
        let ghost before = bb@;
        bb.set(square);
        proof {
            assert forall|s: Square|
                bb@.contains(s) == (s.rank() == rank && s.file() < file + 1) by {
                lemma_index_round_trip(s);
                if s.rank() == rank && s.file() == file {
                    assert(s.index() == square.index());
                }
            }
            assert(bb@ =~= Set::new(|s: Square| s.rank() == rank && s.file() < file + 1));
        }
        file = file + 1;
    }
    proof {
        assert forall|s: Square| bb@.contains(s) == (s.rank() == rank) by {
            lemma_index_round_trip(s);
        }
        assert(bb@ =~= rank_squares(rank as int));
    }
    bb
}

/// The letter of the piece kept in bitboard `piece`: upper case for
/// White, lower case for Black.
pub open spec fn piece_char(piece: int) -> char {
    if piece == 0 {
        'K'
    } else if piece == 1 {
        'Q'
    } else if piece == 2 {
        'R'
    } else if piece == 3 {
        'B'
    } else if piece == 4 {
        'N'
    } else if piece == 5 {
        'P'
    } else if piece == 6 {
        'k'
    } else if piece == 7 {
        'q'
    } else if piece == 8 {
        'r'
    } else if piece == 9 {
        'b'
    } else if piece == 10 {
        'n'
    } else {
        'p'
    }
}

/// The letter of the first of the sets from `first` on that holds
/// `square`, or `-` if none of them does.
pub open spec fn cell_from(pieces: Seq<Set<Square>>, square: Square, first: int) -> char
    decreases pieces.len() - first,
{
    if first < 0 || first >= pieces.len() {
        '-'
    } else if pieces[first].contains(square) {
        piece_char(first)
    } else {
        cell_from(pieces, square, first + 1)
    }
}

/// The cell that shows what stands on a square: the letter of the first
/// set that holds the square, or `-` for an empty square.
pub open spec fn piece_cell(pieces: Seq<Set<Square>>) -> spec_fn(Square) -> char {
    |s: Square| cell_from(pieces, s, 0)
}

/// The letters of the castling rights that are set, in the order of
/// their bits: `K`, `Q`, `k`, `q`.
pub open spec fn castling_text(rights: u8) -> Seq<char> {
    (if rights % 2 == 1 {
        seq!['K']
    } else {
        Seq::<char>::empty()
    }) + (if (rights / 2) % 2 == 1 {
        seq!['Q']
    } else {
        Seq::<char>::empty()
    }) + (if (rights / 4) % 2 == 1 {
        seq!['k']
    } else {
        Seq::<char>::empty()
    }) + (if (rights / 8) % 2 == 1 {
        seq!['q']
    } else {
        Seq::<char>::empty()
    })
}

/// What the picture of a position appends to the row of rank `rank`:
/// the side to move on the eighth rank, then the castling rights, the
/// en-passant target and the two counters on the ranks below it.
pub open spec fn annotation(board: BoardView) -> spec_fn(int) -> Seq<char> {
    |rank: int|
        if rank == 7 {
            " | Next move: "@ + (if board.side_to_move == WHITE {
                "White"@
            } else if board.side_to_move == BLACK {
                "Black"@
            } else {
                "?"@
            })
        } else if rank == 6 {
            " | Castling rights: "@ + castling_text(board.castling_rights)
        } else if rank == 5 {
            " | En passant: "@ + (match board.en_passant {
                Some(square) => square.algebraic(),
                None => "-"@,
            })
        } else if rank == 4 {
            " | Halfmove clock: "@ + decimal(board.halfmove_clock as nat)
        } else if rank == 3 {
            " | Fullmove counter: "@ + decimal(board.fullmove_counter as nat)
        } else {
            Seq::<char>::empty()
        }
}

/// The one-letter text of the piece kept in bitboard `piece`.
fn piece_str(piece: usize) -> (s: &'static str)
    requires
        piece < 12,
    ensures
        s@ == seq![piece_char(piece as int)],
{
    proof {
        reveal_strlit("K");
        reveal_strlit("Q");
        reveal_strlit("R");
        reveal_strlit("B");
        reveal_strlit("N");
        reveal_strlit("P");
        reveal_strlit("k");
        reveal_strlit("q");
        reveal_strlit("r");
        reveal_strlit("b");
        reveal_strlit("n");
        reveal_strlit("p");
    }
    let s = match piece {
        0 => "K",
        1 => "Q",
        2 => "R",
        3 => "B",
        4 => "N",
        5 => "P",
        6 => "k",
        7 => "q",
        8 => "r",
        9 => "b",
        10 => "n",
        _ => "p",
    };
    assert(s@ =~= seq![piece_char(piece as int)]);
    s
}

impl View for Board {
    type V = BoardView;

    open spec fn view(&self) -> BoardView {
        BoardView {
            pieces: piece_sets(self.bitboards),
            side_to_move: self.side_to_move,
            castling_rights: self.castling_rights,
            en_passant: self.en_passant,
            halfmove_clock: self.halfmove_clock,
            fullmove_counter: self.fullmove_counter,
            move_stack: self.move_stack@.map_values(|mv: Move| mv.raw()),
        }
    }
}

impl Board {
    /// The opening position: the one that [`FEN_STARTPOS`] denotes.
    pub fn startpos() -> (board: Board)
        ensures
            board@ == start_position(),
            board@.consistent(),
            parse_fen(FEN_STARTPOS@) == Ok::<BoardView, ChessErrorView>(board@),
    {
        proof {
            lemma_start_position_consistent();
            lemma_opening_notation();
        }
        let bitboards = [
            Bitboard::from_square(Square::E1),
            Bitboard::from_square(Square::D1),
            two_squares(Square::A1, Square::H1),
            two_squares(Square::C1, Square::F1),
            two_squares(Square::B1, Square::G1),
            whole_rank(1),
            Bitboard::from_square(Square::E8),
            Bitboard::from_square(Square::D8),
            two_squares(Square::A8, Square::H8),
            two_squares(Square::C8, Square::F8),
            two_squares(Square::B8, Square::G8),
            whole_rank(6),
        ];
        let board = Board {
            bitboards,
            side_to_move: WHITE,
            castling_rights: 15,
            en_passant: None,
            halfmove_clock: 0,
            fullmove_counter: 1,
            move_stack: Vec::new(),
        };
        proof {
            assert(board@.pieces =~= start_position().pieces);
            assert(board@.move_stack =~= Seq::<u16>::empty());
        }
        board
    }

    /// The one-character text of what stands on `square`.
    fn cell_str(&self, square: Square) -> (s: &'static str)
        ensures
            s@ == seq![piece_cell(self@.pieces)(square)],
    {
        let ghost pieces = self@.pieces;
        let mut piece: usize = 0;
        while piece < 12
            invariant
                piece <= 12,
                pieces == piece_sets(self.bitboards),
                cell_from(pieces, square, piece as int) == cell_from(pieces, square, 0),
            decreases 12 - piece,
        {
            if self.bitboards[piece].is_occ(square) {
                return piece_str(piece);
            }
            piece = piece + 1;
        }
        proof {
            reveal_strlit("-");
            assert("-"@ =~= seq!['-']);
        }
        "-"
    }

    /// Appends to `out` what the picture shows beside the row of rank
    /// `rank`.
    fn push_annotation(&self, out: &mut String, rank: usize)
        ensures
            final(out)@ == old(out)@ + annotation(self@)(rank as int),
    {
        if rank == 7 {
            out.append(" | Next move: ");
            out.append(
                if self.side_to_move == WHITE {
                    "White"
                } else if self.side_to_move == BLACK {
                    "Black"
                } else {
                    "?"
                },
            );
        } else if rank == 6 {
            out.append(" | Castling rights: ");
            let rights = self.castling_rights;
            let ghost before = out@;
            proof {
                lemma_low_bits(rights);
                reveal_strlit("K");
                reveal_strlit("Q");
                reveal_strlit("k");
                reveal_strlit("q");
            }
            if rights & 1 != 0 {
                out.append("K");
            }
            if rights & 2 != 0 {
                out.append("Q");
            }
            if rights & 4 != 0 {
                out.append("k");
            }
            if rights & 8 != 0 {
                out.append("q");
            }
            assert(out@ =~= before + castling_text(rights));
        } else if rank == 5 {
            out.append(" | En passant: ");
            match self.en_passant {
                Some(square) => {
                    out.append(square.to_algebraic().as_str());
                },
                None => {
                    out.append("-");
                },
            }
        } else if rank == 4 {
            out.append(" | Halfmove clock: ");
            push_decimal(out, self.halfmove_clock as u64);
        } else if rank == 3 {
            out.append(" | Fullmove counter: ");
            push_decimal(out, self.fullmove_counter as u64);
        }
        assert(out@ =~= old(out)@ + annotation(self@)(rank as int));
    }

    /// The picture of the position: eight rows from rank 8 down to rank
    /// 1, each of eight cells with a space between them, a cell being
    /// the letter of the piece on its square or `-`; beside the rows of
    /// ranks 8 to 4 stand the side to move, the castling rights, the
    /// en-passant target and the two counters.
    pub fn to_string(&self) -> (s: String)
        ensures
            s@ == grid_text(piece_cell(self@.pieces), annotation(self@)),
    {
        let mut out = String::new();
        let mut k: usize = 0;
        while k < 8
            invariant
                k <= 8,
                out@ == grid_rows(piece_cell(self@.pieces), annotation(self@), k as int),
            decreases 8 - k,
        {
            let rank = 7 - k;
            let ghost before = out@;
            let mut file: usize = 0;
            while file < 8
                invariant
                    file <= 8,
                    rank < 8,
                    out@ == before + row_cells(
                        piece_cell(self@.pieces),
                        rank as int,
                        file as int,
                    ),
                decreases 8 - file,
            {
                if file != 0 {
                    out.append(" ");
                }
                out.append(self.cell_str(Square::from_file_rank(file, rank)));
                proof {
                    reveal_strlit(" ");
                    assert(out@ =~= before + row_cells(
                        piece_cell(self@.pieces),
                        rank as int,
                        file as int + 1,
                    ));
                }
                file = file + 1;
            }
            self.push_annotation(&mut out, rank);
            if rank != 0 {
                out.append("\n");
            }
            proof {
                reveal_strlit("\n");
                assert(out@ =~= grid_rows(
                    piece_cell(self@.pieces),
                    annotation(self@),
                    k as int + 1,
                ));
            }
            k = k + 1;
        }
        out
    }

    /// Moves whatever stands on the origin of `mv` to its target, and
    /// does nothing else: a piece on the target stays where it is, no
    /// rook follows a castling king, no pawn is taken in passing, and
    /// the rights, the counters and the history are left alone.
    pub fn make_move(&mut self, mv: Move)
        ensures
            final(self)@ == (BoardView {
                pieces: moved_pieces(
                    old(self)@.pieces,
                    Square::at(origin_of(mv.raw())),
                    Square::at(target_of(mv.raw())),
                ),
                ..old(self)@
            }),
    {
        let from = mv.from_panic();
        let to = mv.to_panic();
        let toggle_mask = Bitboard::from_square(from).union(Bitboard::from_square(to));
        let ghost before = self.bitboards;
        assert(toggle_mask@ =~= set![from, to]);
        let mut i: usize = 0;
        while i < 12
            invariant
                i <= 12,
                toggle_mask@ == set![from, to],
                forall|k: int|
                    0 <= k < i ==> (#[trigger] self.bitboards[k])@ == moved_pieces(
                        piece_sets(before),
                        from,
                        to,
                    )[k],
                forall|k: int| i <= k < 12 ==> #[trigger] self.bitboards[k] == before[k],
                self.side_to_move == old(self).side_to_move,
                self.castling_rights == old(self).castling_rights,
                self.en_passant == old(self).en_passant,
                self.halfmove_clock == old(self).halfmove_clock,
                self.fullmove_counter == old(self).fullmove_counter,
                self.move_stack == old(self).move_stack,
            decreases 12 - i,
        {
            let mut bb = self.bitboards[i];
            if bb.is_occ(from) {
                bb.xor_assign(toggle_mask);
                self.bitboards[i] = bb;
            }
            i = i + 1;
        }
        assert(piece_sets(self.bitboards) =~= moved_pieces(piece_sets(before), from, to));
    }
}

/// In the opening position no square holds two pieces.
pub proof fn lemma_start_position_consistent()
    ensures
        start_position().consistent(),
{
    reveal(Square::index);
    let pieces = start_position().pieces;
    assert forall|i: int, j: int, s: Square| 0 <= i < j < pieces.len() implies !(
    #[trigger] pieces[i].contains(s) && #[trigger] pieces[j].contains(s)) by {
        if pieces[i].contains(s) {
            assert(s.rank() == (if i == 5 {
                1int
            } else if i == 11 {
                6int
            } else if i < 5 {
                0int
            } else {
                7int
            }));
        }
    }
}

/// When exactly one set holds the origin, the origin and the target
/// differ and no set holds the target, the move puts the target in the
/// place of the origin in that set and leaves every other set as it was.
/// If no square held two pieces before the move, none does after it.
pub proof fn lemma_move_to_free_square(
    pieces: Seq<Set<Square>>,
    from: Square,
    to: Square,
    piece: int,
)
    requires
        0 <= piece < pieces.len(),
        from != to,
        forall|i: int| 0 <= i < pieces.len() ==> (pieces[i].contains(from) <==> i == piece),
        forall|i: int| 0 <= i < pieces.len() ==> !pieces[i].contains(to),
    ensures
        moved_pieces(pieces, from, to) == pieces.update(
            piece,
            pieces[piece].remove(from).insert(to),
        ),
        no_square_twice(pieces) ==> no_square_twice(moved_pieces(pieces, from, to)),
{
    assert(toggled(pieces[piece], set![from, to]) =~= pieces[piece].remove(from).insert(to));
    assert(moved_pieces(pieces, from, to) =~= pieces.update(
        piece,
        pieces[piece].remove(from).insert(to),
    ));
}

} // verus!
