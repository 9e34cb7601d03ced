//! Reading a position from Forsyth-Edwards Notation: six fields separated
//! by spaces, for the placement of the pieces, the side to move, the
//! castling rights, the en-passant target and the two move counters.

use vstd::prelude::*;
use vstd::string::*;
use crate::bitboard::Bitboard;
use crate::board::{BLACK, Board, BoardView, WHITE, no_pieces, no_square_twice, piece_sets};
use crate::error::{ChessError, ChessErrorView, result_view};
use crate::square::{Square, lemma_at_index, parse_square};
use crate::text::{
    chars_of, decimal, digit_of, digit_value, find_fields, find_parts, parse_u32, push_decimal,
    range_texts, ranges_within, read_u32, split_fields, split_on,
};

verus! {

/// The bitboard that a piece letter stands for: upper case for White,
/// lower case for Black.
pub open spec fn piece_of_char(c: char) -> Option<int> {
    if c == 'K' {
        Some(0)
    } else if c == 'Q' {
        Some(1)
    } else if c == 'R' {
        Some(2)
    } else if c == 'B' {
        Some(3)
    } else if c == 'N' {
        Some(4)
    } else if c == 'P' {
        Some(5)
    } else if c == 'k' {
        Some(6)
    } else if c == 'q' {
        Some(7)
    } else if c == 'r' {
        Some(8)
    } else if c == 'b' {
        Some(9)
    } else if c == 'n' {
        Some(10)
    } else if c == 'p' {
        Some(11)
    } else {
        None
    }
}

/// The pieces after the characters of one rank have been read from
/// position `i` on, with the file cursor at `file`. A digit moves the
/// cursor on by its value and may not move it past the eighth file; a
/// piece letter puts its piece on the cursor's square and moves the
/// cursor on by one; any other character is a failure. Once the cursor
/// is past the eighth file, what is left of the rank is not read.
pub open spec fn place_rank_from(
    rank_text: Seq<char>,
    rank: int,
    i: int,
    file: int,
    pieces: Seq<Set<Square>>,
) -> Result<Seq<Set<Square>>, ChessErrorView>
    decreases rank_text.len() - i,
{
    if i < 0 || i >= rank_text.len() || file > 7 {
        Ok(pieces)
    } else {
        match digit_value(rank_text[i]) {
            Some(d) => if file + d > 8 {
                Err(ChessErrorView::InvalidFen { msg: "Empty squares exceed board: "@ + rank_text })
            } else {
                place_rank_from(rank_text, rank, i + 1, file + d, pieces)
            },
            None => match piece_of_char(rank_text[i]) {
                Some(p) => place_rank_from(
                    rank_text,
                    rank,
                    i + 1,
                    file + 1,
                    pieces.update(p, pieces[p].insert(Square::at(rank * 8 + file))),
                ),
                None => Err(
                    ChessErrorView::InvalidFen { msg: "Invalid piece: "@ + seq![rank_text[i]] },
                ),
            },
        }
    }
}

/// The pieces after the first `n` ranks of a placement have been read,
/// from the eighth rank down.
pub open spec fn place_ranks(ranks: Seq<Seq<char>>, n: int) -> Result<
    Seq<Set<Square>>,
    ChessErrorView,
>
    decreases n,
{
    if n <= 0 {
        Ok(no_pieces())
    } else {
        match place_ranks(ranks, n - 1) {
            Err(e) => Err(e),
            Ok(pieces) => place_rank_from(ranks[n - 1], 8 - n, 0, 0, pieces),
        }
    }
}

/// The pieces that a placement field denotes. The field is cut at each
/// `/` into ranks, of which there must be at least eight; the first eight
/// are read, from the eighth rank down to the first.
pub open spec fn parse_placement(field: Seq<char>) -> Result<Seq<Set<Square>>, ChessErrorView> {
    let ranks = split_on(field, '/');
    if ranks.len() < 8 {
        Err(
            ChessErrorView::InvalidFen {
                msg: "Invalid number of ranks ("@ + decimal(ranks.len()) + ")"@,
            },
        )
    } else {
        place_ranks(ranks, 8)
    }
}

/// A failure in an earlier rank is the failure of the whole placement.
proof fn lemma_place_ranks_failure(ranks: Seq<Seq<char>>, k: int, n: int)
    requires
        0 <= k <= n,
        place_ranks(ranks, k) is Err,
    ensures
        place_ranks(ranks, n) == place_ranks(ranks, k),
    decreases n - k,
{
    if k < n {
        lemma_place_ranks_failure(ranks, k, n - 1);
    }
}

/// The bitboard that a piece letter stands for.
fn piece_from_char(c: char) -> (r: Option<usize>)
    ensures
        match r {
            Some(p) => p < 12 && piece_of_char(c) == Some(p as int),
            None => piece_of_char(c) is None,
        },
{
    match c {
        'K' => Some(0),
        'Q' => Some(1),
        'R' => Some(2),
        'B' => Some(3),
        'N' => Some(4),
        'P' => Some(5),
        'k' => Some(6),
        'q' => Some(7),
        'r' => Some(8),
        'b' => Some(9),
        'n' => Some(10),
        'p' => Some(11),
        _ => None,
    }
}

/// Reads one rank of a placement, the characters of `fen` from `start` up
/// to `end`, into `bitboards`.
fn read_rank(
    fen: &str,
    chars: &Vec<char>,
    start: usize,
    end: usize,
    rank: usize,
    bitboards: [Bitboard; 12],
) -> (r: Result<[Bitboard; 12], ChessError>)
    requires
        fen@ == chars@,
        start <= end <= chars.len(),
        rank < 8,
    ensures
        match r {
            Ok(filled) => place_rank_from(
                chars@.subrange(start as int, end as int),
                rank as int,
                0,
                0,
                piece_sets(bitboards),
            ) == Ok::<Seq<Set<Square>>, ChessErrorView>(piece_sets(filled)),
            Err(e) => place_rank_from(
                chars@.subrange(start as int, end as int),
                rank as int,
                0,
                0,
                piece_sets(bitboards),
            ) == Err::<Seq<Set<Square>>, ChessErrorView>(e@),
        },
{
    let ghost text = chars@.subrange(start as int, end as int);
    let ghost whole = place_rank_from(text, rank as int, 0, 0, piece_sets(bitboards));
    let mut filled = bitboards;
    let mut file: usize = 0;
    let mut i: usize = start;
    while i < end && file <= 7
        invariant
            fen@ == chars@,
            start <= i <= end <= chars.len(),
            rank < 8,
            file <= 8,
            text == chars@.subrange(start as int, end as int),
            whole == place_rank_from(text, rank as int, 0, 0, piece_sets(bitboards)),
            place_rank_from(text, rank as int, i - start, file as int, piece_sets(filled))
                == whole,
        decreases end - i,
    {
        let c = chars[i];
        assert(text[i - start] == c);
        match digit_of(c) {
            Some(d) => {
                if file + d as usize > 8 {
                    let mut msg = String::from_str("Empty squares exceed board: ");
                    msg.append(fen.substring_char(start, end));
                    return Err(ChessError::InvalidFen { msg });
                }
                file = file + d as usize;
            },
            None => {
                match piece_from_char(c) {
                    Some(p) => {
                        let ghost before = piece_sets(filled);
                        let square = Square::from_file_rank(file, rank);
                        let mut bb = filled[p];
                        bb.set(square);
                        filled[p] = bb;
                        assert(piece_sets(filled) =~= before.update(
                            p as int,
                            before[p as int].insert(square),
                        ));
                        file = file + 1;
                    },
                    None => {
                        let mut msg = String::from_str("Invalid piece: ");
                        msg.append(fen.substring_char(i, i + 1));
                        assert(fen@.subrange(i as int, i + 1) =~= seq![c]);
                        return Err(ChessError::InvalidFen { msg });
                    },
                }
            },
        }
        i = i + 1;
    }
    Ok(filled)
}

/// Reads the placement field, the characters of `fen` from `start` up to
/// `end`.
fn read_placement(fen: &str, chars: &Vec<char>, start: usize, end: usize) -> (r: Result<
    [Bitboard; 12],
    ChessError,
>)
    requires
        fen@ == chars@,
        start <= end <= chars.len(),
    ensures
        match r {
            Ok(filled) => parse_placement(chars@.subrange(start as int, end as int)) == Ok::<
                Seq<Set<Square>>,
                ChessErrorView,
            >(piece_sets(filled)),
            Err(e) => parse_placement(chars@.subrange(start as int, end as int)) == Err::<
                Seq<Set<Square>>,
                ChessErrorView,
            >(e@),
        },
{
    let ranks = find_parts(chars, start, end, '/');
    let ghost texts = range_texts(chars@, ranks@);
    if ranks.len() < 8 {
        let mut msg = String::from_str("Invalid number of ranks (");
        push_decimal(&mut msg, ranks.len() as u64);
        msg.append(")");
        return Err(ChessError::InvalidFen { msg });
    }
    let empty = Bitboard::empty();
    let mut filled = [
        empty,
        empty,
        empty,
        empty,
        empty,
        empty,
        empty,
        empty,
        empty,
        empty,
        empty,
        empty,
    ];
    assert(piece_sets(filled) =~= no_pieces());
    let mut k: usize = 0;
    while k < 8
        invariant
            fen@ == chars@,
            k <= 8 <= ranks.len(),
            ranges_within(ranks@, chars@.len() as int),
            texts == range_texts(chars@, ranks@),
            texts == split_on(chars@.subrange(start as int, end as int), '/'),
            place_ranks(texts, k as int) == Ok::<Seq<Set<Square>>, ChessErrorView>(
                piece_sets(filled),
            ),
        decreases 8 - k,
    {
        let (rank_start, rank_end) = ranks[k];
        assert(texts[k as int] == chars@.subrange(rank_start as int, rank_end as int));
        match read_rank(fen, chars, rank_start, rank_end, 7 - k, filled) {
            Ok(next) => {
                filled = next;
            },
            Err(e) => {
                proof {
                    lemma_place_ranks_failure(texts, k + 1, 8);
                }
                return Err(e);
            },
        }
        k = k + 1;
    }
    Ok(filled)
}

/// The side that a side-to-move field names: `w` for White, `b` for
/// Black.
pub open spec fn parse_side(field: Seq<char>) -> Result<usize, ChessErrorView> {
    if field == seq!['w'] {
        Ok(WHITE)
    } else if field == seq!['b'] {
        Ok(BLACK)
    } else {
        Err(ChessErrorView::InvalidFen { msg: "Invalid side to move: "@ + field })
    }
}

/// Whether `c` names a castling right: `K` and `Q` for White's king side
/// and queen side, `k` and `q` for Black's.
pub open spec fn is_castling_char(c: char) -> bool {
    c == 'K' || c == 'Q' || c == 'k' || c == 'q'
}

/// The rights that the characters of a field name, whatever their order
/// and however often each occurs.
pub open spec fn castling_mask(field: Seq<char>) -> u8 {
    ((if field.contains('K') {
        1int
    } else {
        0
    }) + (if field.contains('Q') {
        2int
    } else {
        0
    }) + (if field.contains('k') {
        4int
    } else {
        0
    }) + (if field.contains('q') {
        8int
    } else {
        0
    })) as u8
}

/// The rights that a castling field denotes: none for `-`, else those
/// that its characters name; a field with any other character is a
/// failure.
pub open spec fn parse_castling(field: Seq<char>) -> Result<u8, ChessErrorView> {
    if field == seq!['-'] {
        Ok(0u8)
    } else if forall|i: int| 0 <= i < field.len() ==> is_castling_char(#[trigger] field[i]) {
        Ok(castling_mask(field))
    } else {
        Err(ChessErrorView::InvalidFen { msg: "Invalid castling rights: "@ + field })
    }
}

/// The target that an en-passant field denotes: none for `-`, else the
/// square that the field names.
pub open spec fn parse_en_passant(field: Seq<char>) -> Result<Option<Square>, ChessErrorView> {
    if field == seq!['-'] {
        Ok(None)
    } else {
        match parse_square(field) {
            Ok(square) => Ok(Some(square)),
            Err(e) => Err(e),
        }
    }
}

/// The number that a counter field denotes; `name` says in the failure
/// which counter it was.
pub open spec fn parse_counter(field: Seq<char>, name: Seq<char>) -> Result<u32, ChessErrorView> {
    match parse_u32(field) {
        Some(n) => Ok(n),
        None => Err(ChessErrorView::InvalidFen { msg: "Invalid "@ + name + ": "@ + field }),
    }
}

/// The position that a text in Forsyth-Edwards Notation denotes. The text
/// must have exactly six fields. They are read in order, and the first
/// that is malformed gives the failure.
pub open spec fn parse_fen(fen: Seq<char>) -> Result<BoardView, ChessErrorView> {
    let fields = split_fields(fen);
    if fields.len() != 6 {
        Err(
            ChessErrorView::InvalidFen {
                msg: "Invalid number of fields ("@ + decimal(fields.len()) + ")"@,
            },
        )
    } else {
        match parse_placement(fields[0]) {
            Err(e) => Err(e),
            Ok(pieces) => match parse_side(fields[1]) {
                Err(e) => Err(e),
                Ok(side_to_move) => match parse_castling(fields[2]) {
                    Err(e) => Err(e),
                    Ok(castling_rights) => match parse_en_passant(fields[3]) {
                        Err(e) => Err(e),
                        Ok(en_passant) => match parse_counter(fields[4], "halfmove clock"@) {
                            Err(e) => Err(e),
                            Ok(halfmove_clock) => match parse_counter(
                                fields[5],
                                "fullmove counter"@,
                            ) {
                                Err(e) => Err(e),
                                Ok(fullmove_counter) => Ok(
                                    BoardView {
                                        pieces,
                                        side_to_move,
                                        castling_rights,
                                        en_passant,
                                        halfmove_clock,
                                        fullmove_counter,
                                        move_stack: Seq::<u16>::empty(),
                                    },
                                ),
                            },
                        },
                    },
                },
            },
        }
    }
}

/// Whether the characters from `start` up to `end` are the one character
/// `c`.
fn is_single(chars: &Vec<char>, start: usize, end: usize, c: char) -> (b: bool)
    requires
        start <= end <= chars.len(),
    ensures
        b == (chars@.subrange(start as int, end as int) == seq![c]),
{
    let ghost text = chars@.subrange(start as int, end as int);
    if end - start == 1 && chars[start] == c {
        assert(text =~= seq![c]);
        true
    } else {
        assert(text.len() == 1 ==> text[0] == chars@[start as int]);
        assert(seq![c].len() == 1 && seq![c][0] == c);
        false
    }
}

/// Reads the side-to-move field.
fn read_side(fen: &str, chars: &Vec<char>, start: usize, end: usize) -> (r: Result<
    usize,
    ChessError,
>)
    requires
        fen@ == chars@,
        start <= end <= chars.len(),
    ensures
        result_view(r) == parse_side(chars@.subrange(start as int, end as int)),
{
    if is_single(chars, start, end, 'w') {
        Ok(WHITE)
    } else if is_single(chars, start, end, 'b') {
        Ok(BLACK)
    } else {
        let mut msg = String::from_str("Invalid side to move: ");
        msg.append(fen.substring_char(start, end));
        Err(ChessError::InvalidFen { msg })
    }
}

/// Reads the castling field.
fn read_castling(fen: &str, chars: &Vec<char>, start: usize, end: usize) -> (r: Result<
    u8,
    ChessError,
>)
    requires
        fen@ == chars@,
        start <= end <= chars.len(),
    ensures
        result_view(r) == parse_castling(chars@.subrange(start as int, end as int)),
{
    let ghost field = chars@.subrange(start as int, end as int);
    if is_single(chars, start, end, '-') {
        return Ok(0);
    }
    let mut white_king = false;
    let mut white_queen = false;
    let mut black_king = false;
    let mut black_queen = false;
    let mut i: usize = start;
    while i < end
        invariant
            fen@ == chars@,
            start <= i <= end <= chars.len(),
            field == chars@.subrange(start as int, end as int),
            field != seq!['-'],
            forall|j: int| 0 <= j < i - start ==> is_castling_char(#[trigger] field[j]),
            white_king == field.take(i - start).contains('K'),
            white_queen == field.take(i - start).contains('Q'),
            black_king == field.take(i - start).contains('k'),
            black_queen == field.take(i - start).contains('q'),
        decreases end - i,
    {
        let c = chars[i];
        let ghost k = i - start;
        proof {
            assert(field[k] == c);
            assert(field.take(k + 1) =~= field.take(k).push(c));
            assert forall|x: char|
                field.take(k + 1).contains(x) == (field.take(k).contains(x) || x == c) by {
                if field.take(k).contains(x) {
                    let j = choose|j: int| 0 <= j < k && field.take(k)[j] == x;
                    assert(field.take(k + 1)[j] == x);
                }
                if x == c {
                    assert(field.take(k + 1)[k] == x);
                }
            }
        }
        match c {
            'K' => {
                white_king = true;
            },
            'Q' => {
                white_queen = true;
            },
            'k' => {
                black_king = true;
            },
            'q' => {
                black_queen = true;
            },
            _ => {
                let mut msg = String::from_str("Invalid castling rights: ");
                msg.append(fen.substring_char(start, end));
                assert(!is_castling_char(field[k]));
                return Err(ChessError::InvalidFen { msg });
            },
        }
        i = i + 1;
    }
    proof {
        assert(field.take(i - start) =~= field);
    }
    let mut mask: u8 = 0;
    if white_king {
        mask = mask + 1;
    }
    if white_queen {
        mask = mask + 2;
    }
    if black_king {
        mask = mask + 4;
    }
    if black_queen {
        mask = mask + 8;
    }
    Ok(mask)
}

/// Reads the en-passant field.
fn read_en_passant(fen: &str, chars: &Vec<char>, start: usize, end: usize) -> (r: Result<
    Option<Square>,
    ChessError,
>)
    requires
        fen@ == chars@,
        start <= end <= chars.len(),
    ensures
        result_view(r) == parse_en_passant(chars@.subrange(start as int, end as int)),
{
    if is_single(chars, start, end, '-') {
        return Ok(None);
    }
    match Square::from_algebraic(fen.substring_char(start, end)) {
        Ok(square) => Ok(Some(square)),
        Err(e) => Err(e),
    }
}

/// Reads a counter field; `name` says in the failure which counter it
/// was.
fn read_counter(fen: &str, chars: &Vec<char>, start: usize, end: usize, name: &str) -> (r: Result<
    u32,
    ChessError,
>)
    requires
        fen@ == chars@,
        start <= end <= chars.len(),
    ensures
        result_view(r) == parse_counter(chars@.subrange(start as int, end as int), name@),
{
    match read_u32(chars, start, end) {
        Some(n) => Ok(n),
        None => {
            let mut msg = String::from_str("Invalid ");
            msg.append(name);
            msg.append(": ");
            msg.append(fen.substring_char(start, end));
            Err(ChessError::InvalidFen { msg })
        },
    }
}

impl Board {
    /// Reads a position from Forsyth-Edwards Notation. A malformed
    /// en-passant square is reported as
    /// [`ChessError::InvalidAlgNotation`], anything else that is
    /// malformed as [`ChessError::InvalidFen`]. The history of the
    /// position is empty.
    pub fn from_fen(fen: &str) -> (r: Result<Board, ChessError>)
        ensures
            match r {
                Ok(board) => parse_fen(fen@) == Ok::<BoardView, ChessErrorView>(board@)
                    && board@.consistent(),
                Err(e) => parse_fen(fen@) == Err::<BoardView, ChessErrorView>(e@),
            },
    {
        proof {
            if parse_fen(fen@) is Ok {
                lemma_parsed_position_is_consistent(fen@);
            }
        }
        let chars = chars_of(fen);
        let fields = find_fields(&chars);
        let ghost texts = split_fields(fen@);
        if fields.len() != 6 {
            let mut msg = String::from_str("Invalid number of fields (");
            push_decimal(&mut msg, fields.len() as u64);
            msg.append(")");
            return Err(ChessError::InvalidFen { msg });
        }
        assert(forall|k: int|
            0 <= k < 6 ==> texts[k] == chars@.subrange(
                (#[trigger] fields@[k]).0 as int,
                fields@[k].1 as int,
            ));
        let bitboards = match read_placement(fen, &chars, fields[0].0, fields[0].1) {
            Ok(bitboards) => bitboards,
            Err(e) => {
                return Err(e);
            },
        };
        let side_to_move = match read_side(fen, &chars, fields[1].0, fields[1].1) {
            Ok(side) => side,
            Err(e) => {
                return Err(e);
            },
        };
        let castling_rights = match read_castling(fen, &chars, fields[2].0, fields[2].1) {
            Ok(rights) => rights,
            Err(e) => {
                return Err(e);
            },
        };
        let en_passant = match read_en_passant(fen, &chars, fields[3].0, fields[3].1) {
            Ok(target) => target,
            Err(e) => {
                return Err(e);
            },
        };
        let halfmove_clock = match read_counter(
            fen,
            &chars,
            fields[4].0,
            fields[4].1,
            "halfmove clock",
        ) {
            Ok(n) => n,
            Err(e) => {
                return Err(e);
            },
        };
        let fullmove_counter = match read_counter(
            fen,
            &chars,
            fields[5].0,
            fields[5].1,
            "fullmove counter",
        ) {
            Ok(n) => n,
            Err(e) => {
                return Err(e);
            },
        };
        let board = Board {
            bitboards,
            side_to_move,
            castling_rights,
            en_passant,
            halfmove_clock,
            fullmove_counter,
            move_stack: Vec::new(),
        };
        assert(board@.move_stack =~= Seq::<u16>::empty());
        Ok(board)
    }
}

/// Whether twelve sets hold no square twice and only squares that the
/// file cursor has passed: those of the ranks above `rank`, and those of
/// rank `rank` on files before `file`.
pub open spec fn placed_before(pieces: Seq<Set<Square>>, rank: int, file: int) -> bool {
    &&& pieces.len() == 12
    &&& no_square_twice(pieces)
    &&& forall|i: int, s: Square|
        0 <= i < 12 && #[trigger] pieces[i].contains(s) ==> s.rank() > rank || (s.rank() == rank
            && s.file() < file)
}

/// Reading a rank puts pieces only on squares that the cursor has not
/// passed yet, so no square gets a second piece.
proof fn lemma_place_rank_keeps_squares_apart(
    rank_text: Seq<char>,
    rank: int,
    i: int,
    file: int,
    pieces: Seq<Set<Square>>,
)
    requires
        0 <= rank < 8,
        0 <= file <= 8,
        0 <= i,
        placed_before(pieces, rank, file),
        place_rank_from(rank_text, rank, i, file, pieces) is Ok,
    ensures
        placed_before(place_rank_from(rank_text, rank, i, file, pieces)->Ok_0, rank, 8),
    decreases rank_text.len() - i,
{
    if i >= rank_text.len() || file > 7 {
    } else {
        match digit_value(rank_text[i]) {
            Some(d) => {
                lemma_place_rank_keeps_squares_apart(rank_text, rank, i + 1, file + d, pieces);
            },
            None => {
                let p = piece_of_char(rank_text[i])->Some_0;
                let square = Square::at(rank * 8 + file);
                let next = pieces.update(p, pieces[p].insert(square));
                lemma_at_index(rank * 8 + file);
                assert(square.rank() == rank && square.file() == file);
                assert forall|a: int, b: int, s: Square| 0 <= a < b < next.len() implies !(
                #[trigger] next[a].contains(s) && #[trigger] next[b].contains(s)) by {
                    if next[a].contains(s) && next[b].contains(s) {
                        assert(pieces[a].contains(s) || s == square);
                        assert(pieces[b].contains(s) || s == square);
                    }
                }
                assert forall|a: int, s: Square|
                    0 <= a < 12 && #[trigger] next[a].contains(s) implies s.rank() > rank || (
                s.rank() == rank && s.file() < file + 1) by {
                    assert(pieces[a].contains(s) || s == square);
                }
                lemma_place_rank_keeps_squares_apart(rank_text, rank, i + 1, file + 1, next);
            },
        }
    }
}

/// After `n` ranks have been read, no square holds two pieces, and the
/// pieces stand on the `n` highest ranks.
proof fn lemma_place_ranks_keeps_squares_apart(ranks: Seq<Seq<char>>, n: int)
    requires
        0 <= n <= 8,
        n <= ranks.len(),
        place_ranks(ranks, n) is Ok,
    ensures
        placed_before(place_ranks(ranks, n)->Ok_0, 8 - n, 8),
    decreases n,
{
    if n > 0 {
        lemma_place_ranks_keeps_squares_apart(ranks, n - 1);
        let before = place_ranks(ranks, n - 1)->Ok_0;
        assert(placed_before(before, 8 - n, 0));
        lemma_place_rank_keeps_squares_apart(ranks[n - 1], 8 - n, 0, 0, before);
    }
}

/// A position that was read from Forsyth-Edwards Notation is consistent:
/// no square holds two pieces, the side to move is White or Black, and
/// there is no castling right beyond the four. Its history is empty.
pub proof fn lemma_parsed_position_is_consistent(fen: Seq<char>)
    requires
        parse_fen(fen) is Ok,
    ensures
        parse_fen(fen)->Ok_0.consistent(),
        parse_fen(fen)->Ok_0.move_stack.len() == 0,
{
    let fields = split_fields(fen);
    lemma_place_ranks_keeps_squares_apart(split_on(fields[0], '/'), 8);
}

} // verus!
