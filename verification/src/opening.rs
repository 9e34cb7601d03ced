//! The opening position and its notation agree: what
//! [`FEN_STARTPOS`](crate::board::FEN_STARTPOS) denotes is the position
//! that [`Board::startpos`](crate::board::Board::startpos) builds.

use vstd::prelude::*;
use crate::board::{BoardView, FEN_STARTPOS, no_pieces, rank_squares, start_position};
use crate::error::ChessErrorView;
use crate::fen::{
    castling_mask, parse_castling, parse_counter, parse_en_passant, parse_fen, parse_placement,
    parse_side, piece_of_char, place_rank_from, place_ranks,
};
use crate::square::{Square, lemma_at_index, lemma_index_round_trip};
use crate::text::{
    digit_value, lemma_fields_after_space, lemma_fields_after_word, lemma_parts_after_separator,
    lemma_parts_of_one, decimal_value, parse_u32, split_fields, split_on,
};

verus! {

/// The notation of the opening position has six fields.
proof fn lemma_opening_fields()
    ensures
        split_fields(FEN_STARTPOS@) == seq![
            "rnbqkbnr/pppppppp/8/8/8/8/PPPPPPPP/RNBQKBNR"@,
            "w"@,
            "KQkq"@,
            "-"@,
            "0"@,
            "1"@,
        ],
{
    reveal_strlit("rnbqkbnr/pppppppp/8/8/8/8/PPPPPPPP/RNBQKBNR w KQkq - 0 1");
    reveal_strlit("rnbqkbnr/pppppppp/8/8/8/8/PPPPPPPP/RNBQKBNR");
    reveal_strlit("w");
    reveal_strlit("KQkq");
    reveal_strlit("-");
    reveal_strlit("0");
    reveal_strlit("1");
    let placement = "rnbqkbnr/pppppppp/8/8/8/8/PPPPPPPP/RNBQKBNR"@;
    let nothing = Seq::<char>::empty();
    lemma_fields_after_word(nothing, placement);
    let s0 = nothing + placement;
    lemma_fields_after_space(s0, ' ');
    let s1 = s0.push(' ');
    lemma_fields_after_word(s1, "w"@);
    let s2 = s1 + "w"@;
    lemma_fields_after_space(s2, ' ');
    let s3 = s2.push(' ');
    lemma_fields_after_word(s3, "KQkq"@);
    let s4 = s3 + "KQkq"@;
    lemma_fields_after_space(s4, ' ');
    let s5 = s4.push(' ');
    lemma_fields_after_word(s5, "-"@);
    let s6 = s5 + "-"@;
    lemma_fields_after_space(s6, ' ');
    let s7 = s6.push(' ');
    lemma_fields_after_word(s7, "0"@);
    let s8 = s7 + "0"@;
    lemma_fields_after_space(s8, ' ');
    let s9 = s8.push(' ');
    lemma_fields_after_word(s9, "1"@);
    let s10 = s9 + "1"@;
    assert(FEN_STARTPOS@ =~= s10);
    assert(split_fields(s10) =~= seq![placement, "w"@, "KQkq"@, "-"@, "0"@, "1"@]);
}

/// The placement of the opening position has eight ranks.
proof fn lemma_opening_ranks()
    ensures
        split_on("rnbqkbnr/pppppppp/8/8/8/8/PPPPPPPP/RNBQKBNR"@, '/') == seq![
            "rnbqkbnr"@,
            "pppppppp"@,
            "8"@,
            "8"@,
            "8"@,
            "8"@,
            "PPPPPPPP"@,
            "RNBQKBNR"@,
        ],
{
    reveal_strlit("rnbqkbnr/pppppppp/8/8/8/8/PPPPPPPP/RNBQKBNR");
    reveal_strlit("rnbqkbnr");
    reveal_strlit("pppppppp");
    reveal_strlit("8");
    reveal_strlit("PPPPPPPP");
    reveal_strlit("RNBQKBNR");
    let t0 = "rnbqkbnr"@;
    lemma_parts_of_one(t0, '/');
    let t1 = t0.push('/') + "pppppppp"@;
    lemma_parts_after_separator(t0, "pppppppp"@, '/');
    let t2 = t1.push('/') + "8"@;
    lemma_parts_after_separator(t1, "8"@, '/');
    let t3 = t2.push('/') + "8"@;
    lemma_parts_after_separator(t2, "8"@, '/');
    let t4 = t3.push('/') + "8"@;
    lemma_parts_after_separator(t3, "8"@, '/');
    let t5 = t4.push('/') + "8"@;
    lemma_parts_after_separator(t4, "8"@, '/');
    let t6 = t5.push('/') + "PPPPPPPP"@;
    lemma_parts_after_separator(t5, "PPPPPPPP"@, '/');
    let t7 = t6.push('/') + "RNBQKBNR"@;
    lemma_parts_after_separator(t6, "RNBQKBNR"@, '/');
    assert("rnbqkbnr/pppppppp/8/8/8/8/PPPPPPPP/RNBQKBNR"@ =~= t7);
    assert(split_on(t7, '/') =~= seq![
        "rnbqkbnr"@,
        "pppppppp"@,
        "8"@,
        "8"@,
        "8"@,
        "8"@,
        "PPPPPPPP"@,
        "RNBQKBNR"@,
    ]);
}

/// The squares of rank `rank` on the files before `file`.
spec fn files_before(rank: int, file: int) -> Set<Square> {
    Set::new(|s: Square| s.rank() == rank && s.file() < file)
}

/// A rank that is one piece letter eight times over fills the rank with
/// that piece.
proof fn lemma_place_full_rank(
    text: Seq<char>,
    rank: int,
    file: int,
    piece: int,
    pieces: Seq<Set<Square>>,
)
    requires
        0 <= rank < 8,
        0 <= file <= 8,
        0 <= piece < 12,
        pieces.len() == 12,
        text.len() == 8,
        forall|i: int|
            0 <= i < 8 ==> digit_value(#[trigger] text[i]) is None && piece_of_char(text[i])
                == Some(piece),
    ensures
        place_rank_from(text, rank, file, file, pieces.update(piece, files_before(rank, file)))
            == Ok::<Seq<Set<Square>>, ChessErrorView>(
            pieces.update(piece, rank_squares(rank)),
        ),
    decreases 8 - file,
{
    let now = pieces.update(piece, files_before(rank, file));
    if file == 8 {
        assert forall|s: Square| files_before(rank, 8).contains(s) == rank_squares(
            rank,
        ).contains(s) by {
            lemma_index_round_trip(s);
        }
        assert(files_before(rank, 8) =~= rank_squares(rank));
    } else {
        let square = Square::at(rank * 8 + file);
        lemma_at_index(rank * 8 + file);
        assert forall|s: Square|
            files_before(rank, file).insert(square).contains(s) == files_before(
                rank,
                file + 1,
            ).contains(s) by {
            lemma_index_round_trip(s);
            if s.rank() == rank && s.file() == file {
                assert(s.index() == square.index());
            }
        }
        assert(files_before(rank, file).insert(square) =~= files_before(rank, file + 1));
        assert(now.update(piece, now[piece].insert(square)) =~= pieces.update(
            piece,
            files_before(rank, file + 1),
        ));
        assert(digit_value(text[file]) is None);
        lemma_place_full_rank(text, rank, file + 1, piece, pieces);
    }
}

/// A rank that is the digit 8 leaves the pieces as they are.
proof fn lemma_place_empty_rank(text: Seq<char>, rank: int, pieces: Seq<Set<Square>>)
    requires
        text.len() == 1,
        text[0] == '8',
    ensures
        place_rank_from(text, rank, 0, 0, pieces) == Ok::<
            Seq<Set<Square>>,
            ChessErrorView,
        >(pieces),
{
    reveal_with_fuel(place_rank_from, 2);
    assert(digit_value(text[0]) == Some(8int));
}

/// The pieces after a back rank has been put down: the king and the
/// queen on the files e and d, the rooks, the bishops and the knights on
/// the files around them. `king` is the bitboard of the king; those of
/// the queen, the rooks, the bishops and the knights follow it.
spec fn with_back_rank(pieces: Seq<Set<Square>>, rank: int, king: int) -> Seq<Set<Square>> {
    pieces.update(king, pieces[king].insert(Square::at(rank * 8 + 4))).update(
        king + 1,
        pieces[king + 1].insert(Square::at(rank * 8 + 3)),
    ).update(
        king + 2,
        pieces[king + 2].insert(Square::at(rank * 8)).insert(Square::at(rank * 8 + 7)),
    ).update(
        king + 3,
        pieces[king + 3].insert(Square::at(rank * 8 + 2)).insert(Square::at(rank * 8 + 5)),
    ).update(
        king + 4,
        pieces[king + 4].insert(Square::at(rank * 8 + 1)).insert(Square::at(rank * 8 + 6)),
    )
}

/// A rank of rook, knight, bishop, queen, king, bishop, knight and rook
/// puts these eight pieces on its files in that order.
proof fn lemma_place_back_rank(text: Seq<char>, rank: int, king: int, pieces: Seq<Set<Square>>)
    requires
        0 <= rank < 8,
        king == 0 || king == 6,
        pieces.len() == 12,
        text.len() == 8,
        forall|i: int| 0 <= i < 8 ==> digit_value(#[trigger] text[i]) is None,
        piece_of_char(text[0]) == Some(king + 2),
        piece_of_char(text[1]) == Some(king + 4),
        piece_of_char(text[2]) == Some(king + 3),
        piece_of_char(text[3]) == Some(king + 1),
        piece_of_char(text[4]) == Some(king),
        piece_of_char(text[5]) == Some(king + 3),
        piece_of_char(text[6]) == Some(king + 4),
        piece_of_char(text[7]) == Some(king + 2),
    ensures
        place_rank_from(text, rank, 0, 0, pieces) == Ok::<Seq<Set<Square>>, ChessErrorView>(
            with_back_rank(pieces, rank, king),
        ),
{
    let p1 = pieces.update(king + 2, pieces[king + 2].insert(Square::at(rank * 8)));
    let p2 = p1.update(king + 4, p1[king + 4].insert(Square::at(rank * 8 + 1)));
    let p3 = p2.update(king + 3, p2[king + 3].insert(Square::at(rank * 8 + 2)));
    let p4 = p3.update(king + 1, p3[king + 1].insert(Square::at(rank * 8 + 3)));
    let p5 = p4.update(king, p4[king].insert(Square::at(rank * 8 + 4)));
    let p6 = p5.update(king + 3, p5[king + 3].insert(Square::at(rank * 8 + 5)));
    let p7 = p6.update(king + 4, p6[king + 4].insert(Square::at(rank * 8 + 6)));
    let p8 = p7.update(king + 2, p7[king + 2].insert(Square::at(rank * 8 + 7)));
    assert(digit_value(text[0]) is None);
    assert(digit_value(text[1]) is None);
    assert(digit_value(text[2]) is None);
    assert(digit_value(text[3]) is None);
    assert(digit_value(text[4]) is None);
    assert(digit_value(text[5]) is None);
    assert(digit_value(text[6]) is None);
    assert(digit_value(text[7]) is None);
    assert(place_rank_from(text, rank, 8, 8, p8) == Ok::<Seq<Set<Square>>, ChessErrorView>(p8));
    assert(place_rank_from(text, rank, 7, 7, p7) == place_rank_from(text, rank, 8, 8, p8));
    assert(place_rank_from(text, rank, 6, 6, p6) == place_rank_from(text, rank, 7, 7, p7));
    assert(place_rank_from(text, rank, 5, 5, p5) == place_rank_from(text, rank, 6, 6, p6));
    assert(place_rank_from(text, rank, 4, 4, p4) == place_rank_from(text, rank, 5, 5, p5));
    assert(place_rank_from(text, rank, 3, 3, p3) == place_rank_from(text, rank, 4, 4, p4));
    assert(place_rank_from(text, rank, 2, 2, p2) == place_rank_from(text, rank, 3, 3, p3));
    assert(place_rank_from(text, rank, 1, 1, p1) == place_rank_from(text, rank, 2, 2, p2));
    assert(place_rank_from(text, rank, 0, 0, pieces) == place_rank_from(text, rank, 1, 1, p1));
    assert(p8 =~= with_back_rank(pieces, rank, king));
}

/// The placement of the opening position denotes the pieces of the
/// opening position.
proof fn lemma_opening_placement()
    ensures
        parse_placement("rnbqkbnr/pppppppp/8/8/8/8/PPPPPPPP/RNBQKBNR"@) == Ok::<
            Seq<Set<Square>>,
            ChessErrorView,
        >(start_position().pieces),
{
    lemma_opening_ranks();
    reveal_strlit("rnbqkbnr");
    reveal_strlit("pppppppp");
    reveal_strlit("8");
    reveal_strlit("PPPPPPPP");
    reveal_strlit("RNBQKBNR");
    let ranks = split_on("rnbqkbnr/pppppppp/8/8/8/8/PPPPPPPP/RNBQKBNR"@, '/');
    let none = Set::<Square>::empty();
    let q0 = no_pieces();
    assert(place_ranks(ranks, 0) == Ok::<Seq<Set<Square>>, ChessErrorView>(q0));

    lemma_place_back_rank("rnbqkbnr"@, 7, 6, q0);
    let q1 = with_back_rank(q0, 7, 6);
    assert(place_ranks(ranks, 1) == Ok::<Seq<Set<Square>>, ChessErrorView>(q1));

    assert(files_before(6, 0) =~= none);
    assert(q1.update(11, files_before(6, 0)) =~= q1);
    lemma_place_full_rank("pppppppp"@, 6, 0, 11, q1);
    let q2 = q1.update(11, rank_squares(6));
    assert(place_ranks(ranks, 2) == Ok::<Seq<Set<Square>>, ChessErrorView>(q2));

    lemma_place_empty_rank("8"@, 5, q2);
    assert(place_ranks(ranks, 3) == Ok::<Seq<Set<Square>>, ChessErrorView>(q2));
    lemma_place_empty_rank("8"@, 4, q2);
    assert(place_ranks(ranks, 4) == Ok::<Seq<Set<Square>>, ChessErrorView>(q2));
    lemma_place_empty_rank("8"@, 3, q2);
    assert(place_ranks(ranks, 5) == Ok::<Seq<Set<Square>>, ChessErrorView>(q2));
    lemma_place_empty_rank("8"@, 2, q2);
    assert(place_ranks(ranks, 6) == Ok::<Seq<Set<Square>>, ChessErrorView>(q2));

    assert(files_before(1, 0) =~= none);
    assert(q2.update(5, files_before(1, 0)) =~= q2);
    lemma_place_full_rank("PPPPPPPP"@, 1, 0, 5, q2);
    let q3 = q2.update(5, rank_squares(1));
    assert(place_ranks(ranks, 7) == Ok::<Seq<Set<Square>>, ChessErrorView>(q3));

    lemma_place_back_rank("RNBQKBNR"@, 0, 0, q3);
    let q4 = with_back_rank(q3, 0, 0);
    assert(place_ranks(ranks, 8) == Ok::<Seq<Set<Square>>, ChessErrorView>(q4));

    reveal(Square::at);
    assert(q4 =~~= start_position().pieces);
}

/// What [`FEN_STARTPOS`] denotes is the opening position.
pub proof fn lemma_opening_notation()
    ensures
        parse_fen(FEN_STARTPOS@) == Ok::<BoardView, ChessErrorView>(start_position()),
{
    lemma_opening_fields();
    lemma_opening_placement();
    reveal_strlit("w");
    reveal_strlit("KQkq");
    reveal_strlit("-");
    reveal_strlit("0");
    reveal_strlit("1");
    let fields = split_fields(FEN_STARTPOS@);
    assert(fields[1] =~= seq!['w']);
    assert(parse_side(fields[1]) == Ok::<usize, ChessErrorView>(0usize));

    let rights = fields[2];
    assert(rights[0] == 'K' && rights[1] == 'Q' && rights[2] == 'k' && rights[3] == 'q');
    assert(rights.contains('K') && rights.contains('Q') && rights.contains('k')
        && rights.contains('q'));
    assert(castling_mask(rights) == 15);
    assert(parse_castling(rights) == Ok::<u8, ChessErrorView>(15u8));

    assert(fields[3] =~= seq!['-']);
    assert(parse_en_passant(fields[3]) == Ok::<Option<Square>, ChessErrorView>(None));

    reveal_with_fuel(decimal_value, 2);
    assert(fields[4].drop_last() =~= Seq::<char>::empty());
    assert(decimal_value(fields[4]) == 0);
    assert(parse_u32(fields[4]) == Some(0u32));
    assert(parse_counter(fields[4], "halfmove clock"@) == Ok::<u32, ChessErrorView>(0u32));
    assert(fields[5].drop_last() =~= Seq::<char>::empty());
    assert(decimal_value(fields[5]) == 1);
    assert(parse_u32(fields[5]) == Some(1u32));
    assert(parse_counter(fields[5], "fullmove counter"@) == Ok::<u32, ChessErrorView>(1u32));
}

} // verus!
