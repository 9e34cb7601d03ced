//! A set of squares held in one 64-bit word.
//!
//! Bit layout, by rank and file:
//!
//! ```text
//! 7 | 56 57 58 59 60 61 62 63
//! 6 | 48 49 50 51 52 53 54 55
//! 5 | 40 41 42 43 44 45 46 47
//! 4 | 32 33 34 35 36 37 38 39
//! 3 | 24 25 26 27 28 29 30 31
//! 2 | 16 17 18 19 20 21 22 23
//! 1 | 08 09 10 11 12 13 14 15
//! 0 | 00 01 02 03 04 05 06 07
//!   ------------------------
//!      0  1  2  3  4  5  6  7
//! ```

use vstd::prelude::*;
use vstd::string::*;
use crate::bits::{
    has_bit, lemma_and_not_bits, lemma_lowest_bit, lemma_or_bits, lemma_single_bit,
    lemma_test_bit, lemma_xor_bits, lemma_xor_zero, lemma_zero_bits, lowest_bit, single_bit,
};
use crate::grid::{grid_rows, grid_text, no_suffix, row_cells};
use crate::square::{Square, lemma_at_index, lemma_index_round_trip};

verus! {

/// A set of squares: bit `i` of the word is set exactly when the square
/// with index `i` belongs to the set.
#[derive(Copy, Clone, Eq, PartialEq, Hash, Structural)]
pub struct Bitboard(u64);

/// The squares whose bits are set in `bits`.
pub open spec fn squares_of(bits: u64) -> Set<Square> {
    Set::new(|s: Square| has_bit(bits, s.index() as u64))
}

/// The squares with an index below `k` whose bits are set in `bits`.
pub open spec fn low_squares(bits: u64, k: int) -> Set<Square> {
    Set::new(|s: Square| s.index() < k && has_bit(bits, s.index() as u64))
}

/// The squares that belong to exactly one of two sets.
pub open spec fn toggled(a: Set<Square>, b: Set<Square>) -> Set<Square> {
    Set::new(|s: Square| a.contains(s) != b.contains(s))
}

/// The cell that shows whether a square belongs to a set: `1` if it does,
/// `0` if it does not.
pub open spec fn bit_cell(squares: Set<Square>) -> spec_fn(Square) -> char {
    |s: Square|
        if squares.contains(s) {
            '1'
        } else {
            '0'
        }
}

impl View for Bitboard {
    type V = Set<Square>;

    open spec fn view(&self) -> Set<Square> {
        squares_of(self.bits())
    }
}

impl Bitboard {
    /// The word that holds the set.
    pub closed spec fn bits(self) -> u64 {
        self.0
    }

    /// The bitboard that holds no square.
    pub fn empty() -> (bb: Bitboard)
        ensures
            bb@ == Set::<Square>::empty(),
            bb@.len() == 0,
            bb.bits() == 0,
    {
        proof {
            lemma_empty_iff_zero(0);
        }
        Bitboard(0)
    }

    /// The bitboard held in `value`.
    pub fn from_u64(value: u64) -> (bb: Bitboard)
        ensures
            bb.bits() == value,
    {
        Bitboard(value)
    }

    /// The bitboard that holds `square` alone.
    pub fn from_square(square: Square) -> (bb: Bitboard)
        ensures
            bb@ == set![square],
            bb@.len() == 1,
            bb.bits() == single_bit(square.index() as u64),
    {
        let bb = Bitboard(1u64 << (square.to_u8() as u64));
        proof {
            lemma_index_round_trip(square);
            assert forall|s: Square| bb@.contains(s) == (s == square) by {
                lemma_index_round_trip(s);
                lemma_single_bit(square.index() as u64, s.index() as u64);
            }
            assert(bb@ =~= set![square]);
        }
        bb
    }

    /// The number of squares in the set.
    pub fn count(&self) -> (n: u32)
        ensures
            self@.finite(),
            n == self@.len(),
            n <= 64,
    {
        let mut n: u32 = 0;
        let mut i: u64 = 0;
        proof {
            assert forall|s: Square| !low_squares(self.0, 0).contains(s) by {
                lemma_index_round_trip(s);
            }
            assert(low_squares(self.0, 0) =~= Set::<Square>::empty());
        }
        while i < 64
            invariant
                i <= 64,
                n <= i,
                low_squares(self.0, i as int).finite(),
                n == low_squares(self.0, i as int).len(),
            decreases 64 - i,
        {
            proof {
                lemma_low_squares_step(self.0, i as int);
            }
            if (self.0 >> i) & 1 == 1 {
                n = n + 1;
            }
            i = i + 1;
        }
        proof {
            assert forall|s: Square| low_squares(self.0, 64).contains(s) == self@.contains(s) by {
                lemma_index_round_trip(s);
            }
            assert(low_squares(self.0, 64) =~= self@);
        }
        n
    }

    /// Whether `square` belongs to the set.
    pub fn is_occ(&self, square: Square) -> (b: bool)
        ensures
            b == self@.contains(square),
    {
        proof {
            lemma_index_round_trip(square);
            lemma_test_bit(self.0, square.index() as u64);
        }
        self.0 & (1u64 << (square.to_u8() as u64)) != 0
    }

    /// Whether the set holds no square.
    pub fn is_empty(&self) -> (b: bool)
        ensures
            b == (self@ == Set::<Square>::empty()),
            b == (self.bits() == 0),
    {
        proof {
            lemma_empty_iff_zero(self.0);
        }
        self.0 == 0
    }

    /// Whether the set holds a square.
    pub fn is_not_empty(&self) -> (b: bool)
        ensures
            b == (self@ != Set::<Square>::empty()),
            b == (self.bits() != 0),
    {
        proof {
            lemma_empty_iff_zero(self.0);
        }
        self.0 != 0
    }

    /// Puts `square` into the set.
    pub fn set(&mut self, square: Square)
        ensures
            final(self)@ == old(self)@.insert(square),
            final(self).bits() == old(self).bits() | single_bit(square.index() as u64),
    {
        let mask = Bitboard::from_square(square);
        proof {
            lemma_union(self.0, mask.0);
            assert(self@.union(mask@) =~= self@.insert(square));
        }
        self.0 = self.0 | mask.0;
    }

    /// Takes `square` out of the set.
    pub fn clear(&mut self, square: Square)
        ensures
            final(self)@ == old(self)@.remove(square),
            final(self).bits() == old(self).bits() & !single_bit(square.index() as u64),
    {
        let mask = Bitboard::from_square(square);
        proof {
            let bits = self.0;
            assert forall|s: Square|
                squares_of(bits & !mask.0).contains(s) == self@.remove(square).contains(s) by {
                lemma_index_round_trip(s);
                lemma_and_not_bits(bits, mask.0, s.index() as u64);
                assert(mask@.contains(s) == has_bit(mask.0, s.index() as u64));
                assert(self@.contains(s) == has_bit(bits, s.index() as u64));
            }
            assert(squares_of(bits & !mask.0) =~= self@.remove(square));
        }
        self.0 = self.0 & !mask.0;
    }

    /// Puts `square` into the set if it is outside, and takes it out if it
    /// is inside.
    pub fn flip(&mut self, square: Square)
        ensures
            final(self)@ == toggled(old(self)@, set![square]),
            final(self).bits() == old(self).bits() ^ single_bit(square.index() as u64),
    {
        let mask = Bitboard::from_square(square);
        proof {
            lemma_toggle(self.0, mask.0);
        }
        self.0 = self.0 ^ mask.0;
    }

    /// The picture of the set: eight rows from rank 8 down to rank 1, each
    /// of eight cells `1` or `0` with a space between them, and a line
    /// break between rows.
    pub fn to_string(&self) -> (s: String)
        ensures
            s@ == grid_text(bit_cell(self@), no_suffix()),
    {
        let mut out = String::new();
        let mut k: usize = 0;
        while k < 8
            invariant
                k <= 8,
                out@ == grid_rows(bit_cell(self@), no_suffix(), k as int),
            decreases 8 - k,
        {
            let rank = 7 - k;
            let ghost before = out@;
            let mut file: usize = 0;
            while file < 8
                invariant
                    file <= 8,
                    rank < 8,
                    out@ == before + row_cells(bit_cell(self@), rank as int, file as int),
                decreases 8 - file,
            {
                if file != 0 {
                    out.append(" ");
                }
                let square = Square::from_file_rank(file, rank);
                out.append(if self.is_occ(square) { "1" } else { "0" });
                proof {
                    reveal_strlit(" ");
                    reveal_strlit("1");
                    reveal_strlit("0");
                    assert(out@ =~= before + row_cells(
                        bit_cell(self@),
                        rank as int,
                        file as int + 1,
                    ));
                }
                file = file + 1;
            }
            if rank != 0 {
                out.append("\n");
            }
            proof {
                reveal_strlit("\n");
                assert(out@ =~= grid_rows(bit_cell(self@), no_suffix(), k as int + 1));
            }
            k = k + 1;
        }
        out
    }

    /// The squares of either set.
    pub fn union(self, rhs: Bitboard) -> (bb: Bitboard)
        ensures
            bb@ == self@.union(rhs@),
            bb.bits() == self.bits() | rhs.bits(),
    {
        proof {
            lemma_union(self.0, rhs.0);
        }
        Bitboard(self.0 | rhs.0)
    }

    /// Keeps the squares that belong to exactly one of the two sets.
    pub fn xor_assign(&mut self, rhs: Bitboard)
        ensures
            final(self)@ == toggled(old(self)@, rhs@),
            final(self).bits() == old(self).bits() ^ rhs.bits(),
    {
        proof {
            lemma_toggle(self.0, rhs.0);
        }
        self.0 = self.0 ^ rhs.0;
    }
}

/// A set of one square has one member, and the empty set has none: so a
/// bitboard made from a square counts one, and the empty bitboard counts
/// nothing.
pub proof fn lemma_single_square_count(square: Square)
    ensures
        set![square].len() == 1,
        Set::<Square>::empty().len() == 0,
{
}

/// Raising the bound of [`low_squares`] by one adds the square at the old
/// bound if its bit is set, and nothing else.
pub proof fn lemma_low_squares_step(bits: u64, k: int)
    requires
        0 <= k < 64,
    ensures
        !low_squares(bits, k).contains(Square::at(k)),
        low_squares(bits, k + 1) == if has_bit(bits, k as u64) {
            low_squares(bits, k).insert(Square::at(k))
        } else {
            low_squares(bits, k)
        },
{
    lemma_at_index(k);
    let next = if has_bit(bits, k as u64) {
        low_squares(bits, k).insert(Square::at(k))
    } else {
        low_squares(bits, k)
    };
    assert forall|s: Square| low_squares(bits, k + 1).contains(s) == next.contains(s) by {
        lemma_index_round_trip(s);
    }
    assert(low_squares(bits, k + 1) =~= next);
}

/// The squares of `a | b` are those of `a` together with those of `b`.
pub proof fn lemma_union(a: u64, b: u64)
    ensures
        squares_of(a | b) == squares_of(a).union(squares_of(b)),
{
    assert forall|s: Square|
        squares_of(a | b).contains(s) == squares_of(a).union(squares_of(b)).contains(s) by {
        lemma_index_round_trip(s);
        lemma_or_bits(a, b, s.index() as u64);
    }
    assert(squares_of(a | b) =~= squares_of(a).union(squares_of(b)));
}

/// The squares of `a ^ b` are those of exactly one of `a` and `b`.
pub proof fn lemma_toggle(a: u64, b: u64)
    ensures
        squares_of(a ^ b) == toggled(squares_of(a), squares_of(b)),
{
    assert forall|s: Square|
        squares_of(a ^ b).contains(s) == toggled(squares_of(a), squares_of(b)).contains(s) by {
        lemma_index_round_trip(s);
        lemma_xor_bits(a, b, s.index() as u64);
    }
    assert(squares_of(a ^ b) =~= toggled(squares_of(a), squares_of(b)));
}

/// A word holds no square exactly when it is zero.
pub proof fn lemma_empty_iff_zero(bits: u64)
    ensures
        (squares_of(bits) == Set::<Square>::empty()) == (bits == 0),
{
    if bits == 0 {
        assert forall|s: Square| !squares_of(bits).contains(s) by {
            lemma_index_round_trip(s);
            lemma_zero_bits(s.index() as u64);
        }
        assert(squares_of(bits) =~= Set::<Square>::empty());
    } else {
        lemma_lowest_bit(bits);
        let s = Square::at(lowest_bit(bits) as int);
        lemma_at_index(lowest_bit(bits) as int);
        assert(squares_of(bits).contains(s));
    }
}

/// Two bitboards that hold the same squares are the same bitboard.
pub proof fn lemma_same_squares(a: Bitboard, b: Bitboard)
    requires
        a@ == b@,
    ensures
        a == b,
{
    lemma_toggle(a.0, b.0);
    assert(toggled(a@, b@) =~= Set::<Square>::empty());
    lemma_empty_iff_zero(a.0 ^ b.0);
    lemma_xor_zero(a.0, b.0);
}

impl core::ops::BitOr for Bitboard {
    type Output = Bitboard;

    /// The squares of either set, as [`Bitboard::union`].
    fn bitor(self, rhs: Bitboard) -> (bb: Bitboard)
        ensures
            bb@ == self@.union(rhs@),
            bb.bits() == self.bits() | rhs.bits(),
    {
        self.union(rhs)
    }
}

impl vstd::std_specs::ops::BitOrSpecImpl for Bitboard {
    open spec fn obeys_bitor_spec() -> bool {
        true
    }

    open spec fn bitor_req(self, rhs: Bitboard) -> bool {
        true
    }

    closed spec fn bitor_spec(self, rhs: Bitboard) -> Bitboard {
        Bitboard(self.0 | rhs.0)
    }
}

impl core::ops::BitOrAssign for Bitboard {
    /// Adds the squares of `rhs` to the set.
    fn bitor_assign(&mut self, rhs: Bitboard)
        ensures
            final(self)@ == old(self)@.union(rhs@),
            final(self).bits() == old(self).bits() | rhs.bits(),
    {
        proof {
            lemma_union(self.0, rhs.0);
        }
        self.0 = self.0 | rhs.0;
    }
}

impl core::ops::BitXorAssign for Bitboard {
    /// Keeps the squares of exactly one set, as [`Bitboard::xor_assign`].
    fn bitxor_assign(&mut self, rhs: Bitboard)
        ensures
            final(self)@ == toggled(old(self)@, rhs@),
            final(self).bits() == old(self).bits() ^ rhs.bits(),
    {
        self.xor_assign(rhs);
    }
}

impl From<u64> for Bitboard {
    /// The bitboard held in `value`, as [`Bitboard::from_u64`].
    fn from(value: u64) -> (bb: Bitboard)
        ensures
            bb.bits() == value,
    {
        Bitboard(value)
    }
}

impl vstd::std_specs::convert::FromSpecImpl<u64> for Bitboard {
    open spec fn obeys_from_spec() -> bool {
        true
    }

    closed spec fn from_spec(value: u64) -> Bitboard {
        Bitboard(value)
    }
}

impl From<Square> for Bitboard {
    /// The bitboard that holds `square` alone, as
    /// [`Bitboard::from_square`].
    fn from(square: Square) -> (bb: Bitboard)
        ensures
            bb@ == set![square],
            bb.bits() == single_bit(square.index() as u64),
    {
        Bitboard::from_square(square)
    }
}

impl vstd::std_specs::convert::FromSpecImpl<Square> for Bitboard {
    open spec fn obeys_from_spec() -> bool {
        true
    }

    closed spec fn from_spec(square: Square) -> Bitboard {
        Bitboard(single_bit(square.index() as u64))
    }
}

impl From<Bitboard> for u64 {
    /// The word that holds the set.
    fn from(value: Bitboard) -> (bits: u64)
        ensures
            bits == value.bits(),
    {
        value.0
    }
}

impl vstd::std_specs::convert::FromSpecImpl<Bitboard> for u64 {
    open spec fn obeys_from_spec() -> bool {
        true
    }

    open spec fn from_spec(value: Bitboard) -> u64 {
        value.bits()
    }
}

} // verus!
