//! Text helpers shared by the parsers and renderers: decimal numbers and
//! the characters that separate fields.

use vstd::prelude::*;
use vstd::string::*;

verus! {

/// The character that stands for the decimal digit `d`.
pub open spec fn digit_char(d: int) -> char {
    if d == 0 {
        '0'
    } else if d == 1 {
        '1'
    } else if d == 2 {
        '2'
    } else if d == 3 {
        '3'
    } else if d == 4 {
        '4'
    } else if d == 5 {
        '5'
    } else if d == 6 {
        '6'
    } else if d == 7 {
        '7'
    } else if d == 8 {
        '8'
    } else {
        '9'
    }
}

/// The decimal numeral of `n`, most significant digit first, without
/// leading zeros.
pub open spec fn decimal(n: nat) -> Seq<char>
    decreases n,
{
    if n < 10 {
        seq![digit_char(n as int)]
    } else {
        decimal(n / 10).push(digit_char((n % 10) as int))
    }
}

/// The one-character text of a decimal digit.
pub fn digit_str(d: u64) -> (s: &'static str)
    requires
        d < 10,
    ensures
        s@ == seq![digit_char(d as int)],
{
    proof {
        reveal_strlit("0");
        reveal_strlit("1");
        reveal_strlit("2");
        reveal_strlit("3");
        reveal_strlit("4");
        reveal_strlit("5");
        reveal_strlit("6");
        reveal_strlit("7");
        reveal_strlit("8");
        reveal_strlit("9");
    }
    let s = match d {
        0 => "0",
        1 => "1",
        2 => "2",
        3 => "3",
        4 => "4",
        5 => "5",
        6 => "6",
        7 => "7",
        8 => "8",
        _ => "9",
    };
    assert(s@ =~= seq![digit_char(d as int)]);
    s
}

/// Appends the decimal numeral of `n` to `out`.
pub fn push_decimal(out: &mut String, n: u64)
    ensures
        final(out)@ == old(out)@ + decimal(n as nat),
    decreases n,
{
    if n >= 10 {
        push_decimal(out, n / 10);
    }
    out.append(digit_str(n % 10));
}

/// Whether `c` separates fields: the characters with the Unicode property
/// White_Space.
pub open spec fn is_space(c: char) -> bool {
    let n = c as u32;
    ||| 0x09 <= n <= 0x0D
    ||| n == 0x20
    ||| n == 0x85
    ||| n == 0xA0
    ||| n == 0x1680
    ||| 0x2000 <= n <= 0x200A
    ||| n == 0x2028
    ||| n == 0x2029
    ||| n == 0x202F
    ||| n == 0x205F
    ||| n == 0x3000
}

/// Whether `c` separates fields.
pub fn is_space_char(c: char) -> (b: bool)
    ensures
        b == is_space(c),
{
    let n = c as u32;
    (0x09 <= n && n <= 0x0D) || n == 0x20 || n == 0x85 || n == 0xA0 || n == 0x1680 || (0x2000 <= n
        && n <= 0x200A) || n == 0x2028 || n == 0x2029 || n == 0x202F || n == 0x205F || n == 0x3000
}

/// The characters of a text, one by one.
pub fn chars_of(s: &str) -> (v: Vec<char>)
    ensures
        v@ == s@,
{
    let mut v: Vec<char> = Vec::new();
    for c in it: s.chars()
        invariant
            v@ == it.seq().take(it.index() as int),
            it.seq() == s@,
    {
        v.push(c);
    }
    v
}

/// The fields of a text: its maximal runs of characters that are not
/// spaces, in order. The definition goes by the last character: a space
/// adds nothing; another character extends the last field when the
/// character before it belongs to that field, and starts a field
/// otherwise.
pub open spec fn split_fields(s: Seq<char>) -> Seq<Seq<char>>
    decreases s.len(),
{
    if s.len() == 0 {
        Seq::<Seq<char>>::empty()
    } else {
        let before = split_fields(s.drop_last());
        if is_space(s.last()) {
            before
        } else if s.len() >= 2 && !is_space(s[s.len() - 2]) && before.len() > 0 {
            before.drop_last().push(before.last().push(s.last()))
        } else {
            before.push(seq![s.last()])
        }
    }
}

/// The pieces of `s` that a sequence of ranges cuts out, each range given
/// by its first position and the position after its last.
pub open spec fn range_texts(s: Seq<char>, ranges: Seq<(usize, usize)>) -> Seq<Seq<char>> {
    Seq::new(ranges.len(), |k: int| s.subrange(ranges[k].0 as int, ranges[k].1 as int))
}

/// Whether every range lies within a text of length `len`.
pub open spec fn ranges_within(ranges: Seq<(usize, usize)>, len: int) -> bool {
    forall|k: int| 0 <= k < ranges.len() ==> 0 <= (#[trigger] ranges[k]).0 <= ranges[k].1 <= len
}

/// Finds the fields of a text, as ranges of positions.
pub fn find_fields(chars: &Vec<char>) -> (ranges: Vec<(usize, usize)>)
    ensures
        ranges_within(ranges@, chars@.len() as int),
        range_texts(chars@, ranges@) == split_fields(chars@),
{
    let mut ranges: Vec<(usize, usize)> = Vec::new();
    let mut in_field = false;
    let mut i: usize = 0;
    proof {
        assert(chars@.take(0) =~= Seq::<char>::empty());
        assert(range_texts(chars@, ranges@) =~= split_fields(chars@.take(0)));
    }
    while i < chars.len()
        invariant
            i <= chars.len(),
            ranges_within(ranges@, i as int),
            range_texts(chars@, ranges@) == split_fields(chars@.take(i as int)),
            in_field == (i > 0 && !is_space(chars@[i - 1])),
            in_field ==> ranges.len() > 0 && ranges@.last().1 == i,
        decreases chars.len() - i,
    {
        let ghost s = chars@;
        let ghost old_ranges = ranges@;
        let c = chars[i];
        proof {
            assert(s.take(i + 1).drop_last() =~= s.take(i as int));
            assert(s.take(i + 1).last() == c);
        }
        if is_space_char(c) {
            in_field = false;
        } else if in_field {
            let last = ranges.len() - 1;
            let start = ranges[last].0;
            ranges.set(last, (start, i + 1));
            proof {
                assert(s.take(i + 1)[s.take(i + 1).len() - 2] == s[i - 1]);
                let before = split_fields(s.take(i as int));
                assert(before.last() == s.subrange(start as int, i as int));
                assert(s.subrange(start as int, i as int).push(c) =~= s.subrange(
                    start as int,
                    i + 1,
                ));
                assert(range_texts(s, ranges@) =~= before.drop_last().push(before.last().push(c)));
            }
        } else {
            ranges.push((i, i + 1));
            in_field = true;
            proof {
                if i > 0 {
                    assert(s.take(i + 1)[s.take(i + 1).len() - 2] == s[i - 1]);
                }
                let before = split_fields(s.take(i as int));
                assert(seq![c] =~= s.subrange(i as int, i + 1));
                assert(range_texts(s, ranges@) =~= before.push(seq![c]));
            }
        }
        i = i + 1;
    }
    proof {
        assert(chars@.take(i as int) =~= chars@);
    }
    ranges
}

/// The value of a decimal digit, if `c` is one of the digits 0 to 9.
pub open spec fn digit_value(c: char) -> Option<int> {
    if c == '0' {
        Some(0)
    } else if c == '1' {
        Some(1)
    } else if c == '2' {
        Some(2)
    } else if c == '3' {
        Some(3)
    } else if c == '4' {
        Some(4)
    } else if c == '5' {
        Some(5)
    } else if c == '6' {
        Some(6)
    } else if c == '7' {
        Some(7)
    } else if c == '8' {
        Some(8)
    } else if c == '9' {
        Some(9)
    } else {
        None
    }
}

/// The value of a decimal digit.
pub fn digit_of(c: char) -> (r: Option<u8>)
    ensures
        match r {
            Some(d) => digit_value(c) == Some(d as int),
            None => digit_value(c) is None,
        },
{
    match c {
        '0' => Some(0),
        '1' => Some(1),
        '2' => Some(2),
        '3' => Some(3),
        '4' => Some(4),
        '5' => Some(5),
        '6' => Some(6),
        '7' => Some(7),
        '8' => Some(8),
        '9' => Some(9),
        _ => None,
    }
}

/// Whether every character of `s` is a decimal digit.
pub open spec fn all_digits(s: Seq<char>) -> bool {
    forall|i: int| 0 <= i < s.len() ==> (#[trigger] digit_value(s[i])) is Some
}

/// The number that a sequence of decimal digits denotes, most significant
/// digit first. A character that is no digit counts as zero.
pub open spec fn decimal_value(s: Seq<char>) -> nat
    decreases s.len(),
{
    if s.len() == 0 {
        0
    } else {
        let d = match digit_value(s.last()) {
            Some(d) => d as nat,
            None => 0,
        };
        decimal_value(s.drop_last()) * 10 + d
    }
}

/// A text without the plus sign that it may begin with.
pub open spec fn unsigned_part(s: Seq<char>) -> Seq<char> {
    if s.len() > 0 && s[0] == '+' {
        s.drop_first()
    } else {
        s
    }
}

/// The number that a text denotes: an optional plus sign, then one or
/// more decimal digits whose value fits in 32 bits. Any other text
/// denotes none.
pub open spec fn parse_u32(s: Seq<char>) -> Option<u32> {
    let digits = unsigned_part(s);
    if digits.len() > 0 && all_digits(digits) && decimal_value(digits) <= u32::MAX {
        Some(decimal_value(digits) as u32)
    } else {
        None
    }
}

/// The value of a text is at least the value of each of its prefixes.
pub proof fn lemma_decimal_value_prefix(s: Seq<char>, n: int)
    requires
        0 <= n <= s.len(),
    ensures
        decimal_value(s.take(n)) <= decimal_value(s),
    decreases s.len(),
{
    if n == s.len() {
        assert(s.take(n) =~= s);
    } else {
        assert(s.drop_last().take(n) =~= s.take(n));
        lemma_decimal_value_prefix(s.drop_last(), n);
    }
}

/// Reads the number that the characters from `start` up to `end` denote.
pub fn read_u32(chars: &Vec<char>, start: usize, end: usize) -> (r: Option<u32>)
    requires
        start <= end <= chars.len(),
    ensures
        r == parse_u32(chars@.subrange(start as int, end as int)),
{
    let ghost s = chars@.subrange(start as int, end as int);
    let first = if start < end && chars[start] == '+' {
        start + 1
    } else {
        start
    };
    let ghost digits = chars@.subrange(first as int, end as int);
    proof {
        if first != start {
            assert(s[0] == '+');
            assert(digits =~= s.drop_first());
        } else {
            assert(start < end ==> s[0] == chars@[start as int]);
            assert(digits =~= s);
        }
    }
    if first == end {
        return None;
    }
    let mut value: u64 = 0;
    let mut i = first;
    proof {
        assert(digits.take(0) =~= Seq::<char>::empty());
    }
    while i < end
        invariant
            start <= first <= i <= end <= chars.len(),
            digits == chars@.subrange(first as int, end as int),
            digits == unsigned_part(chars@.subrange(start as int, end as int)),
            all_digits(digits.take(i - first)),
            value == decimal_value(digits.take(i - first)),
            value <= u32::MAX,
        decreases end - i,
    {
        let ghost k = i - first;
        proof {
            assert(digits.take(k + 1).drop_last() =~= digits.take(k));
            assert(digits.take(k + 1).last() == chars@[i as int]);
        }
        match digit_of(chars[i]) {
            None => {
                proof {
                    assert(digit_value(digits[k]) is None);
                }
                return None;
            },
            Some(d) => {
                value = value * 10 + d as u64;
                proof {
                    assert forall|j: int| 0 <= j < k + 1 implies (#[trigger] digit_value(
                        digits.take(k + 1)[j],
                    )) is Some by {
                        if j < k {
                            assert(digits.take(k)[j] == digits.take(k + 1)[j]);
                        }
                    }
                }
                if value > u32::MAX as u64 {
                    proof {
                        lemma_decimal_value_prefix(digits, k + 1);
                    }
                    return None;
                }
            },
        }
        i = i + 1;
    }
    proof {
        assert(digits.take(i - first) =~= digits);
    }
    Some(value as u32)
}

/// The parts that the separator `sep` cuts a text into, in order. A text
/// without the separator is one part, and two separators side by side
/// have an empty part between them. The definition goes by the last
/// character: a separator starts a new, empty part, and another character
/// extends the last part.
pub open spec fn split_on(s: Seq<char>, sep: char) -> Seq<Seq<char>>
    decreases s.len(),
{
    if s.len() == 0 {
        seq![Seq::<char>::empty()]
    } else {
        let before = split_on(s.drop_last(), sep);
        if s.last() == sep {
            before.push(Seq::<char>::empty())
        } else {
            before.drop_last().push(before.last().push(s.last()))
        }
    }
}

/// Finds the parts that `sep` cuts the characters from `start` up to
/// `end` into, as ranges of positions.
pub fn find_parts(chars: &Vec<char>, start: usize, end: usize, sep: char) -> (ranges: Vec<
    (usize, usize),
>)
    requires
        start <= end <= chars.len(),
    ensures
        ranges.len() >= 1,
        ranges_within(ranges@, chars@.len() as int),
        range_texts(chars@, ranges@) == split_on(chars@.subrange(start as int, end as int), sep),
{
    let ghost s = chars@.subrange(start as int, end as int);
    let mut ranges: Vec<(usize, usize)> = Vec::new();
    ranges.push((start, start));
    let mut i: usize = start;
    proof {
        assert(s.take(0) =~= Seq::<char>::empty());
        assert(chars@.subrange(start as int, start as int) =~= Seq::<char>::empty());
        assert(range_texts(chars@, ranges@) =~= split_on(s.take(0), sep));
    }
    while i < end
        invariant
            start <= i <= end <= chars.len(),
            s == chars@.subrange(start as int, end as int),
            ranges.len() >= 1,
            ranges_within(ranges@, i as int),
            ranges@.last().1 == i,
            range_texts(chars@, ranges@) == split_on(s.take(i - start), sep),
        decreases end - i,
    {
        let ghost k = i - start;
        let ghost before = split_on(s.take(k), sep);
        let c = chars[i];
        proof {
            assert(s.take(k + 1).drop_last() =~= s.take(k));
            assert(s.take(k + 1).last() == c);
        }
        if c == sep {
            ranges.push((i + 1, i + 1));
            proof {
                assert(chars@.subrange(i + 1, i + 1) =~= Seq::<char>::empty());
                assert(range_texts(chars@, ranges@) =~= before.push(Seq::<char>::empty()));
            }
        } else {
            let last = ranges.len() - 1;
            let first = ranges[last].0;
            ranges.set(last, (first, i + 1));
            proof {
                assert(before.last() == chars@.subrange(first as int, i as int));
                assert(chars@.subrange(first as int, i as int).push(c) =~= chars@.subrange(
                    first as int,
                    i + 1,
                ));
                assert(range_texts(chars@, ranges@) =~= before.drop_last().push(
                    before.last().push(c),
                ));
            }
        }
        i = i + 1;
    }
    proof {
        assert(s.take(i - start) =~= s);
    }
    ranges
}

/// The numeral of a number is made of digits only, and its value is the
/// number.
pub proof fn lemma_decimal_value(n: nat)
    ensures
        decimal(n).len() > 0,
        all_digits(decimal(n)),
        decimal_value(decimal(n)) == n,
    decreases n,
{
    if n < 10 {
        assert(decimal(n).drop_last() =~= Seq::<char>::empty());
        assert(decimal_value(decimal(n).drop_last()) == 0);
    } else {
        lemma_decimal_value(n / 10);
        let shorter = decimal(n / 10);
        let d = digit_char((n % 10) as int);
        assert(decimal(n).drop_last() =~= shorter);
        assert(decimal(n).last() == d);
        assert forall|i: int| 0 <= i < decimal(n).len() implies (#[trigger] digit_value(
            decimal(n)[i],
        )) is Some by {
            if i < shorter.len() {
                assert(decimal(n)[i] == shorter[i]);
            }
        }
    }
}

/// Reading the numeral of a number that fits in 32 bits gives the number
/// back.
pub proof fn lemma_decimal_round_trip(n: u32)
    ensures
        parse_u32(decimal(n as nat)) == Some(n),
{
    lemma_decimal_value(n as nat);
    assert(digit_value(decimal(n as nat)[0]) is Some);
}

/// Whether a text holds no space.
pub open spec fn no_space(word: Seq<char>) -> bool {
    forall|i: int| 0 <= i < word.len() ==> !is_space(#[trigger] word[i])
}

/// Whether a text holds no `sep`.
pub open spec fn no_separator(part: Seq<char>, sep: char) -> bool {
    forall|i: int| 0 <= i < part.len() ==> #[trigger] part[i] != sep
}

/// A space at the end of a text adds no field.
pub proof fn lemma_fields_after_space(s: Seq<char>, c: char)
    requires
        is_space(c),
    ensures
        split_fields(s.push(c)) == split_fields(s),
{
    assert(s.push(c).drop_last() =~= s);
}

/// A word without a space, put at the beginning of a text or after a
/// space, is one more field.
pub proof fn lemma_fields_after_word(s: Seq<char>, word: Seq<char>)
    requires
        word.len() > 0,
        no_space(word),
        s.len() == 0 || is_space(s.last()),
    ensures
        split_fields(s + word) == split_fields(s).push(word),
    decreases word.len(),
{
    let whole = s + word;
    assert(whole.drop_last() =~= s + word.drop_last());
    assert(whole.last() == word.last());
    assert(!is_space(word[word.len() - 1]));
    if word.len() == 1 {
        assert(s + word.drop_last() =~= s);
        assert(word =~= seq![word.last()]);
        if whole.len() >= 2 {
            assert(whole[whole.len() - 2] == s.last());
        }
    } else {
        let shorter = word.drop_last();
        assert forall|i: int| 0 <= i < shorter.len() implies !is_space(#[trigger] shorter[i]) by {
            assert(shorter[i] == word[i]);
        }
        lemma_fields_after_word(s, shorter);
        assert(whole[whole.len() - 2] == word[word.len() - 2]);
        assert(!is_space(word[word.len() - 2]));
        let before = split_fields(s).push(shorter);
        assert(before.drop_last() =~= split_fields(s));
        assert(shorter.push(word.last()) =~= word);
    }
}

/// Characters other than the separator, put at the end of a text, extend
/// its last part.
pub proof fn lemma_parts_extended(s: Seq<char>, part: Seq<char>, sep: char)
    requires
        no_separator(part, sep),
    ensures
        split_on(s, sep).len() > 0,
        split_on(s + part, sep) == split_on(s, sep).drop_last().push(
            split_on(s, sep).last() + part,
        ),
    decreases part.len(),
{
    lemma_parts_not_empty(s, sep);
    let parts = split_on(s, sep);
    if part.len() == 0 {
        assert(s + part =~= s);
        assert(parts.last() + part =~= parts.last());
        assert(parts.drop_last().push(parts.last()) =~= parts);
    } else {
        let whole = s + part;
        let shorter = part.drop_last();
        assert(whole.drop_last() =~= s + shorter);
        assert(whole.last() == part[part.len() - 1]);
        assert forall|i: int| 0 <= i < shorter.len() implies #[trigger] shorter[i] != sep by {
            assert(shorter[i] == part[i]);
        }
        lemma_parts_extended(s, shorter, sep);
        let before = parts.drop_last().push(parts.last() + shorter);
        assert(before.drop_last() =~= parts.drop_last());
        assert((parts.last() + shorter).push(part.last()) =~= parts.last() + part);
    }
}

/// Every text has at least one part.
pub proof fn lemma_parts_not_empty(s: Seq<char>, sep: char)
    ensures
        split_on(s, sep).len() > 0,
    decreases s.len(),
{
    if s.len() > 0 {
        lemma_parts_not_empty(s.drop_last(), sep);
    }
}

/// A separator and then characters other than the separator, put at the
/// end of a text, are one more part.
pub proof fn lemma_parts_after_separator(s: Seq<char>, part: Seq<char>, sep: char)
    requires
        no_separator(part, sep),
    ensures
        split_on(s.push(sep) + part, sep) == split_on(s, sep).push(part),
{
    let cut = s.push(sep);
    assert(cut.drop_last() =~= s);
    lemma_parts_extended(cut, part, sep);
    let parts = split_on(cut, sep);
    assert(parts == split_on(s, sep).push(Seq::<char>::empty()));
    assert(parts.drop_last() =~= split_on(s, sep));
    assert(parts.last() + part =~= part);
}

/// A text without the separator is its own single part.
pub proof fn lemma_parts_of_one(part: Seq<char>, sep: char)
    requires
        no_separator(part, sep),
    ensures
        split_on(part, sep) == seq![part],
{
    let nothing = Seq::<char>::empty();
    lemma_parts_extended(nothing, part, sep);
    assert(nothing + part =~= part);
    assert(split_on(nothing, sep) == seq![nothing]);
    assert(seq![nothing].drop_last().push(seq![nothing].last() + part) =~= seq![part]);
}

} // verus!
