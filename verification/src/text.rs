//! Character-level building blocks of the colour grammar: whitespace
//! trimming, splitting on a separator, decimal and hexadecimal digits.
//!
//! Every executable function works on a `Vec<char>` and a pair of indices,
//! and its contract speaks of the corresponding `Seq<char>`.

use vstd::prelude::*;

verus! {

/// The characters with the Unicode property `White_Space`.
pub open spec fn is_white_space(c: char) -> bool {
    ||| '\u{0009}' <= c <= '\u{000D}'
    ||| c == '\u{0020}'
    ||| c == '\u{0085}'
    ||| c == '\u{00A0}'
    ||| c == '\u{1680}'
    ||| '\u{2000}' <= c <= '\u{200A}'
    ||| c == '\u{2028}'
    ||| c == '\u{2029}'
    ||| c == '\u{202F}'
    ||| c == '\u{205F}'
    ||| c == '\u{3000}'
}

/// `s` without its leading white space.
pub open spec fn trim_start(s: Seq<char>) -> Seq<char>
    decreases s.len(),
{
    if s.len() > 0 && is_white_space(s.first()) {
        trim_start(s.drop_first())
    } else {
        s
    }
}

/// `s` without its trailing white space.
pub open spec fn trim_end(s: Seq<char>) -> Seq<char>
    decreases s.len(),
{
    if s.len() > 0 && is_white_space(s.last()) {
        trim_end(s.drop_last())
    } else {
        s
    }
}

/// `s` without the white space on either side.
pub open spec fn trim(s: Seq<char>) -> Seq<char> {
    trim_end(trim_start(s))
}

/// Tells whether `c` is white space.
pub fn is_whitespace(c: char) -> (b: bool)
    ensures
        b == is_white_space(c),
{
    ('\u{0009}' <= c && c <= '\u{000D}') || c == '\u{0020}' || c == '\u{0085}' || c == '\u{00A0}'
        || c == '\u{1680}' || ('\u{2000}' <= c && c <= '\u{200A}') || c == '\u{2028}' || c
        == '\u{2029}' || c == '\u{202F}' || c == '\u{205F}' || c == '\u{3000}'
}

/// Holds where `s` is made of white space only.
pub open spec fn all_white_space(s: Seq<char>) -> bool {
    forall|i: int| 0 <= i < s.len() ==> is_white_space(#[trigger] s[i])
}

/// White space in front of a text does not change what is left of it.
pub proof fn lemma_trim_start_skips(space: Seq<char>, s: Seq<char>)
    requires
        all_white_space(space),
    ensures
        trim_start(space + s) == trim_start(s),
    decreases space.len(),
{
    if space.len() > 0 {
        assert((space + s).drop_first() == space.drop_first() + s);
        lemma_trim_start_skips(space.drop_first(), s);
    }
}

/// White space behind a text does not change what is left of it.
pub proof fn lemma_trim_end_skips(s: Seq<char>, space: Seq<char>)
    requires
        all_white_space(space),
    ensures
        trim_end(s + space) == trim_end(s),
    decreases space.len(),
{
    if space.len() > 0 {
        assert((s + space).drop_last() == s + space.drop_last());
        lemma_trim_end_skips(s, space.drop_last());
    }
}

/// What is left of a text after its leading white space is gone: nothing
/// where the text is white space only, and else something that begins with
/// another character.
pub proof fn lemma_trim_start_result(s: Seq<char>)
    ensures
        all_white_space(s) ==> trim_start(s).len() == 0,
        !all_white_space(s) ==> trim_start(s).len() > 0 && !is_white_space(trim_start(s).first()),
    decreases s.len(),
{
    if s.len() > 0 && is_white_space(s.first()) {
        lemma_trim_start_result(s.drop_first());
        if all_white_space(s) {
            assert(all_white_space(s.drop_first()));
        } else {
            let i = choose|i: int| 0 <= i < s.len() && !is_white_space(#[trigger] s[i]);
            assert(s.drop_first()[i - 1] == s[i]);
        }
    }
}

/// Trimming the leading white space of a text that is followed by another:
/// where the first is white space only, the second is trimmed, and else the
/// second stays as it is.
pub proof fn lemma_trim_start_of_two(s: Seq<char>, t: Seq<char>)
    ensures
        trim_start(s + t) == if all_white_space(s) {
            trim_start(t)
        } else {
            trim_start(s) + t
        },
    decreases s.len(),
{
    if all_white_space(s) {
        lemma_trim_start_skips(s, t);
    } else {
        let i = choose|i: int| 0 <= i < s.len() && !is_white_space(#[trigger] s[i]);
        if is_white_space(s.first()) {
            assert((s + t).drop_first() == s.drop_first() + t);
            assert(s.drop_first()[i - 1] == s[i]);
            lemma_trim_start_of_two(s.drop_first(), t);
        }
    }
}

/// White space on either side of a text does not change what trimming
/// leaves of it.
pub proof fn lemma_trim_ignores_white_space(before: Seq<char>, s: Seq<char>, after: Seq<char>)
    requires
        all_white_space(before),
        all_white_space(after),
    ensures
        trim(before + s + after) == trim(s),
{
    assert(before + s + after == before + (s + after));
    lemma_trim_start_skips(before, s + after);
    lemma_trim_start_of_two(s, after);
    lemma_trim_start_result(s);
    lemma_trim_start_result(after);
    if !all_white_space(s) {
        lemma_trim_end_skips(trim_start(s), after);
    }
}

/// Finds the part of `s[from..to]` that is left once the white space on
/// either side is taken away, as a pair of indices into `s`.
pub fn trim_range(s: &Vec<char>, from: usize, to: usize) -> (range: (usize, usize))
    requires
        from <= to <= s.len(),
    ensures
        from <= range.0 <= range.1 <= to,
        s@.subrange(range.0 as int, range.1 as int) == trim(s@.subrange(from as int, to as int)),
{
    let mut start: usize = from;
    while start < to && is_whitespace(s[start])
        invariant
            from <= start <= to <= s.len(),
            trim_start(s@.subrange(from as int, to as int)) == trim_start(
                s@.subrange(start as int, to as int),
            ),
        decreases to - start,
    {
        assert(s@.subrange(start as int, to as int).drop_first() == s@.subrange(
            start as int + 1,
            to as int,
        ));
        start += 1;
    }
    let mut end: usize = to;
    while start < end && is_whitespace(s[end - 1])
        invariant
            start <= end <= to <= s.len(),
            trim_end(s@.subrange(start as int, to as int)) == trim_end(
                s@.subrange(start as int, end as int),
            ),
        decreases end - start,
    {
        assert(s@.subrange(start as int, end as int).drop_last() == s@.subrange(
            start as int,
            end as int - 1,
        ));
        end -= 1;
    }
    (start, end)
}

/// The pieces of `s` that lie between the occurrences of `sep`, in order.
/// There is one piece more than there are separators, and a piece may be
/// empty.
pub open spec fn split(s: Seq<char>, sep: char) -> Seq<Seq<char>>
    decreases s.len(),
{
    if s.len() == 0 {
        seq![Seq::<char>::empty()]
    } else {
        let before = split(s.drop_last(), sep);
        if s.last() == sep {
            before.push(Seq::<char>::empty())
        } else {
            before.drop_last().push(before.last().push(s.last()))
        }
    }
}

/// Splitting always gives at least one piece.
pub proof fn lemma_split_nonempty(s: Seq<char>, sep: char)
    ensures
        split(s, sep).len() >= 1,
    decreases s.len(),
{
    if s.len() > 0 {
        lemma_split_nonempty(s.drop_last(), sep);
    }
}

/// A text without the separator is one piece.
pub proof fn lemma_split_without_separator(s: Seq<char>, sep: char)
    requires
        !s.contains(sep),
    ensures
        split(s, sep) == seq![s],
    decreases s.len(),
{
    if s.len() == 0 {
        assert(s == Seq::<char>::empty());
    } else {
        assert(!s.drop_last().contains(sep));
        lemma_split_without_separator(s.drop_last(), sep);
        assert(s.drop_last().push(s.last()) == s);
    }
}

/// Two texts with the separator between them give the pieces of the first,
/// then the pieces of the second.
pub proof fn lemma_split_at_separator(a: Seq<char>, b: Seq<char>, sep: char)
    ensures
        split(a + seq![sep] + b, sep) == split(a, sep) + split(b, sep),
    decreases b.len(),
{
    let whole = a + seq![sep] + b;
    if b.len() == 0 {
        assert(whole.drop_last() == a);
    } else {
        assert(whole.drop_last() == a + seq![sep] + b.drop_last());
        lemma_split_at_separator(a, b.drop_last(), sep);
        lemma_split_nonempty(b.drop_last(), sep);
    }
}

/// Splits `s` on `sep` and gives each piece as a pair of indices into `s`.
pub fn split_ranges(s: &Vec<char>, sep: char) -> (pieces: Vec<(usize, usize)>)
    ensures
        pieces@.len() == split(s@, sep).len(),
        forall|k: int|
            0 <= k < pieces@.len() ==> {
                &&& (#[trigger] pieces@[k]).0 <= pieces@[k].1 <= s@.len()
                &&& s@.subrange(pieces@[k].0 as int, pieces@[k].1 as int) == split(s@, sep)[k]
            },
{
    let mut pieces: Vec<(usize, usize)> = Vec::new();
    let mut start: usize = 0;
    let mut i: usize = 0;
    while i < s.len()
        invariant
            start <= i <= s.len(),
            split(s@.take(i as int), sep).len() == pieces@.len() + 1,
            split(s@.take(i as int), sep).last() == s@.subrange(start as int, i as int),
            forall|k: int|
                0 <= k < pieces@.len() ==> {
                    &&& (#[trigger] pieces@[k]).0 <= pieces@[k].1 <= s@.len()
                    &&& s@.subrange(pieces@[k].0 as int, pieces@[k].1 as int) == split(
                        s@.take(i as int),
                        sep,
                    )[k]
                },
        decreases s.len() - i,
    {
        assert(s@.take(i as int + 1).drop_last() == s@.take(i as int));
        if s[i] == sep {
            pieces.push((start, i));
            start = i + 1;
        }
        i += 1;
    }
    pieces.push((start, i));
    assert(s@.take(i as int) == s@);
    pieces
}

/// The ten decimal digits.
pub open spec fn is_decimal_digit(c: char) -> bool {
    '0' <= c <= '9'
}

/// What a decimal digit counts for.
pub open spec fn decimal_digit_value(c: char) -> nat
    recommends
        is_decimal_digit(c),
{
    (c as u32 - '0' as u32) as nat
}

/// Holds where `s` is made of decimal digits only.
pub open spec fn all_decimal_digits(s: Seq<char>) -> bool {
    forall|i: int| 0 <= i < s.len() ==> is_decimal_digit(#[trigger] s[i])
}

/// The number that the decimal digits of `s` write, most significant first.
pub open spec fn decimal_value(s: Seq<char>) -> nat
    recommends
        all_decimal_digits(s),
    decreases s.len(),
{
    if s.len() == 0 {
        0
    } else {
        decimal_value(s.drop_last()) * 10 + decimal_digit_value(s.last())
    }
}

/// The 8-bit number that `s` writes in decimal: an optional `+`, then one or
/// more decimal digits and nothing else, with a value of at most 255.
/// Leading zeros are allowed.
pub open spec fn parse_u8(s: Seq<char>) -> Option<u8> {
    let digits = if s.len() > 0 && s.first() == '+' {
        s.drop_first()
    } else {
        s
    };
    if digits.len() > 0 && all_decimal_digits(digits) && decimal_value(digits) <= 255 {
        Some(decimal_value(digits) as u8)
    } else {
        None
    }
}

/// A number written in decimal is at least the number that any of its
/// prefixes writes.
pub proof fn lemma_decimal_value_prefix(s: Seq<char>, k: int)
    requires
        0 <= k <= s.len(),
    ensures
        decimal_value(s.take(k)) <= decimal_value(s),
    decreases s.len() - k,
{
    if k == s.len() {
        assert(s.take(k) == s);
    } else {
        lemma_decimal_value_prefix(s.drop_last(), k);
        assert(s.drop_last().take(k) == s.take(k));
    }
}

/// Reads `s[from..to]` as an 8-bit decimal number.
pub fn parse_u8_range(s: &Vec<char>, from: usize, to: usize) -> (value: Option<u8>)
    requires
        from <= to <= s.len(),
    ensures
        value == parse_u8(s@.subrange(from as int, to as int)),
{
    let ghost whole = s@.subrange(from as int, to as int);
    let first: usize = if from < to && s[from] == '+' {
        from + 1
    } else {
        from
    };
    let ghost digits = s@.subrange(first as int, to as int);
    if first == to {
        return None;
    }
    let mut value: u8 = 0;
    let mut i: usize = first;
    while i < to
        invariant
            first <= i <= to <= s.len(),
            first < to,
            whole == s@.subrange(from as int, to as int),
            digits == s@.subrange(first as int, to as int),
            digits == if whole.len() > 0 && whole.first() == '+' {
                whole.drop_first()
            } else {
                whole
            },
            all_decimal_digits(digits.take(i - first)),
            value == decimal_value(digits.take(i - first)),
        decreases to - i,
    {
        let c: char = s[i];
        assert(digits.take(i - first + 1).drop_last() == digits.take(i - first));
        if !('0' <= c && c <= '9') {
            assert(!is_decimal_digit(digits[i - first]));
            return None;
        }
        let digit: u8 = (c as u32 - '0' as u32) as u8;
        if value > 25 || (value == 25 && digit > 5) {
            proof {
                if all_decimal_digits(digits) {
                    lemma_decimal_value_prefix(digits, i - first + 1);
                }
            }
            return None;
        }
        value = value * 10 + digit;
        i += 1;
    }
    assert(digits.take(to - first) == digits);
    Some(value)
}

/// The hexadecimal digits, in either case.
pub open spec fn is_hex_digit(c: char) -> bool {
    ||| '0' <= c <= '9'
    ||| 'a' <= c <= 'f'
    ||| 'A' <= c <= 'F'
}

/// What a hexadecimal digit counts for.
pub open spec fn hex_digit_value(c: char) -> nat
    recommends
        is_hex_digit(c),
{
    if '0' <= c <= '9' {
        (c as u32 - '0' as u32) as nat
    } else if 'a' <= c <= 'f' {
        (c as u32 - 'a' as u32 + 10) as nat
    } else {
        (c as u32 - 'A' as u32 + 10) as nat
    }
}

/// Holds where `s` is made of hexadecimal digits only.
pub open spec fn all_hex_digits(s: Seq<char>) -> bool {
    forall|i: int| 0 <= i < s.len() ==> is_hex_digit(#[trigger] s[i])
}

/// The number that two hexadecimal digits write.
pub open spec fn hex_pair_value(high: char, low: char) -> nat
    recommends
        is_hex_digit(high),
        is_hex_digit(low),
{
    16 * hex_digit_value(high) + hex_digit_value(low)
}

/// Reads one hexadecimal digit.
pub fn hex_digit(c: char) -> (value: Option<u8>)
    ensures
        value.is_some() == is_hex_digit(c),
        value matches Some(v) ==> v == hex_digit_value(c),
{
    if '0' <= c && c <= '9' {
        Some((c as u32 - '0' as u32) as u8)
    } else if 'a' <= c && c <= 'f' {
        Some((c as u32 - 'a' as u32 + 10) as u8)
    } else if 'A' <= c && c <= 'F' {
        Some((c as u32 - 'A' as u32 + 10) as u8)
    } else {
        None
    }
}

/// Reads two hexadecimal digits as one 8-bit number.
pub fn hex_pair(high: char, low: char) -> (value: Option<u8>)
    ensures
        value.is_some() == (is_hex_digit(high) && is_hex_digit(low)),
        value matches Some(v) ==> v == hex_pair_value(high, low),
{
    match (hex_digit(high), hex_digit(low)) {
        (Some(h), Some(l)) => Some(h * 16 + l),
        _ => None,
    }
}

/// The character that writes a number below ten.
pub open spec fn decimal_digit_char(d: nat) -> char
    recommends
        d < 10,
{
    ((d + 48) as u8) as char
}

/// A number written in decimal, without leading zeros.
pub open spec fn decimal(n: nat) -> Seq<char>
    decreases n,
{
    if n < 10 {
        seq![decimal_digit_char(n)]
    } else {
        decimal(n / 10).push(decimal_digit_char(n % 10))
    }
}

/// What is written in decimal reads back as the same number.
pub proof fn lemma_decimal_reads_back(n: nat)
    ensures
        decimal(n).len() > 0,
        decimal(n).first() != '+',
        all_decimal_digits(decimal(n)),
        decimal_value(decimal(n)) == n,
        n <= 255 ==> parse_u8(decimal(n)) == Some(n as u8),
    decreases n,
{
    if n >= 10 {
        lemma_decimal_reads_back(n / 10);
        assert(decimal(n).drop_last() == decimal(n / 10));
    }
    assert(decimal_value(decimal(n)) == decimal_value(decimal(n).drop_last()) * 10
        + decimal_digit_value(decimal(n).last()));
}

/// A number below ten as a text of one character.
pub fn digit_text(d: u8) -> (text: &'static str)
    requires
        d < 10,
    ensures
        text@ == seq![decimal_digit_char(d as nat)],
{
    proof {
        reveal_strlit("0");
        reveal_strlit("1");
        reveal_strlit("2");
        reveal_strlit("3");
        reveal_strlit("4");
        reveal_strlit("5");
        reveal_strlit("6");
        reveal_strlit("7");
        reveal_strlit("8");
        reveal_strlit("9");
    }
    match d {
        0 => "0",
        1 => "1",
        2 => "2",
        3 => "3",
        4 => "4",
        5 => "5",
        6 => "6",
        7 => "7",
        8 => "8",
        _ => "9",
    }
}

/// Writes a number in decimal.
pub fn decimal_text(n: u128) -> (text: String)
    ensures
        text@ == decimal(n as nat),
{
    let mut text = String::from_str(digit_text((n % 10) as u8));
    let mut rest: u128 = n / 10;
    while rest > 0
        invariant
            decimal(n as nat) == if rest > 0 {
                decimal(rest as nat) + text@
            } else {
                text@
            },
        decreases rest,
    {
        let mut longer = String::from_str(digit_text((rest % 10) as u8));
        longer.append(text.as_str());
        text = longer;
        rest = rest / 10;
    }
    text
}

} // verus!
