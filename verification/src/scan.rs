//! Reading line-based text: lines, whitespace-separated words, and signed
//! decimal integers.
use vstd::prelude::*;
use crate::text::{radix_digits, push_char, push_radix};

verus! {

/// Unicode white space, the characters that separate words.
pub open spec fn is_space(c: char) -> bool {
    ||| ('\u{9}' <= c && c <= '\u{d}')
    ||| c == ' '
    ||| c == '\u{85}'
    ||| c == '\u{a0}'
    ||| c == '\u{1680}'
    ||| ('\u{2000}' <= c && c <= '\u{200a}')
    ||| c == '\u{2028}'
    ||| c == '\u{2029}'
    ||| c == '\u{202f}'
    ||| c == '\u{205f}'
    ||| c == '\u{3000}'
}

/// Whether a character is Unicode white space.
pub fn space(c: char) -> (result: bool)
    ensures
        result == is_space(c),
{
    ('\u{9}' <= c && c <= '\u{d}') || c == ' ' || c == '\u{85}' || c == '\u{a0}' || c == '\u{1680}'
        || ('\u{2000}' <= c && c <= '\u{200a}') || c == '\u{2028}' || c == '\u{2029}'
        || c == '\u{202f}' || c == '\u{205f}' || c == '\u{3000}'
}

/// The pieces of a text between line feeds, in order.  A text ending in a
/// line feed has an empty last piece.
pub open spec fn lines_of(s: Seq<char>) -> Seq<Seq<char>>
    decreases s.len(),
{
    if s.len() == 0 {
        seq![Seq::empty()]
    } else {
        let before = lines_of(s.drop_last());
        if s.last() == '\n' {
            before.push(Seq::empty())
        } else {
            before.update(before.len() - 1, before.last().push(s.last()))
        }
    }
}

/// There is always at least one line.
pub proof fn lemma_lines_nonempty(s: Seq<char>)
    ensures
        lines_of(s).len() >= 1,
    decreases s.len(),
{
    if s.len() > 0 {
        lemma_lines_nonempty(s.drop_last());
    }
}

/// The maximal runs of characters other than white space, in order.
pub open spec fn words_of(s: Seq<char>) -> Seq<Seq<char>>
    decreases s.len(),
{
    if s.len() == 0 {
        Seq::empty()
    } else {
        let before = words_of(s.drop_last());
        let c = s.last();
        if is_space(c) {
            before
        } else if s.len() >= 2 && !is_space(s[s.len() - 2]) {
            before.update(before.len() - 1, before.last().push(c))
        } else {
            before.push(seq![c])
        }
    }
}

/// A text ending in a word character has at least one word.
pub proof fn lemma_words_nonempty(s: Seq<char>)
    requires
        s.len() > 0,
        !is_space(s.last()),
    ensures
        words_of(s).len() >= 1,
    decreases s.len(),
{
    if s.len() >= 2 && !is_space(s[s.len() - 2]) {
        assert(s.drop_last().last() == s[s.len() - 2]);
        lemma_words_nonempty(s.drop_last());
    }
}

/// Every word is nonempty.
pub proof fn lemma_words_not_empty(s: Seq<char>)
    ensures
        forall|i: int| 0 <= i < words_of(s).len() ==> #[trigger] words_of(s)[i].len() > 0,
    decreases s.len(),
{
    if s.len() > 0 {
        lemma_words_not_empty(s.drop_last());
        let c = s.last();
        if !is_space(c) && s.len() >= 2 && !is_space(s[s.len() - 2]) {
            assert(s.drop_last().last() == s[s.len() - 2]);
            lemma_words_nonempty(s.drop_last());
        }
    }
}

/// Splits text at line feeds.
pub fn split_lines(text: &Vec<char>) -> (lines: Vec<Vec<char>>)
    ensures
        lines@.len() == lines_of(text@).len(),
        forall|i: int| 0 <= i < lines@.len() ==> #[trigger] lines@[i]@ == lines_of(text@)[i],
{
    let mut lines: Vec<Vec<char>> = Vec::new();
    let mut current: Vec<char> = Vec::new();
    let mut index: usize = 0;
    assert(text@.take(0) =~= Seq::<char>::empty());
    while index < text.len()
        invariant
            index <= text.len(),
            lines@.len() + 1 == lines_of(text@.take(index as int)).len(),
            forall|i: int| 0 <= i < lines@.len() ==> #[trigger] lines@[i]@ == lines_of(text@.take(index as int))[i],
            current@ == lines_of(text@.take(index as int)).last(),
        decreases text.len() - index,
    {
        let c = text[index];
        proof {
            let s = text@.take(index + 1);
            assert(s.drop_last() =~= text@.take(index as int));
            assert(s.last() == c);
            lemma_lines_nonempty(text@.take(index as int));
        }
        if c == '\n' {
            let finished = current;
            lines.push(finished);
            current = Vec::new();
            assert(current@ =~= Seq::<char>::empty());
        } else {
            current.push(c);
        }
        index = index + 1;
    }
    assert(text@.take(text.len() as int) =~= text@);
    lines.push(current);
    lines
}

/// Splits a line into words at white space.
pub fn split_words(line: &Vec<char>) -> (words: Vec<Vec<char>>)
    ensures
        words@.len() == words_of(line@).len(),
        forall|i: int| 0 <= i < words@.len() ==> #[trigger] words@[i]@ == words_of(line@)[i],
{
    let mut words: Vec<Vec<char>> = Vec::new();
    let mut current: Vec<char> = Vec::new();
    let mut in_word = false;
    let mut index: usize = 0;
    assert(line@.take(0) =~= Seq::<char>::empty());
    while index < line.len()
        invariant
            index <= line.len(),
            in_word == (index > 0 && !is_space(line@[index - 1])),
            in_word ==> words@.len() + 1 == words_of(line@.take(index as int)).len(),
            in_word ==> current@ == words_of(line@.take(index as int)).last(),
            !in_word ==> words@.len() == words_of(line@.take(index as int)).len(),
            forall|i: int| 0 <= i < words@.len() ==> #[trigger] words@[i]@ == words_of(line@.take(index as int))[i],
        decreases line.len() - index,
    {
        let c = line[index];
        let ghost s = line@.take(index + 1);
        proof {
            assert(s.drop_last() =~= line@.take(index as int));
            assert(s.last() == c);
            if index > 0 {
                assert(s[s.len() - 2] == line@[index - 1]);
            }
        }
        if space(c) {
            if in_word {
                let finished = current;
                words.push(finished);
                current = Vec::new();
            }
            in_word = false;
        } else {
            if !in_word {
                current = Vec::new();
            }
            current.push(c);
            in_word = true;
            proof {
                if !(index > 0 && !is_space(line@[index - 1])) {
                    assert(current@ =~= seq![c]);
                }
            }
        }
        index = index + 1;
    }
    assert(line@.take(line.len() as int) =~= line@);
    if in_word {
        words.push(current);
    }
    words
}

/// The value of a decimal digit character.
pub open spec fn decimal_digit(c: char) -> Option<int> {
    if c == '0' { Some(0) }
    else if c == '1' { Some(1) }
    else if c == '2' { Some(2) }
    else if c == '3' { Some(3) }
    else if c == '4' { Some(4) }
    else if c == '5' { Some(5) }
    else if c == '6' { Some(6) }
    else if c == '7' { Some(7) }
    else if c == '8' { Some(8) }
    else if c == '9' { Some(9) }
    else { None }
}

/// The value of a run of decimal digits; `None` if a character is not one.
pub open spec fn digits_value(d: Seq<char>) -> Option<int>
    decreases d.len(),
{
    if d.len() == 0 {
        Some(0)
    } else {
        match (digits_value(d.drop_last()), decimal_digit(d.last())) {
            (Some(high), Some(low)) => Some(high * 10 + low),
            _ => None,
        }
    }
}

/// A value read from a run of digits is never negative.
pub proof fn lemma_digits_value_nonnegative(d: Seq<char>)
    ensures
        digits_value(d) matches Some(v) ==> v >= 0,
    decreases d.len(),
{
    if d.len() > 0 {
        lemma_digits_value_nonnegative(d.drop_last());
    }
}

/// The integer written as an optional sign followed by at least one decimal
/// digit.
pub open spec fn integer_value(s: Seq<char>) -> Option<int> {
    if s.len() == 0 {
        None
    } else if s[0] == '+' || s[0] == '-' {
        if s.len() == 1 {
            None
        } else {
            match digits_value(s.drop_first()) {
                Some(v) => Some(if s[0] == '-' { -v } else { v }),
                None => None,
            }
        }
    } else {
        digits_value(s)
    }
}

/// The integer written in `s`, if it is one that fits in an `i64`.
pub open spec fn i64_value(s: Seq<char>) -> Option<int> {
    match integer_value(s) {
        Some(v) => if i64::MIN <= v <= i64::MAX { Some(v) } else { None },
        None => None,
    }
}

/// The value of a decimal digit character.
pub fn digit_of(c: char) -> (result: Option<u8>)
    ensures
        match result {
            Some(d) => decimal_digit(c) == Some(d as int),
            None => decimal_digit(c) is None,
        },
{
    if c == '0' { Some(0) }
    else if c == '1' { Some(1) }
    else if c == '2' { Some(2) }
    else if c == '3' { Some(3) }
    else if c == '4' { Some(4) }
    else if c == '5' { Some(5) }
    else if c == '6' { Some(6) }
    else if c == '7' { Some(7) }
    else if c == '8' { Some(8) }
    else if c == '9' { Some(9) }
    else { None }
}

/// Reads a signed decimal integer that fits in an `i64`.
pub fn parse_i64(text: &Vec<char>) -> (result: Option<i64>)
    ensures
        match result {
            Some(v) => i64_value(text@) == Some(v as int),
            None => i64_value(text@) is None,
        },
{
    let limit: u128 = 0x8000_0000_0000_0000;
    if text.len() == 0 {
        return None;
    }
    let signed = text[0] == '+' || text[0] == '-';
    let negative = text[0] == '-';
    let start: usize = if signed { 1 } else { 0 };
    if signed && text.len() == 1 {
        return None;
    }
    let ghost body = if signed { text@.drop_first() } else { text@ };
    let mut value: u128 = 0;
    let mut too_large = false;
    let mut index: usize = start;
    assert(text@.subrange(start as int, start as int) =~= Seq::<char>::empty());
    assert(body =~= text@.subrange(start as int, text.len() as int));
    while index < text.len()
        invariant
            start <= index <= text.len(),
            limit == 0x8000_0000_0000_0000u128,
            body == text@.subrange(start as int, text.len() as int),
            body == if signed { text@.drop_first() } else { text@ },
            text.len() > 0,
            signed == (text@[0] == '+' || text@[0] == '-'),
            signed ==> text.len() > 1,
            digits_value(text@.subrange(start as int, index as int)) is Some,
            !too_large ==> digits_value(text@.subrange(start as int, index as int)) == Some(value as int),
            !too_large ==> value <= limit,
            too_large ==> digits_value(text@.subrange(start as int, index as int)).unwrap() > limit,
        decreases text.len() - index,
    {
        let ghost before = text@.subrange(start as int, index as int);
        let ghost after = text@.subrange(start as int, index + 1);
        assert(after.drop_last() =~= before);
        assert(after.last() == text@[index as int]);
        match digit_of(text[index]) {
            Some(d) => {
                proof {
                    lemma_digits_value_nonnegative(before);
                }
                if !too_large {
                    let next = value * 10 + d as u128;
                    if next > limit {
                        too_large = true;
                    } else {
                        value = next;
                    }
                }
            },
            None => {
                proof {
                    let full = text@.subrange(start as int, text.len() as int);
                    assert(full.take((index + 1 - start) as int) =~= after);
                    lemma_digits_prefix_none(full, (index + 1 - start) as int);
                }
                return None;
            },
        }
        index = index + 1;
    }
    assert(text@.subrange(start as int, text.len() as int) =~= text@.subrange(start as int, index as int));
    if too_large {
        None
    } else if negative {
        if value == limit {
            Some(i64::MIN)
        } else {
            let magnitude = value as i64;
            Some(-magnitude)
        }
    } else if value == limit {
        None
    } else {
        Some(value as i64)
    }
}

/// A run with a non-digit in its first `k` characters has no value.
pub proof fn lemma_digits_prefix_none(d: Seq<char>, k: int)
    requires
        0 <= k <= d.len(),
        digits_value(d.take(k)) is None,
    ensures
        digits_value(d) is None,
    decreases d.len(),
{
    if d.len() > k {
        assert(d.drop_last().take(k) =~= d.take(k));
        lemma_digits_prefix_none(d.drop_last(), k);
    } else {
        assert(d.take(k) =~= d);
    }
}

/// Decimal text of an integer, with a leading minus sign when negative.
pub open spec fn decimal_text(v: int) -> Seq<char> {
    if v < 0 {
        seq!['-'] + radix_digits((-v) as nat, 10)
    } else {
        radix_digits(v as nat, 10)
    }
}

/// Appends the decimal text of a signed integer.
pub fn push_signed(output: &mut String, value: i64)
    ensures
        final(output)@ == old(output)@ + decimal_text(value as int),
{
    if value < 0 {
        push_char(output, '-');
        let magnitude: u128 = (0i128 - value as i128) as u128;
        push_radix(output, magnitude, 10, 0);
        assert(output@ =~= old(output)@ + decimal_text(value as int));
    } else {
        push_radix(output, value as u128, 10, 0);
    }
}

/// Appends the decimal text of a count.
pub fn push_count(output: &mut String, value: usize)
    ensures
        final(output)@ == old(output)@ + decimal_text(value as int),
{
    push_radix(output, value as u128, 10, 0);
}

/// The pieces of a text between occurrences of `separator`, in order; a
/// text with no separator is one piece.
pub open spec fn pieces(s: Seq<char>, separator: char) -> Seq<Seq<char>>
    decreases s.len(),
{
    if s.len() == 0 {
        seq![Seq::empty()]
    } else {
        let before = pieces(s.drop_last(), separator);
        if s.last() == separator {
            before.push(Seq::empty())
        } else {
            before.update(before.len() - 1, before.last().push(s.last()))
        }
    }
}

/// There is always at least one piece.
pub proof fn lemma_pieces_nonempty(s: Seq<char>, separator: char)
    ensures
        pieces(s, separator).len() >= 1,
    decreases s.len(),
{
    if s.len() > 0 {
        lemma_pieces_nonempty(s.drop_last(), separator);
    }
}

/// Splits text at a separator character.
pub fn split_on(text: &Vec<char>, separator: char) -> (result: Vec<Vec<char>>)
    ensures
        result@.len() == pieces(text@, separator).len(),
        forall|i: int| 0 <= i < result@.len() ==> #[trigger] result@[i]@ == pieces(text@, separator)[i],
{
    let mut result: Vec<Vec<char>> = Vec::new();
    let mut current: Vec<char> = Vec::new();
    let mut index: usize = 0;
    assert(text@.take(0) =~= Seq::<char>::empty());
    while index < text.len()
        invariant
            index <= text.len(),
            result@.len() + 1 == pieces(text@.take(index as int), separator).len(),
            forall|i: int| 0 <= i < result@.len() ==> #[trigger] result@[i]@ == pieces(text@.take(index as int), separator)[i],
            current@ == pieces(text@.take(index as int), separator).last(),
        decreases text.len() - index,
    {
        let c = text[index];
        proof {
            let s = text@.take(index + 1);
            assert(s.drop_last() =~= text@.take(index as int));
            assert(s.last() == c);
            lemma_pieces_nonempty(text@.take(index as int), separator);
        }
        if c == separator {
            let finished = current;
            result.push(finished);
            current = Vec::new();
            assert(current@ =~= Seq::<char>::empty());
        } else {
            current.push(c);
        }
        index = index + 1;
    }
    assert(text@.take(text.len() as int) =~= text@);
    result.push(current);
    result
}

/// The value of a run of digits in a radix; `None` if a character is not
/// a digit of the radix.
pub open spec fn radix_value(d: Seq<char>, radix: int) -> Option<int>
    decreases d.len(),
{
    if d.len() == 0 {
        Some(0)
    } else {
        match (radix_value(d.drop_last(), radix), crate::text::digit_value(d.last(), radix)) {
            (Some(high), Some(low)) => Some(high * radix + low),
            _ => None,
        }
    }
}

/// A value read from digits is never negative.
pub proof fn lemma_radix_value_nonnegative(d: Seq<char>, radix: int)
    requires
        radix >= 2,
    ensures
        radix_value(d, radix) matches Some(v) ==> v >= 0,
    decreases d.len(),
{
    if d.len() > 0 {
        lemma_radix_value_nonnegative(d.drop_last(), radix);
        match (radix_value(d.drop_last(), radix), crate::text::digit_value(d.last(), radix)) {
            (Some(high), Some(low)) => {
                assert(high * radix >= 0) by (nonlinear_arith)
                    requires
                        high >= 0,
                        radix >= 2,
                ;
            },
            _ => {},
        }
    }
}

/// A run with a non-digit in its first `k` characters has no value.
pub proof fn lemma_radix_prefix_none(d: Seq<char>, radix: int, k: int)
    requires
        0 <= k <= d.len(),
        radix_value(d.take(k), radix) is None,
    ensures
        radix_value(d, radix) is None,
    decreases d.len(),
{
    if d.len() > k {
        assert(d.drop_last().take(k) =~= d.take(k));
        lemma_radix_prefix_none(d.drop_last(), radix, k);
    } else {
        assert(d.take(k) =~= d);
    }
}

/// The integer written as an optional sign and at least one digit of the
/// radix; a minus sign only when `signed`.
pub open spec fn radix_integer(s: Seq<char>, radix: int, signed: bool) -> Option<int> {
    if s.len() == 0 {
        None
    } else if s[0] == '+' || (signed && s[0] == '-') {
        if s.len() == 1 {
            None
        } else {
            match radix_value(s.drop_first(), radix) {
                Some(v) => Some(if s[0] == '-' { -v } else { v }),
                None => None,
            }
        }
    } else {
        radix_value(s, radix)
    }
}

/// The value of a digit character in a radix.
pub fn digit_in_radix(c: char, radix: u32) -> (result: Option<u32>)
    requires
        2 <= radix <= 36,
    ensures
        match result {
            Some(d) => crate::text::digit_value(c, radix as int) == Some(d as int),
            None => crate::text::digit_value(c, radix as int) is None,
        },
{
    let code = c as u32;
    let value: u32 = if '0' <= c && c <= '9' {
        code - ('0' as u32)
    } else if 'a' <= c && c <= 'z' {
        code - ('a' as u32) + 10
    } else if 'A' <= c && c <= 'Z' {
        code - ('A' as u32) + 10
    } else {
        radix
    };
    if value < radix { Some(value) } else { None }
}

/// Reads an integer in a radix whose magnitude is at most `limit`, as
/// `from_str_radix` does for an integer type with that bound: an optional
/// sign (a minus sign only when `signed`), then digits.  The result holds
/// the sign and the magnitude.
pub fn parse_radix(text: &Vec<char>, radix: u32, signed: bool, limit: u128) -> (result: Option<(bool, u128)>)
    requires
        2 <= radix <= 36,
        limit <= 0x8000_0000_0000_0000_0000_0000_0000_0000,
    ensures
        match result {
            Some((negative, magnitude)) => radix_integer(text@, radix as int, signed)
                == Some(if negative { -(magnitude as int) } else { magnitude as int })
                && magnitude <= limit
                && (negative ==> signed),
            None => radix_integer(text@, radix as int, signed) is None
                || (radix_integer(text@, radix as int, signed) matches Some(v) && (v > limit || -v > limit)),
        },
{
    if text.len() == 0 {
        return None;
    }
    let has_sign = text[0] == '+' || (signed && text[0] == '-');
    let negative = signed && text[0] == '-';
    let start: usize = if has_sign { 1 } else { 0 };
    if has_sign && text.len() == 1 {
        return None;
    }
    let ghost body = if has_sign { text@.drop_first() } else { text@ };
    let mut value: u128 = 0;
    let mut too_large = false;
    let mut index: usize = start;
    proof {
        lemma_radix_value_nonnegative(body, radix as int);
    }
    assert(text@.subrange(start as int, start as int) =~= Seq::<char>::empty());
    assert(body =~= text@.subrange(start as int, text.len() as int));
    while index < text.len()
        invariant
            2 <= radix <= 36,
            limit <= 0x8000_0000_0000_0000_0000_0000_0000_0000,
            start <= index <= text.len(),
            body == text@.subrange(start as int, text.len() as int),
            body == if has_sign { text@.drop_first() } else { text@ },
            text.len() > 0,
            has_sign == (text@[0] == '+' || (signed && text@[0] == '-')),
            negative == (signed && text@[0] == '-'),
            has_sign ==> text.len() > 1,
            start == (if has_sign { 1usize } else { 0usize }),
            radix_value(text@.subrange(start as int, index as int), radix as int) is Some,
            !too_large ==> radix_value(text@.subrange(start as int, index as int), radix as int) == Some(value as int),
            !too_large ==> value <= limit,
            too_large ==> radix_value(text@.subrange(start as int, index as int), radix as int).unwrap() > limit,
        decreases text.len() - index,
    {
        let ghost before = text@.subrange(start as int, index as int);
        let ghost after = text@.subrange(start as int, index + 1);
        assert(after.drop_last() =~= before);
        assert(after.last() == text@[index as int]);
        match digit_in_radix(text[index], radix) {
            Some(d) => {
                proof {
                    lemma_radix_value_nonnegative(before, radix as int);
                }
                let ghost high = radix_value(before, radix as int).unwrap();
                if !too_large {
                    match value.checked_mul(radix as u128) {
                        Some(scaled) => match scaled.checked_add(d as u128) {
                            Some(next) => {
                                if next > limit {
                                    too_large = true;
                                } else {
                                    value = next;
                                }
                            },
                            None => {
                                too_large = true;
                            },
                        },
                        None => {
                            too_large = true;
                        },
                    }
                } else {
                    assert(high * radix + (d as int) > limit) by (nonlinear_arith)
                        requires
                            high > limit,
                            radix >= 2,
                            d >= 0,
                            limit >= 0,
                    ;
                }
            },
            None => {
                proof {
                    let full = text@.subrange(start as int, text.len() as int);
                    assert(full.take((index + 1 - start) as int) =~= after);
                    lemma_radix_prefix_none(full, radix as int, (index + 1 - start) as int);
                }
                return None;
            },
        }
        index = index + 1;
    }
    assert(text@.subrange(start as int, text.len() as int) =~= text@.subrange(start as int, index as int));
    if too_large {
        None
    } else {
        Some((negative, value))
    }
}

/// Appends the decimal text of a wide signed integer.
pub fn push_wide_signed(output: &mut String, value: i128)
    ensures
        final(output)@ == old(output)@ + decimal_text(value as int),
{
    if value < 0 {
        push_char(output, '-');
        let magnitude: u128 = ((-(value + 1)) as u128) + 1;
        push_radix(output, magnitude, 10, 0);
        assert(output@ =~= old(output)@ + decimal_text(value as int));
    } else {
        push_radix(output, value as u128, 10, 0);
    }
}

/// A text without its leading white space.
pub open spec fn trim_start(s: Seq<char>) -> Seq<char>
    decreases s.len(),
{
    if s.len() > 0 && is_space(s[0]) { trim_start(s.drop_first()) } else { s }
}

/// A text without its trailing white space.
pub open spec fn trim_end(s: Seq<char>) -> Seq<char>
    decreases s.len(),
{
    if s.len() > 0 && is_space(s.last()) { trim_end(s.drop_last()) } else { s }
}

/// A text without its leading and trailing white space.
pub open spec fn trimmed(s: Seq<char>) -> Seq<char> {
    trim_end(trim_start(s))
}

/// Removes leading and trailing white space.
pub fn trim(text: &Vec<char>) -> (result: Vec<char>)
    ensures
        result@ == trimmed(text@),
{
    let mut start: usize = 0;
    assert(text@.skip(0) =~= text@);
    while start < text.len() && space(text[start])
        invariant
            start <= text.len(),
            trim_start(text@) == trim_start(text@.skip(start as int)),
        decreases text.len() - start,
    {
        assert(text@.skip(start as int).drop_first() =~= text@.skip(start + 1));
        start = start + 1;
    }
    let mut end: usize = text.len();
    let ghost front = text@.skip(start as int);
    assert(front.take(front.len() as int) =~= front);
    while end > start && space(text[end - 1])
        invariant
            start <= end <= text.len(),
            front == text@.skip(start as int),
            trim_end(front) == trim_end(text@.subrange(start as int, end as int)),
        decreases end,
    {
        assert(text@.subrange(start as int, end as int).drop_last() =~= text@.subrange(start as int, end - 1));
        end = end - 1;
    }
    let mut result: Vec<char> = Vec::new();
    let mut k: usize = start;
    while k < end
        invariant
            start <= k <= end,
            end <= text.len(),
            result@ == text@.subrange(start as int, k as int),
        decreases end - k,
    {
        result.push(text[k]);
        k = k + 1;
        assert(result@ =~= text@.subrange(start as int, k as int));
    }
    proof {
        if start < text.len() {
            assert(trim_start(text@.skip(start as int)) == text@.skip(start as int));
        } else {
            assert(text@.skip(start as int) =~= Seq::<char>::empty());
        }
        let rest = text@.subrange(start as int, end as int);
        if end > start {
            assert(trim_end(rest) == rest);
        }
    }
    result
}

/// A character with an ASCII capital letter made small.
pub open spec fn ascii_lower(c: char) -> char {
    if 'A' <= c && c <= 'Z' { ((c as int) + 32) as char } else { c }
}

/// A text with its ASCII capital letters made small.
pub open spec fn ascii_lowercase(s: Seq<char>) -> Seq<char> {
    s.map_values(|c: char| ascii_lower(c))
}

/// Makes the ASCII capital letters of a text small.
pub fn lowercase_ascii(text: &Vec<char>) -> (result: Vec<char>)
    ensures
        result@ == ascii_lowercase(text@),
{
    let mut result: Vec<char> = Vec::new();
    let mut index: usize = 0;
    while index < text.len()
        invariant
            index <= text.len(),
            result@ == ascii_lowercase(text@).take(index as int),
        decreases text.len() - index,
    {
        let c = text[index];
        let lower = if 'A' <= c && c <= 'Z' { ((c as u8) + 32) as char } else { c };
        result.push(lower);
        index = index + 1;
        assert(result@ =~= ascii_lowercase(text@).take(index as int));
    }
    assert(ascii_lowercase(text@).take(text.len() as int) =~= ascii_lowercase(text@));
    result
}

} // verus!
