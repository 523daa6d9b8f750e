//! Numbers and number ranges as the command-line programs read and write
//! them: extended-permission (ioctl) sets, port and key ranges, and
//! integers in the notation of Python's `int()`.
use vstd::prelude::*;
use crate::text::{radix_digits, zero_padded, push_char, push_str, push_radix, chars_of, string_of, owned};
use crate::scan::{decimal_text, pieces, split_on, radix_integer, parse_radix, push_wide_signed, lemma_pieces_nonempty};

verus! {

/// A number in hexadecimal with a `0x` prefix and at least `width` digits.
pub open spec fn hex_text(v: int, width: nat) -> Seq<char> {
    seq!['0', 'x'] + zero_padded(radix_digits(v as nat, 16), width)
}

/// Appends a number in hexadecimal with a `0x` prefix and at least `width`
/// digits.
pub fn push_hex(output: &mut String, value: u128, width: usize)
    ensures
        final(output)@ == old(output)@ + hex_text(value as int, width as nat),
{
    push_char(output, '0');
    push_char(output, 'x');
    push_radix(output, value, 16, width);
    assert(output@ =~= old(output)@ + hex_text(value as int, width as nat));
}

/// A range written as its low end, or as both ends joined by a hyphen.
pub open spec fn range_text(low: Seq<char>, high: Seq<char>, same: bool) -> Seq<char> {
    if same { low } else { low + seq!['-'] + high }
}

/// Writes an ioctl range as four-digit hexadecimal numbers.
pub fn format_xpermission_range(low: u16, high: u16) -> (result: String)
    ensures
        result@ == range_text(hex_text(low as int, 4), hex_text(high as int, 4), low == high),
{
    let mut text = String::new();
    push_hex(&mut text, low as u128, 4);
    if low != high {
        push_char(&mut text, '-');
        push_hex(&mut text, high as u128, 4);
    }
    assert(text@ =~= range_text(hex_text(low as int, 4), hex_text(high as int, 4), low == high));
    text
}

/// The value after `h`, held at the top of the 16-bit range.
pub open spec fn next_up(h: int) -> int {
    if h >= 0xffff { 0xffff } else { h + 1 }
}

/// The runs of a list of values: each value extends the current run when it
/// is the value after the run's high end, and starts a new run otherwise.
pub open spec fn runs(values: Seq<u16>) -> Seq<(int, int)>
    decreases values.len(),
{
    if values.len() == 0 {
        Seq::empty()
    } else {
        let before = runs(values.drop_last());
        let v = values.last() as int;
        if before.len() > 0 && v == next_up(before.last().1) {
            before.update(before.len() - 1, (before.last().0, v))
        } else {
            before.push((v, v))
        }
    }
}

/// Writes a list of ioctl values as ranges of consecutive values.
pub fn xpermission_ranges(values: &Vec<u16>) -> (result: Vec<String>)
    ensures
        result@.len() == runs(values@).len(),
        forall|i: int| 0 <= i < result@.len() ==> #[trigger] result@[i]@ == range_text(
            hex_text(runs(values@)[i].0, 4), hex_text(runs(values@)[i].1, 4), runs(values@)[i].0 == runs(values@)[i].1),
{
    let mut result: Vec<String> = Vec::new();
    if values.len() == 0 {
        return result;
    }
    let mut low: u16 = values[0];
    let mut high: u16 = values[0];
    let mut index: usize = 1;
    proof {
        let first = values@.take(1);
        assert(first.drop_last() =~= Seq::<u16>::empty());
        assert(runs(first.drop_last()) == Seq::<(int, int)>::empty());
        assert(first.last() == values@[0]);
        assert(runs(first) =~= seq![(values@[0] as int, values@[0] as int)]);
    }
    while index < values.len()
        invariant
            1 <= index <= values.len(),
            result@.len() + 1 == runs(values@.take(index as int)).len(),
            runs(values@.take(index as int)).last() == (low as int, high as int),
            forall|i: int| 0 <= i < result@.len() ==> #[trigger] result@[i]@ == range_text(
                hex_text(runs(values@.take(index as int))[i].0, 4), hex_text(runs(values@.take(index as int))[i].1, 4),
                runs(values@.take(index as int))[i].0 == runs(values@.take(index as int))[i].1),
        decreases values.len() - index,
    {
        let value = values[index];
        let ghost prior = values@.take(index as int);
        proof {
            let next = values@.take(index + 1);
            assert(next.drop_last() =~= prior);
            assert(next.last() == value);
        }
        let step = if high == 0xffff { 0xffff } else { high + 1 };
        if value == step {
            high = value;
        } else {
            let text = format_xpermission_range(low, high);
            result.push(text);
            low = value;
            high = value;
        }
        index = index + 1;
    }
    let text = format_xpermission_range(low, high);
    result.push(text);
    assert(values@.take(values.len() as int) =~= values@);
    result
}

/// The digits of a hexadecimal number, without a `0x` or `0X` prefix.
pub open spec fn without_hex_prefix(s: Seq<char>) -> Seq<char> {
    if s.len() >= 2 && s[0] == '0' && (s[1] == 'x' || s[1] == 'X') { s.skip(2) } else { s }
}

/// Copies a list of characters.
fn copy_chars(text: &Vec<char>) -> (result: Vec<char>)
    ensures
        result@ == text@,
{
    let mut result: Vec<char> = Vec::new();
    let mut index: usize = 0;
    while index < text.len()
        invariant
            index <= text.len(),
            result@ == text@.take(index as int),
        decreases text.len() - index,
    {
        result.push(text[index]);
        index = index + 1;
        assert(result@ =~= text@.take(index as int));
    }
    assert(text@.take(text.len() as int) =~= text@);
    result
}

/// Drops a `0x` or `0X` prefix.
fn strip_hex_prefix(text: &Vec<char>) -> (result: Vec<char>)
    ensures
        result@ == without_hex_prefix(text@),
{
    if text.len() >= 2 && text[0] == '0' && (text[1] == 'x' || text[1] == 'X') {
        let mut result: Vec<char> = Vec::new();
        let mut index: usize = 2;
        while index < text.len()
            invariant
                2 <= index <= text.len(),
                result@ == text@.subrange(2, index as int),
            decreases text.len() - index,
        {
            result.push(text[index]);
            index = index + 1;
            assert(result@ =~= text@.subrange(2, index as int));
        }
        assert(result@ =~= text@.skip(2));
        result
    } else {
        copy_chars(text)
    }
}

/// The result of reading an ioctl number: an unsigned 32-bit hexadecimal
/// number with an optional `0x` prefix, which must fit in 16 bits.
pub open spec fn hex_ioctl(value: Seq<char>) -> Result<int, Seq<char>> {
    match radix_integer(without_hex_prefix(value), 16, false) {
        Some(v) => if v > 0xffff_ffff {
            Err("invalid literal for int() with base 16: '"@ + value + "'"@)
        } else if v > 0xffff {
            Err(hex_text(v, 5) + " is not a valid ioctl."@)
        } else {
            Ok(v)
        },
        None => Err("invalid literal for int() with base 16: '"@ + value + "'"@),
    }
}

/// Reads an ioctl number.
pub fn parse_hex(value: &str) -> (result: Result<u16, String>)
    ensures
        match result {
            Ok(v) => hex_ioctl(value@) == Ok::<int, Seq<char>>(v as int),
            Err(message) => hex_ioctl(value@) == Err::<int, Seq<char>>(message@),
        },
{
    let text = chars_of(value);
    let digits = strip_hex_prefix(&text);
    match parse_radix(&digits, 16, false, 0xffff_ffff) {
        None => {
            proof {
                let d = without_hex_prefix(value@);
                crate::scan::lemma_radix_value_nonnegative(d, 16);
                if d.len() > 1 && d[0] == '+' {
                    crate::scan::lemma_radix_value_nonnegative(d.drop_first(), 16);
                }
            }
            let mut message = owned("invalid literal for int() with base 16: '");
            push_str(&mut message, value);
            push_str(&mut message, "'");
            Err(message)
        },
        Some((_, parsed)) => {
            if parsed > 0xffff {
                let mut message = String::new();
                push_hex(&mut message, parsed, 5);
                push_str(&mut message, " is not a valid ioctl.");
                Err(message)
            } else {
                Ok(parsed as u16)
            }
        },
    }
}

/// The values from `low` to `high` inclusive.
pub open spec fn span(low: int, high: int) -> Set<int> {
    Set::new(|v: int| low <= v <= high)
}

/// The ioctl values of one comma-separated item: a number or a range of two
/// numbers in either order.
pub open spec fn xperm_item(item: Seq<char>) -> Result<Set<int>, Seq<char>> {
    let ends = pieces(item, '-');
    if ends.len() == 1 {
        match hex_ioctl(ends[0]) {
            Ok(v) => Ok(span(v, v)),
            Err(message) => Err(message),
        }
    } else if ends.len() == 2 {
        match hex_ioctl(ends[0]) {
            Err(message) => Err(message),
            Ok(low) => match hex_ioctl(ends[1]) {
                Err(message) => Err(message),
                Ok(high) => Ok(if high < low { span(high, low) } else { span(low, high) }),
            },
        }
    } else {
        Err("Unable to parse \""@ + item + "\" for xperms."@)
    }
}

/// The ioctl values of a list of items, or the first item's error.
pub open spec fn xperm_items(items: Seq<Seq<char>>) -> Result<Set<int>, Seq<char>>
    decreases items.len(),
{
    if items.len() == 0 {
        Ok(Set::empty())
    } else {
        match xperm_items(items.drop_last()) {
            Err(message) => Err(message),
            Ok(found) => match xperm_item(items.last()) {
                Err(message) => Err(message),
                Ok(more) => Ok(found.union(more)),
            },
        }
    }
}

/// Once an item fails, the list fails with it.
proof fn lemma_xperm_error_stays(items: Seq<Seq<char>>, k: int)
    requires
        0 <= k <= items.len(),
        xperm_items(items.take(k)) is Err,
    ensures
        xperm_items(items) == xperm_items(items.take(k)),
    decreases items.len(),
{
    if items.len() > k {
        assert(items.drop_last().take(k) =~= items.take(k));
        lemma_xperm_error_stays(items.drop_last(), k);
    } else {
        assert(items.take(k) =~= items);
    }
}

/// The values of a set of ioctl numbers, as integers.
pub open spec fn ioctl_values(set: Set<u16>) -> Set<int> {
    set.map(|v: u16| v as int)
}

/// Reads a comma-separated list of ioctl numbers and ranges.
pub fn parse_xpermissions(value: &str) -> (result: Result<std::collections::BTreeSet<u16>, String>)
    ensures
        match result {
            Ok(set) => xperm_items(pieces(value@, ','))
                == Ok::<Set<int>, Seq<char>>(ioctl_values(set@)),
            Err(message) => xperm_items(pieces(value@, ',')) == Err::<Set<int>, Seq<char>>(message@),
        },
{
    let text = chars_of(value);
    let items = split_on(&text, ',');
    let ghost all = pieces(value@, ',');
    let mut result: std::collections::BTreeSet<u16> = std::collections::BTreeSet::new();
    let mut index: usize = 0;
    assert(all.take(0) =~= Seq::<Seq<char>>::empty());
    assert(ioctl_values(result@) =~= Set::<int>::empty());
    while index < items.len()
        invariant
            all == pieces(value@, ','),
            items@.len() == all.len(),
            forall|i: int| 0 <= i < items@.len() ==> #[trigger] items@[i]@ == all[i],
            index <= items.len(),
            xperm_items(all.take(index as int)) == Ok::<Set<int>, Seq<char>>(ioctl_values(result@)),
        decreases items.len() - index,
    {
        let item = &items[index];
        proof {
            let next = all.take(index + 1);
            assert(next.drop_last() =~= all.take(index as int));
            assert(next.last() == item@);
        }
        let ends = split_on(item, '-');
        let range: Result<(u16, u16), String> = if ends.len() == 1 {
            let single = string_of(&ends[0]);
            match parse_hex(single.as_str()) {
                Ok(v) => Ok((v, v)),
                Err(message) => Err(message),
            }
        } else if ends.len() == 2 {
            let first = string_of(&ends[0]);
            let second = string_of(&ends[1]);
            match parse_hex(first.as_str()) {
                Err(message) => Err(message),
                Ok(low) => match parse_hex(second.as_str()) {
                    Err(message) => Err(message),
                    Ok(high) => if high < low { Ok((high, low)) } else { Ok((low, high)) },
                },
            }
        } else {
            let mut message = owned("Unable to parse \"");
            let whole = string_of(item);
            push_str(&mut message, whole.as_str());
            push_str(&mut message, "\" for xperms.");
            Err(message)
        };
        match range {
            Err(message) => {
                proof {
                    assert(xperm_items(all.take(index + 1)) == Err::<Set<int>, Seq<char>>(message@));
                    lemma_xperm_error_stays(all, index + 1);
                    assert(all.take(all.len() as int) =~= all);
                }
                return Err(message);
            },
            Ok((low, high)) => {
                let ghost before = ioctl_values(result@);
                let mut v: u32 = low as u32;
                while v <= high as u32
                    invariant
                        low <= high,
                        low <= v <= high as u32 + 1,
                        ioctl_values(result@) == before.union(span(low as int, v - 1)),
                    decreases high as u32 + 1 - v,
                {
                    let ghost prior = result@;
                    result.insert(v as u16);
                    proof {
                        assert(result@ == prior.insert(v as u16));
                        assert forall|y: int| ioctl_values(result@).contains(y) <==> before.union(span(low as int, v as int)).contains(y) by {
                            if ioctl_values(result@).contains(y) {
                                let x = choose|x: u16| result@.contains(x) && x as int == y;
                                if x != v as u16 {
                                    assert(prior.contains(x));
                                    assert(ioctl_values(prior).contains(y));
                                }
                            }
                            if before.union(span(low as int, v as int)).contains(y) {
                                if y == v {
                                    assert(result@.contains(v as u16));
                                    assert(ioctl_values(result@).contains((v as u16) as int));
                                } else {
                                    assert(ioctl_values(prior).contains(y));
                                    let x = choose|x: u16| prior.contains(x) && x as int == y;
                                    assert(result@.contains(x));
                                    assert(ioctl_values(result@).contains(x as int));
                                }
                            }
                        }
                        assert(ioctl_values(result@) =~= before.union(span(low as int, v as int)));
                    }
                    v = v + 1;
                }
                proof {
                    assert(xperm_items(all.take(index + 1)) == Ok::<Set<int>, Seq<char>>(before.union(span(low as int, high as int))));
                }
            },
        }
        index = index + 1;
    }
    assert(all.take(items.len() as int) =~= all);
    Ok(result)
}

/// Writes a port range in decimal.
pub fn decimal_range(low: u16, high: u16) -> (result: String)
    ensures
        result@ == range_text(decimal_text(low as int), decimal_text(high as int), low == high),
{
    let mut text = String::new();
    crate::scan::push_count(&mut text, low as usize);
    if low != high {
        push_char(&mut text, '-');
        crate::scan::push_count(&mut text, high as usize);
    }
    assert(text@ =~= range_text(decimal_text(low as int), decimal_text(high as int), low == high));
    text
}

/// Writes a range as hexadecimal numbers of at least four digits.
pub fn hex_range(low: u64, high: u64) -> (result: String)
    ensures
        result@ == range_text(hex_text(low as int, 4), hex_text(high as int, 4), low == high),
{
    let mut text = String::new();
    push_hex(&mut text, low as u128, 4);
    if low != high {
        push_char(&mut text, '-');
        push_hex(&mut text, high as u128, 4);
    }
    assert(text@ =~= range_text(hex_text(low as int, 4), hex_text(high as int, 4), low == high));
    text
}

/// The integer Python's `int()` reads from a text in a radix: an optional
/// leading minus sign, then (in radix sixteen) an optional `0x` or `0X`
/// prefix, then a 128-bit integer with an optional sign.
pub open spec fn python_int(value: Seq<char>, radix: int) -> Option<int> {
    let negative = value.len() > 0 && value[0] == '-';
    let rest = if negative { value.drop_first() } else { value };
    let digits = if radix == 16 { without_hex_prefix(rest) } else { rest };
    match radix_integer(digits, radix, true) {
        Some(v) => if i128::MIN <= v <= i128::MAX {
            Some(if negative { -v } else { v })
        } else {
            None
        },
        None => None,
    }
}

/// The message for a text that is not an integer in the radix.
pub open spec fn int_error(value: Seq<char>, radix: int) -> Seq<char> {
    "invalid literal for int() with base "@ + decimal_text(radix) + ": '"@ + value + "'"@
}

/// Reads an integer as Python's `int()` does.
pub fn parse_python_int(value: &str, radix: u32) -> (result: Result<i128, String>)
    requires
        2 <= radix <= 36,
        !(python_int(value@, radix as int) == Some(-(i128::MIN as int))),
    ensures
        match result {
            Ok(v) => python_int(value@, radix as int) == Some(v as int),
            Err(message) => python_int(value@, radix as int) is None && message@ == int_error(value@, radix as int),
        },
{
    let text = chars_of(value);
    let negative = text.len() > 0 && text[0] == '-';
    let mut rest: Vec<char> = Vec::new();
    let mut index: usize = if negative { 1 } else { 0 };
    while index < text.len()
        invariant
            index <= text.len(),
            negative ==> index >= 1,
            rest@ == text@.subrange(if negative { 1int } else { 0int }, index as int),
        decreases text.len() - index,
    {
        rest.push(text[index]);
        index = index + 1;
        assert(rest@ =~= text@.subrange(if negative { 1int } else { 0int }, index as int));
    }
    proof {
        if negative {
            assert(rest@ =~= value@.drop_first());
        } else {
            assert(rest@ =~= value@);
        }
    }
    let digits = if radix == 16 { strip_hex_prefix(&rest) } else { copy_chars(&rest) };
    let limit: u128 = 0x8000_0000_0000_0000_0000_0000_0000_0000;
    let parsed: Option<i128> = match parse_radix(&digits, radix, true, limit) {
        None => None,
        Some((minus, magnitude)) => {
            if minus {
                if magnitude == limit { Some(i128::MIN) } else { Some(-(magnitude as i128)) }
            } else if magnitude == limit {
                None
            } else {
                Some(magnitude as i128)
            }
        },
    };
    proof {
        crate::scan::lemma_radix_value_nonnegative(digits@, radix as int);
        if digits@.len() > 1 {
            crate::scan::lemma_radix_value_nonnegative(digits@.drop_first(), radix as int);
        }
    }
    match parsed {
        None => {
            let mut message = owned("invalid literal for int() with base ");
            crate::scan::push_count(&mut message, radix as usize);
            push_str(&mut message, ": '");
            push_str(&mut message, value);
            push_str(&mut message, "'");
            assert(message@ =~= int_error(value@, radix as int));
            Err(message)
        },
        Some(v) => {
            if negative {
                Ok(-v)
            } else {
                Ok(v)
            }
        },
    }
}

/// A failure to build a query from command-line values.
#[derive(Debug, PartialEq, Eq)]
pub enum BuildError {
    /// The value does not have the expected form.
    Usage(String),
    /// The value has the expected form but is not acceptable.
    Analysis(String),
}

/// The two ends of a range written as one integer or two integers joined
/// by a hyphen.
pub open spec fn integer_range(value: Seq<char>, radix: int) -> Option<(int, int)> {
    let parts = pieces(value, '-');
    if parts.len() == 1 {
        match python_int(parts[0], radix) {
            Some(v) => Some((v, v)),
            None => None,
        }
    } else if parts.len() == 2 {
        match (python_int(parts[0], radix), python_int(parts[1], radix)) {
            (Some(low), Some(high)) => Some((low, high)),
            _ => None,
        }
    } else {
        None
    }
}

/// The pieces between hyphens hold no hyphen.
proof fn lemma_pieces_without_separator(s: Seq<char>, separator: char)
    ensures
        forall|i: int, k: int| 0 <= i < pieces(s, separator).len() && 0 <= k < pieces(s, separator)[i].len()
            ==> #[trigger] pieces(s, separator)[i][k] != separator,
    decreases s.len(),
{
    if s.len() > 0 {
        lemma_pieces_without_separator(s.drop_last(), separator);
        crate::scan::lemma_pieces_nonempty(s.drop_last(), separator);
        let before = pieces(s.drop_last(), separator);
        if s.last() != separator {
            let after = pieces(s, separator);
            assert forall|i: int, k: int| 0 <= i < after.len() && 0 <= k < after[i].len() implies #[trigger] after[i][k] != separator by {
                if i == before.len() - 1 {
                    assert(after[i] == before.last().push(s.last()));
                    if k < before.last().len() {
                        assert(after[i][k] == before[before.len() - 1][k]);
                    }
                } else {
                    assert(after[i] == before[i]);
                }
            }
        } else {
            let after = pieces(s, separator);
            assert forall|i: int, k: int| 0 <= i < after.len() && 0 <= k < after[i].len() implies #[trigger] after[i][k] != separator by {
                if i < before.len() {
                    assert(after[i] == before[i]);
                }
            }
        }
    }
}

/// Reads a range of integers; on a malformed value, the usage message.
pub fn parse_integer_range(value: &str, radix: u32, usage_message: &str) -> (result: Result<(i128, i128), BuildError>)
    requires
        2 <= radix <= 36,
    ensures
        match result {
            Ok((low, high)) => integer_range(value@, radix as int) == Some((low as int, high as int)),
            Err(BuildError::Usage(message)) => integer_range(value@, radix as int) is None && message@ == usage_message@,
            Err(BuildError::Analysis(_)) => false,
        },
{
    let text = chars_of(value);
    let parts = split_on(&text, '-');
    proof {
        lemma_pieces_without_separator(value@, '-');
    }
    let parsed: Option<(i128, i128)> = if parts.len() == 1 {
        let single = string_of(&parts[0]);
        proof {
            assert(single@ == pieces(value@, '-')[0]);
            if single@.len() > 0 {
                assert(single@[0] != '-');
            }
        }
        match parse_python_int(single.as_str(), radix) {
            Ok(v) => Some((v, v)),
            Err(_) => None,
        }
    } else if parts.len() == 2 {
        let first = string_of(&parts[0]);
        let second = string_of(&parts[1]);
        proof {
            assert(first@ == pieces(value@, '-')[0]);
            assert(second@ == pieces(value@, '-')[1]);
            if first@.len() > 0 {
                assert(first@[0] != '-');
            }
            if second@.len() > 0 {
                assert(second@[0] != '-');
            }
        }
        match (parse_python_int(first.as_str(), radix), parse_python_int(second.as_str(), radix)) {
            (Ok(low), Ok(high)) => Some((low, high)),
            _ => None,
        }
    } else {
        None
    };
    match parsed {
        Some(range) => Ok(range),
        None => Err(BuildError::Usage(owned(usage_message))),
    }
}

/// Writes a range of wide integers in decimal.
pub fn decimal_i128_range(low: i128, high: i128) -> (result: String)
    ensures
        result@ == range_text(decimal_text(low as int), decimal_text(high as int), low == high),
{
    let mut text = String::new();
    push_wide_signed(&mut text, low);
    if low != high {
        push_char(&mut text, '-');
        push_wide_signed(&mut text, high);
    }
    assert(text@ =~= range_text(decimal_text(low as int), decimal_text(high as int), low == high));
    text
}

/// A wide integer in hexadecimal: at least four digits, or a minus sign
/// and at least three digits.
pub open spec fn signed_hex_text(v: int) -> Seq<char> {
    if v < 0 { seq!['-'] + hex_text(-v, 3) } else { hex_text(v, 4) }
}

/// Appends a wide integer in hexadecimal.
fn push_signed_hex(output: &mut String, value: i128)
    ensures
        final(output)@ == old(output)@ + signed_hex_text(value as int),
{
    if value < 0 {
        push_char(output, '-');
        let magnitude: u128 = ((-(value + 1)) as u128) + 1;
        push_hex(output, magnitude, 3);
        assert(output@ =~= old(output)@ + signed_hex_text(value as int));
    } else {
        push_hex(output, value as u128, 4);
    }
}

/// Writes a range of wide integers in hexadecimal.
pub fn hex_i128_range(low: i128, high: i128) -> (result: String)
    ensures
        result@ == range_text(signed_hex_text(low as int), signed_hex_text(high as int), low == high),
{
    let mut text = String::new();
    push_signed_hex(&mut text, low);
    if low != high {
        push_char(&mut text, '-');
        push_signed_hex(&mut text, high);
    }
    assert(text@ =~= range_text(signed_hex_text(low as int), signed_hex_text(high as int), low == high));
    text
}

/// An error as plain values: whether it is a usage error, and its message.
pub open spec fn error_view(error: BuildError) -> (bool, Seq<char>) {
    match error {
        BuildError::Usage(message) => (true, message@),
        BuildError::Analysis(message) => (false, message@),
    }
}

/// The outcome of reading a range and checking it against bounds: the
/// usage message when it is malformed, else the first failed check's
/// message followed by the range as written by `render`.
pub open spec fn checked_range(
    value: Seq<char>,
    radix: int,
    usage: Seq<char>,
    maximum: int,
    too_small: Seq<char>,
    too_large: Seq<char>,
    reversed: Seq<char>,
    render: spec_fn(int, int) -> Seq<char>,
) -> Result<(int, int), (bool, Seq<char>)> {
    match integer_range(value, radix) {
        None => Err((true, usage)),
        Some((low, high)) => if low < 1 || high < 1 {
            Err((false, too_small + render(low, high)))
        } else if low > maximum || high > maximum {
            Err((false, too_large + render(low, high)))
        } else if low > high {
            Err((false, reversed + render(low, high)))
        } else {
            Ok((low, high))
        },
    }
}

/// A range written in decimal.
pub open spec fn decimal_render() -> spec_fn(int, int) -> Seq<char> {
    |low: int, high: int| range_text(decimal_text(low), decimal_text(high), low == high)
}

/// A range written in hexadecimal.
pub open spec fn hex_render() -> spec_fn(int, int) -> Seq<char> {
    |low: int, high: int| range_text(signed_hex_text(low), signed_hex_text(high), low == high)
}

/// Reads and checks a range of integers, with the messages of one kind of
/// range.
fn checked_integer_range(
    value: &str,
    radix: u32,
    usage: &str,
    maximum: i128,
    too_small: &str,
    too_large: &str,
    reversed: &str,
) -> (result: Result<(i128, i128), BuildError>)
    requires
        radix == 10 || radix == 16,
        maximum >= 1,
    ensures
        match result {
            Ok((low, high)) => checked_range(value@, radix as int, usage@, maximum as int, too_small@, too_large@, reversed@,
                if radix == 10 { decimal_render() } else { hex_render() }) == Ok::<(int, int), (bool, Seq<char>)>((low as int, high as int)),
            Err(error) => checked_range(value@, radix as int, usage@, maximum as int, too_small@, too_large@, reversed@,
                if radix == 10 { decimal_render() } else { hex_render() }) == Err::<(int, int), (bool, Seq<char>)>(error_view(error)),
        },
{
    let (low, high) = match parse_integer_range(value, radix, usage) {
        Ok(range) => range,
        Err(error) => {
            return Err(error);
        },
    };
    let check = if low < 1 || high < 1 {
        1u8
    } else if low > maximum || high > maximum {
        2u8
    } else if low > high {
        3u8
    } else {
        0u8
    };
    if check == 0 {
        return Ok((low, high));
    }
    let mut message = owned(if check == 1 { too_small } else if check == 2 { too_large } else { reversed });
    let rendered = if radix == 10 { decimal_i128_range(low, high) } else { hex_i128_range(low, high) };
    push_str(&mut message, rendered.as_str());
    Err(BuildError::Analysis(message))
}

/// Reads a port range: decimal port numbers from 1 to 65535, low first.
pub fn parse_port_range(value: &str) -> (result: Result<(u16, u16), BuildError>)
    ensures
        match result {
            Ok((low, high)) => checked_range(value@, 10, "Enter a port number or range, e.g. 22 or 6000-6020"@, 0xffff,
                "Port numbers must be >= 1: "@, "Port numbers must be <= 65535: "@, "The low port must be <= the high port: "@,
                decimal_render()) == Ok::<(int, int), (bool, Seq<char>)>((low as int, high as int)),
            Err(error) => checked_range(value@, 10, "Enter a port number or range, e.g. 22 or 6000-6020"@, 0xffff,
                "Port numbers must be >= 1: "@, "Port numbers must be <= 65535: "@, "The low port must be <= the high port: "@,
                decimal_render()) == Err::<(int, int), (bool, Seq<char>)>(error_view(error)),
        },
{
    let (low, high) = checked_integer_range(value, 10, "Enter a port number or range, e.g. 22 or 6000-6020", 0xffff,
        "Port numbers must be >= 1: ", "Port numbers must be <= 65535: ", "The low port must be <= the high port: ")?;
    Ok((low as u16, high as u16))
}

/// Reads a partition-key range: hexadecimal keys from 0x0001 to 0xffff, low
/// first.
pub fn parse_pkey_range(value: &str) -> (result: Result<(u16, u16), BuildError>)
    ensures
        match result {
            Ok((low, high)) => checked_range(value@, 16, "Enter a pkey number or range, e.g. 0x22 or 0x6000-0x6020"@, 0xffff,
                "Partition keys must be >= 0x0001: "@, "Partition keys must be <= 0xffff: "@,
                "The low partition key must be <= the high partition key: "@,
                hex_render()) == Ok::<(int, int), (bool, Seq<char>)>((low as int, high as int)),
            Err(error) => checked_range(value@, 16, "Enter a pkey number or range, e.g. 0x22 or 0x6000-0x6020"@, 0xffff,
                "Partition keys must be >= 0x0001: "@, "Partition keys must be <= 0xffff: "@,
                "The low partition key must be <= the high partition key: "@,
                hex_render()) == Err::<(int, int), (bool, Seq<char>)>(error_view(error)),
        },
{
    let (low, high) = checked_integer_range(value, 16, "Enter a pkey number or range, e.g. 0x22 or 0x6000-0x6020", 0xffff,
        "Partition keys must be >= 0x0001: ", "Partition keys must be <= 0xffff: ",
        "The low partition key must be <= the high partition key: ")?;
    Ok((low as u16, high as u16))
}

/// Reads an I/O memory range: hexadecimal addresses from 0x0001 to 0xffff,
/// low first.
pub fn parse_iomem_range(value: &str) -> (result: Result<(u64, u64), BuildError>)
    ensures
        match result {
            Ok((low, high)) => checked_range(value@, 16, "Enter an IO memory address or range, e.g. 0x22 or 0x6000-0x6020"@, 0xffff,
                "Memory address must be >= 0x0001: "@, "Memory address must be <= 0xffff: "@,
                "The low mem addr must be smaller than the high mem addr: "@,
                hex_render()) == Ok::<(int, int), (bool, Seq<char>)>((low as int, high as int)),
            Err(error) => checked_range(value@, 16, "Enter an IO memory address or range, e.g. 0x22 or 0x6000-0x6020"@, 0xffff,
                "Memory address must be >= 0x0001: "@, "Memory address must be <= 0xffff: "@,
                "The low mem addr must be smaller than the high mem addr: "@,
                hex_render()) == Err::<(int, int), (bool, Seq<char>)>(error_view(error)),
        },
{
    let (low, high) = checked_integer_range(value, 16, "Enter an IO memory address or range, e.g. 0x22 or 0x6000-0x6020", 0xffff,
        "Memory address must be >= 0x0001: ", "Memory address must be <= 0xffff: ",
        "The low mem addr must be smaller than the high mem addr: ")?;
    Ok((low as u64, high as u64))
}

/// Reads an I/O port range: hexadecimal ports from 0x0001 to 0xffff, low
/// first.
pub fn parse_ioport_range(value: &str) -> (result: Result<(u32, u32), BuildError>)
    ensures
        match result {
            Ok((low, high)) => checked_range(value@, 16, "Enter an IO port number or range, e.g. 0x22 or 0x6000-0x6020"@, 0xffff,
                "Port numbers must be >= 0x0001: "@, "Port numbers must be <= 0xffff: "@,
                "The low port must be smaller than the high port: "@,
                hex_render()) == Ok::<(int, int), (bool, Seq<char>)>((low as int, high as int)),
            Err(error) => checked_range(value@, 16, "Enter an IO port number or range, e.g. 0x22 or 0x6000-0x6020"@, 0xffff,
                "Port numbers must be >= 0x0001: "@, "Port numbers must be <= 0xffff: "@,
                "The low port must be smaller than the high port: "@,
                hex_render()) == Err::<(int, int), (bool, Seq<char>)>(error_view(error)),
        },
{
    let (low, high) = checked_integer_range(value, 16, "Enter an IO port number or range, e.g. 0x22 or 0x6000-0x6020", 0xffff,
        "Port numbers must be >= 0x0001: ", "Port numbers must be <= 0xffff: ",
        "The low port must be smaller than the high port: ")?;
    Ok((low as u32, high as u32))
}

} // verus!
