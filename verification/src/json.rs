//! JSON text for structured output.
use vstd::prelude::*;
use crate::text::{digit_char, digit_value, push_char, push_str, chars_of};

verus! {

/// The JSON escape of one character: the two-character escapes for quote,
/// backslash, backspace, form feed, newline, carriage return and tab, a
/// `\u00XX` escape for other control characters, the character otherwise.
pub open spec fn escape_char(c: char) -> Seq<char> {
    if c == '"' {
        seq!['\\', '"']
    } else if c == '\\' {
        seq!['\\', '\\']
    } else if c == '\u{8}' {
        seq!['\\', 'b']
    } else if c == '\u{c}' {
        seq!['\\', 'f']
    } else if c == '\n' {
        seq!['\\', 'n']
    } else if c == '\r' {
        seq!['\\', 'r']
    } else if c == '\t' {
        seq!['\\', 't']
    } else if c <= '\u{1f}' {
        seq!['\\', 'u', '0', '0', digit_char((c as int) / 16), digit_char((c as int) % 16)]
    } else {
        seq![c]
    }
}

/// The JSON escapes of each character of a text, in order.
pub open spec fn escaped_text(s: Seq<char>) -> Seq<char>
    decreases s.len(),
{
    if s.len() == 0 {
        Seq::empty()
    } else {
        escaped_text(s.drop_last()) + escape_char(s.last())
    }
}

/// A text as a JSON string value.
pub open spec fn json_string(s: Seq<char>) -> Seq<char> {
    seq!['"'] + escaped_text(s) + seq!['"']
}

/// Appends the JSON escape of one character.
fn push_escaped(output: &mut String, c: char)
    ensures
        final(output)@ == old(output)@ + escape_char(c),
{
    if c == '"' {
        push_char(output, '\\');
        push_char(output, '"');
    } else if c == '\\' {
        push_char(output, '\\');
        push_char(output, '\\');
    } else if c == '\u{8}' {
        push_char(output, '\\');
        push_char(output, 'b');
    } else if c == '\u{c}' {
        push_char(output, '\\');
        push_char(output, 'f');
    } else if c == '\n' {
        push_char(output, '\\');
        push_char(output, 'n');
    } else if c == '\r' {
        push_char(output, '\\');
        push_char(output, 'r');
    } else if c == '\t' {
        push_char(output, '\\');
        push_char(output, 't');
    } else if c <= '\u{1f}' {
        let value = c as u32;
        push_char(output, '\\');
        push_char(output, 'u');
        push_char(output, '0');
        push_char(output, '0');
        push_char(output, crate::text::digit((value / 16) as u128));
        push_char(output, crate::text::digit((value % 16) as u128));
    } else {
        push_char(output, c);
    }
    assert(output@ =~= old(output)@ + escape_char(c));
}

/// Appends one JSON string value.
pub fn push_string(output: &mut String, value: &str)
    ensures
        final(output)@ == old(output)@ + json_string(value@),
{
    let text = chars_of(value);
    push_char(output, '"');
    let ghost start = output@;
    let mut index: usize = 0;
    assert(text@.take(0) =~= Seq::<char>::empty());
    assert(start + escaped_text(text@.take(0)) =~= start);
    while index < text.len()
        invariant
            index <= text.len(),
            output@ == start + escaped_text(text@.take(index as int)),
        decreases text.len() - index,
    {
        let c = text[index];
        proof {
            let next = text@.take(index + 1);
            assert(next.drop_last() =~= text@.take(index as int));
            assert(next.last() == c);
        }
        push_escaped(output, c);
        index = index + 1;
        assert(output@ =~= start + escaped_text(text@.take(index as int)));
    }
    push_char(output, '"');
    assert(text@.take(text.len() as int) =~= value@);
    assert(output@ =~= old(output)@ + json_string(value@));
}

/// JSON string values separated by commas.
pub open spec fn json_strings(values: Seq<Seq<char>>) -> Seq<char>
    decreases values.len(),
{
    if values.len() == 0 {
        Seq::empty()
    } else if values.len() == 1 {
        json_string(values[0])
    } else {
        json_strings(values.drop_last()) + seq![','] + json_string(values.last())
    }
}

/// Appends JSON string values separated by commas.
pub fn push_json_strings(output: &mut String, values: &Vec<String>)
    ensures
        final(output)@ == old(output)@ + json_strings(crate::text::texts(values@)),
{
    let ghost start = output@;
    let ghost all = crate::text::texts(values@);
    let mut index: usize = 0;
    assert(all.take(0) =~= Seq::<Seq<char>>::empty());
    assert(start + json_strings(all.take(0)) =~= start);
    while index < values.len()
        invariant
            all == crate::text::texts(values@),
            index <= values.len(),
            output@ == start + json_strings(all.take(index as int)),
        decreases values.len() - index,
    {
        let ghost before = output@;
        if index > 0 {
            push_char(output, ',');
        }
        push_string(output, values[index].as_str());
        proof {
            let next = all.take(index + 1);
            assert(next.drop_last() =~= all.take(index as int));
            assert(next.last() == values@[index as int]@);
            assert(output@ =~= start + json_strings(next));
        }
        index = index + 1;
    }
    assert(all.take(values.len() as int) =~= all);
}

/// Appends a JSON string value, or `null` when there is none.
pub fn push_json_optional_string(output: &mut String, value: Option<&str>)
    ensures
        match value {
            Some(v) => final(output)@ == old(output)@ + json_string(v@),
            None => final(output)@ == old(output)@ + "null"@,
        },
{
    match value {
        Some(v) => push_string(output, v),
        None => push_str(output, "null"),
    }
}

/// The JSON literal of a Boolean.
pub fn json_boolean(value: bool) -> (result: &'static str)
    ensures
        result@ == (if value { "true"@ } else { "false"@ }),
{
    if value { "true" } else { "false" }
}


/// The character a two-character escape stands for, if `e` ends one.
pub open spec fn simple_escape(e: char) -> Option<char> {
    if e == '"' { Some('"') }
    else if e == '\\' { Some('\\') }
    else if e == '/' { Some('/') }
    else if e == 'b' { Some('\u{8}') }
    else if e == 'f' { Some('\u{c}') }
    else if e == 'n' { Some('\n') }
    else if e == 'r' { Some('\r') }
    else if e == 't' { Some('\t') }
    else { None }
}

/// The value of four hexadecimal digits.
pub open spec fn hex4(t: Seq<char>) -> Option<int> {
    match (digit_value(t[0], 16), digit_value(t[1], 16), digit_value(t[2], 16), digit_value(t[3], 16)) {
        (Some(a), Some(b), Some(c), Some(d)) => Some(((a * 16 + b) * 16 + c) * 16 + d),
        _ => None,
    }
}

/// A character put before a decoded text.
pub open spec fn prepend(c: char, rest: Option<Seq<char>>) -> Option<Seq<char>> {
    match rest {
        Some(r) => Some(seq![c] + r),
        None => None,
    }
}

/// The text the inside of a JSON string stands for (RFC 8259, for
/// characters of the basic multilingual plane that are not surrogates), or
/// `None` where it is not a valid string body: a raw quote or control
/// character, or an unknown or cut escape.
pub open spec fn json_decode(t: Seq<char>) -> Option<Seq<char>>
    decreases t.len(),
{
    if t.len() == 0 {
        Some(Seq::empty())
    } else if t[0] == '\\' {
        if t.len() < 2 {
            None
        } else {
            match simple_escape(t[1]) {
                Some(c) => prepend(c, json_decode(t.skip(2))),
                None => if t[1] == 'u' && t.len() >= 6 {
                    match hex4(t.subrange(2, 6)) {
                        Some(v) => if v < 0xD800 || (0xE000 <= v && v <= 0xFFFF) {
                            prepend(v as char, json_decode(t.skip(6)))
                        } else {
                            None
                        },
                        None => None,
                    }
                } else {
                    None
                },
            }
        }
    } else if t[0] == '"' || t[0] <= '\u{1f}' {
        None
    } else {
        prepend(t[0], json_decode(t.skip(1)))
    }
}

/// Escaping a character and then the rest is escaping the whole.
proof fn lemma_escaped_front(c: char, s: Seq<char>)
    ensures
        escaped_text(seq![c] + s) == escape_char(c) + escaped_text(s),
    decreases s.len(),
{
    if s.len() == 0 {
        assert(seq![c] + s =~= seq![c]);
        assert((seq![c] + s).drop_last() =~= Seq::<char>::empty());
        assert(escaped_text(Seq::<char>::empty()) =~= Seq::<char>::empty());
        assert(escape_char(c) + escaped_text(s) =~= escape_char(c));
        assert(escaped_text(seq![c]) =~= escaped_text(Seq::<char>::empty()) + escape_char(c));
    } else {
        lemma_escaped_front(c, s.drop_last());
        assert((seq![c] + s).drop_last() =~= seq![c] + s.drop_last());
        assert((seq![c] + s).last() == s.last());
        assert(escaped_text(seq![c] + s) =~= escape_char(c) + escaped_text(s));
    }
}

/// A hexadecimal digit reads back as its value.
proof fn lemma_digit_round_trip(d: int)
    requires
        0 <= d < 16,
    ensures
        digit_value(digit_char(d), 16) == Some(d),
{
}

/// Decoding an escaped character and a decodable rest gives the character
/// and the rest.
proof fn lemma_decode_escape(c: char, rest: Seq<char>)
    ensures
        json_decode(escape_char(c) + rest) == prepend(c, json_decode(rest)),
{
    let t = escape_char(c) + rest;
    if c == '"' || c == '\\' || c == '\u{8}' || c == '\u{c}' || c == '\n' || c == '\r' || c == '\t' {
        assert(t.skip(2) =~= rest);
    } else if c <= '\u{1f}' {
        let v = c as int;
        lemma_digit_round_trip(v / 16);
        lemma_digit_round_trip(v % 16);
        lemma_digit_round_trip(0);
        assert(t[0] == '\\' && t[1] == 'u');
        assert(t.subrange(2, 6) =~= seq!['0', '0', digit_char(v / 16), digit_char(v % 16)]);
        assert(hex4(t.subrange(2, 6)) == Some(v));
        assert(t.skip(6) =~= rest);
        assert((v as char) == c);
    } else {
        assert(t[0] == c);
        assert(t.skip(1) =~= rest);
    }
}

/// A JSON string body decodes back to the text it escapes, and holds no
/// raw control character.
pub proof fn law_json_string_decodes_to_its_text(s: Seq<char>)
    ensures
        json_decode(escaped_text(s)) == Some(s),
        forall|i: int| 0 <= i < escaped_text(s).len() ==> escaped_text(s)[i] > '\u{1f}',
    decreases s.len(),
{
    if s.len() == 0 {
        assert(escaped_text(s) =~= Seq::<char>::empty());
    } else {
        let rest = s.drop_first();
        law_json_string_decodes_to_its_text(rest);
        assert(s =~= seq![s[0]] + rest);
        lemma_escaped_front(s[0], rest);
        lemma_decode_escape(s[0], escaped_text(rest));
        assert(seq![s[0]] + rest =~= s);
        let c = s[0];
        let e = escape_char(c);
        assert forall|i: int| 0 <= i < e.len() implies e[i] > '\u{1f}' by {
            if c <= '\u{1f}' && !(c == '\u{8}' || c == '\u{c}' || c == '\n' || c == '\r' || c == '\t') {
                let v = c as int;
                if i == 4 {
                    assert(0 <= v / 16 < 16);
                } else if i == 5 {
                    assert(0 <= v % 16 < 16);
                }
            }
        }
        assert forall|i: int| 0 <= i < escaped_text(s).len() implies escaped_text(s)[i] > '\u{1f}' by {
            if i < e.len() {
                assert(escaped_text(s)[i] == e[i]);
            } else {
                assert(escaped_text(s)[i] == escaped_text(rest)[i - e.len()]);
            }
        }
    }
}

} // verus!
