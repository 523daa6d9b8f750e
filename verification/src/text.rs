//! Character-level text helpers shared by the renderers and parsers.
//!
//! Text is reasoned about through its view, a `Seq<char>`.  Names are ordered
//! by Unicode scalar value, which is the order `String` comparison uses.
use vstd::prelude::*;

verus! {

/// Appends one character to a string.
#[verifier::external_body]
pub fn push_char(output: &mut String, value: char)
    ensures
        final(output)@ == old(output)@.push(value),
{
    output.push(value);
}

/// Appends a string slice to a string.
pub fn push_str(output: &mut String, value: &str)
    ensures
        final(output)@ == old(output)@ + value@,
{
    output.append(value);
}

/// Returns the characters of a string slice.
pub fn chars_of(value: &str) -> (result: Vec<char>)
    ensures
        result@ == value@,
{
    let mut result: Vec<char> = Vec::new();
    let count = value.unicode_len();
    let mut index: usize = 0;
    while index < count
        invariant
            count == value@.len(),
            index <= count,
            result@ == value@.take(index as int),
        decreases count - index,
    {
        let c = value.get_char(index);
        result.push(c);
        index = index + 1;
        assert(result@ =~= value@.take(index as int));
    }
    assert(result@ =~= value@);
    result
}

/// Builds a string holding the given characters.
pub fn string_of(value: &Vec<char>) -> (result: String)
    ensures
        result@ == value@,
{
    let mut result = String::new();
    let mut index: usize = 0;
    while index < value.len()
        invariant
            index <= value.len(),
            result@ == value@.take(index as int),
        decreases value.len() - index,
    {
        push_char(&mut result, value[index]);
        index = index + 1;
        assert(result@ =~= value@.take(index as int));
    }
    assert(result@ =~= value@);
    result
}

/// The characters from `start` up to `end`.
pub fn slice_chars(text: &Vec<char>, start: usize, end: usize) -> (result: Vec<char>)
    requires
        start <= end <= text@.len(),
    ensures
        result@ == text@.subrange(start as int, end as int),
{
    let mut result: Vec<char> = Vec::new();
    let mut index: usize = start;
    while index < end
        invariant
            start <= index <= end <= text@.len(),
            result@ == text@.subrange(start as int, index as int),
        decreases end - index,
    {
        result.push(text[index]);
        index = index + 1;
        assert(result@ =~= text@.subrange(start as int, index as int));
    }
    result
}

/// Copies a string slice into an owned string.
pub fn owned(value: &str) -> (result: String)
    ensures
        result@ == value@,
{
    let mut result = String::new();
    push_str(&mut result, value);
    assert(result@ =~= value@);
    result
}

/// Whether two strings hold the same characters.
pub fn same_text(left: &str, right: &str) -> (result: bool)
    ensures
        result == (left@ == right@),
{
    let a = chars_of(left);
    let b = chars_of(right);
    if a.len() != b.len() {
        return false;
    }
    let mut index: usize = 0;
    while index < a.len()
        invariant
            a@ == left@,
            b@ == right@,
            a.len() == b.len(),
            index <= a.len(),
            forall|k: int| 0 <= k < index ==> a@[k] == b@[k],
        decreases a.len() - index,
    {
        if a[index] != b[index] {
            return false;
        }
        index = index + 1;
    }
    assert(a@ =~= b@);
    true
}

/// The lowercase hexadecimal digit for a value below sixteen.
pub open spec fn digit_char(digit: int) -> char {
    if digit == 0 { '0' }
    else if digit == 1 { '1' }
    else if digit == 2 { '2' }
    else if digit == 3 { '3' }
    else if digit == 4 { '4' }
    else if digit == 5 { '5' }
    else if digit == 6 { '6' }
    else if digit == 7 { '7' }
    else if digit == 8 { '8' }
    else if digit == 9 { '9' }
    else if digit == 10 { 'a' }
    else if digit == 11 { 'b' }
    else if digit == 12 { 'c' }
    else if digit == 13 { 'd' }
    else if digit == 14 { 'e' }
    else { 'f' }
}

/// The value of a digit character in the given radix, if it is one.
pub open spec fn digit_value(c: char, radix: int) -> Option<int> {
    let v = if '0' <= c && c <= '9' {
        c as int - '0' as int
    } else if 'a' <= c && c <= 'z' {
        c as int - 'a' as int + 10
    } else if 'A' <= c && c <= 'Z' {
        c as int - 'A' as int + 10
    } else {
        radix
    };
    if v < radix { Some(v) } else { None }
}

/// Digits of a natural number in a radix between two and sixteen, most
/// significant first, without leading zeros.
pub open spec fn radix_digits(value: nat, radix: nat) -> Seq<char>
    decreases value,
{
    if radix < 2 || value < radix {
        seq![digit_char(value as int)]
    } else {
        proof {
            assert(value / radix < value) by (nonlinear_arith)
                requires
                    radix >= 2,
                    value >= radix,
            ;
        }
        radix_digits(value / radix, radix).push(digit_char((value % radix) as int))
    }
}

/// A digit sequence left-padded with zeros to at least `width` characters.
pub open spec fn zero_padded(digits: Seq<char>, width: nat) -> Seq<char> {
    if digits.len() < width {
        Seq::new((width - digits.len()) as nat, |i: int| '0') + digits
    } else {
        digits
    }
}

/// The digit character for a value below sixteen.
pub fn digit(value: u128) -> (result: char)
    ensures
        result == digit_char(value as int),
{
    if value == 0 { '0' }
    else if value == 1 { '1' }
    else if value == 2 { '2' }
    else if value == 3 { '3' }
    else if value == 4 { '4' }
    else if value == 5 { '5' }
    else if value == 6 { '6' }
    else if value == 7 { '7' }
    else if value == 8 { '8' }
    else if value == 9 { '9' }
    else if value == 10 { 'a' }
    else if value == 11 { 'b' }
    else if value == 12 { 'c' }
    else if value == 13 { 'd' }
    else if value == 14 { 'e' }
    else { 'f' }
}

/// Appends the digits of `value` in `radix`, left-padded with zeros to
/// `width` characters.
pub fn push_radix(output: &mut String, value: u128, radix: u128, width: usize)
    requires
        2 <= radix <= 16,
    ensures
        final(output)@ == old(output)@ + zero_padded(radix_digits(value as nat, radix as nat), width as nat),
{
    let mut digits: Vec<char> = Vec::new();
    let mut current = value;
    assert(radix_digits(value as nat, radix as nat) =~= radix_digits(current as nat, radix as nat) + digits@);
    while current >= radix
        invariant
            2 <= radix <= 16,
            radix_digits(value as nat, radix as nat)
                == radix_digits(current as nat, radix as nat) + digits@,
        decreases current,
    {
        let d = digit(current % radix);
        digits.insert(0, d);
        let next = current / radix;
        assert(next < current) by (nonlinear_arith)
            requires
                next == current / radix,
                radix >= 2,
                current >= radix,
        ;
        proof {
            let ghost tail = digits@.drop_first();
            assert(radix_digits(current as nat, radix as nat) == radix_digits(
                next as nat,
                radix as nat,
            ).push(d));
            assert(radix_digits(next as nat, radix as nat).push(d) + tail =~= radix_digits(
                next as nat,
                radix as nat,
            ) + digits@);
        }
        current = next;
    }
    digits.insert(0, digit(current));
    assert(radix_digits(current as nat, radix as nat) =~= seq![digit_char(current as int)]);
    let ghost all = digits@;
    assert(all =~= radix_digits(value as nat, radix as nat));
    assert(output@ == old(output)@);
    if digits.len() < width {
        let mut pad: usize = width - digits.len();
        let ghost start = output@;
        while pad > 0
            invariant
                pad <= width - all.len(),
                output@ == start + Seq::new((width - all.len() - pad) as nat, |i: int| '0'),
            decreases pad,
        {
            push_char(output, '0');
            pad = pad - 1;
            assert(output@ =~= start + Seq::new((width - all.len() - pad) as nat, |i: int| '0'));
        }
    }
    let ghost before = output@;
    let mut index: usize = 0;
    while index < digits.len()
        invariant
            index <= digits.len(),
            output@ == before + digits@.take(index as int),
        decreases digits.len() - index,
    {
        push_char(output, digits[index]);
        index = index + 1;
        assert(output@ =~= before + digits@.take(index as int));
    }
    assert(digits@.take(digits.len() as int) =~= digits@);
    assert(output@ =~= old(output)@ + zero_padded(all, width as nat));
}

/// Strict lexicographic order of character sequences by scalar value.
pub open spec fn text_lt(a: Seq<char>, b: Seq<char>) -> bool
    decreases a.len(),
{
    if a.len() == 0 {
        b.len() > 0
    } else if b.len() == 0 {
        false
    } else if a[0] != b[0] {
        a[0] < b[0]
    } else {
        text_lt(a.drop_first(), b.drop_first())
    }
}

/// No sequence is below itself.
pub proof fn lemma_text_lt_irreflexive(a: Seq<char>)
    ensures
        !text_lt(a, a),
    decreases a.len(),
{
    if a.len() > 0 {
        lemma_text_lt_irreflexive(a.drop_first());
    }
}

/// The order is transitive.
pub proof fn lemma_text_lt_transitive(a: Seq<char>, b: Seq<char>, c: Seq<char>)
    requires
        text_lt(a, b),
        text_lt(b, c),
    ensures
        text_lt(a, c),
    decreases a.len(),
{
    if a.len() > 0 && b.len() > 0 && c.len() > 0 && a[0] == b[0] && b[0] == c[0] {
        lemma_text_lt_transitive(a.drop_first(), b.drop_first(), c.drop_first());
    }
}

/// Any two distinct sequences are ordered one way or the other.
pub proof fn lemma_text_lt_total(a: Seq<char>, b: Seq<char>)
    ensures
        a == b || text_lt(a, b) || text_lt(b, a),
    decreases a.len(),
{
    if a.len() > 0 && b.len() > 0 && a[0] == b[0] {
        lemma_text_lt_total(a.drop_first(), b.drop_first());
        if a.drop_first() == b.drop_first() {
            assert(a =~= seq![a[0]] + a.drop_first());
            assert(b =~= seq![b[0]] + b.drop_first());
        }
    } else if a.len() > 0 && b.len() > 0 {
        assert(a[0] != b[0]);
    } else if a.len() == 0 && b.len() == 0 {
        assert(a =~= b);
    }
}

/// Whether `a` sorts strictly before `b`.
pub fn text_less(a: &Vec<char>, b: &Vec<char>) -> (result: bool)
    ensures
        result == text_lt(a@, b@),
{
    let mut index: usize = 0;
    assert(a@.skip(0) =~= a@);
    assert(b@.skip(0) =~= b@);
    while index < a.len() && index < b.len() && a[index] == b[index]
        invariant
            index <= a.len(),
            index <= b.len(),
            a@.take(index as int) == b@.take(index as int),
            text_lt(a@, b@) == text_lt(a@.skip(index as int), b@.skip(index as int)),
        decreases a.len() - index,
    {
        proof {
            let sa = a@.skip(index as int);
            let sb = b@.skip(index as int);
            assert(sa.drop_first() =~= a@.skip(index + 1));
            assert(sb.drop_first() =~= b@.skip(index + 1));
        }
        index = index + 1;
        assert(a@.take(index as int) =~= b@.take(index as int));
    }
    let ghost sa = a@.skip(index as int);
    let ghost sb = b@.skip(index as int);
    if index == a.len() {
        index < b.len()
    } else if index == b.len() {
        false
    } else {
        assert(sa[0] == a@[index as int]);
        assert(sb[0] == b@[index as int]);
        a[index] < b[index]
    }
}

/// The character view of each string in a sequence.
pub open spec fn texts(values: Seq<String>) -> Seq<Seq<char>> {
    values.map_values(|value: String| value@)
}

/// A sequence is strictly increasing, so it lists a set once, in order.
pub open spec fn strictly_sorted(values: Seq<Seq<char>>) -> bool {
    forall|i: int, j: int| 0 <= i < j < values.len() ==> text_lt(values[i], values[j])
}

/// Whether a string is one of the given strings.
pub fn contains_text(values: &Vec<String>, item: &str) -> (result: bool)
    ensures
        result == texts(values@).contains(item@),
{
    let mut index: usize = 0;
    while index < values.len()
        invariant
            index <= values.len(),
            forall|k: int| 0 <= k < index ==> values@[k]@ != item@,
        decreases values.len() - index,
    {
        if same_text(values[index].as_str(), item) {
            assert(texts(values@)[index as int] == item@);
            return true;
        }
        index = index + 1;
    }
    assert forall|k: int| 0 <= k < texts(values@).len() implies texts(values@)[k] != item@ by {
        assert(texts(values@)[k] == values@[k]@);
    }
    false
}

/// Inserts a string into a strictly sorted list unless it is already there.
pub fn insert_sorted(values: &mut Vec<String>, item: String)
    requires
        strictly_sorted(texts(old(values)@)),
    ensures
        strictly_sorted(texts(final(values)@)),
        texts(final(values)@).to_set() == texts(old(values)@).to_set().insert(item@),
{
    let key = chars_of(item.as_str());
    let mut index: usize = 0;
    let mut searching = true;
    while searching && index < values.len()
        invariant
            key@ == item@,
            index <= values.len(),
            values@ == old(values)@,
            strictly_sorted(texts(values@)),
            forall|k: int| 0 <= k < index ==> text_lt(values@[k]@, item@),
            !searching ==> index < values.len() && !text_lt(values@[index as int]@, item@),
        decreases values.len() - index + if searching { 1int } else { 0int },
    {
        let current = chars_of(values[index].as_str());
        if text_less(&current, &key) {
            index = index + 1;
        } else {
            searching = false;
        }
    }
    let ghost before = texts(values@);
    if index < values.len() {
        let current = chars_of(values[index].as_str());
        if !text_less(&key, &current) {
            proof {
                lemma_text_lt_total(current@, key@);
                assert(before[index as int] == values@[index as int]@);
                assert(before[index as int] == item@);
                assert(before.to_set().insert(item@) =~= before.to_set());
            }
            return;
        }
    }
    values.insert(index, item);
    proof {
        let after = texts(values@);
        assert(after =~= before.insert(index as int, key@));
        assert forall|i: int, j: int| 0 <= i < j < after.len() implies text_lt(after[i], after[j]) by {
            if j == index {
                assert(after[i] == before[i]);
            } else if i == index {
                assert(after[j] == before[j - 1]);
                if j - 1 > index {
                    lemma_text_lt_transitive(key@, before[index as int], before[j - 1]);
                }
            } else if i < index && j > index {
                assert(after[i] == before[i]);
                assert(after[j] == before[j - 1]);
            } else if i > index {
                assert(after[i] == before[i - 1]);
                assert(after[j] == before[j - 1]);
            }
        }
        assert forall|x: Seq<char>| after.to_set().contains(x) <==> before.to_set().insert(key@).contains(x) by {
            if after.to_set().contains(x) {
                let k = choose|k: int| 0 <= k < after.len() && after[k] == x;
                if k < index {
                    assert(before[k] == x);
                } else if k > index {
                    assert(before[k - 1] == x);
                }
            }
            if before.to_set().contains(x) {
                let k = choose|k: int| 0 <= k < before.len() && before[k] == x;
                if k < index {
                    assert(after[k] == x);
                } else {
                    assert(after[k + 1] == x);
                }
            }
            if x == key@ {
                assert(after[index as int] == x);
            }
        }
        assert(after.to_set() =~= before.to_set().insert(key@));
    }
}

/// The strings of `keep` that are not in `drop`, as a strictly sorted list.
pub fn sorted_difference(keep: &Vec<String>, drop: &Vec<String>) -> (result: Vec<String>)
    ensures
        strictly_sorted(texts(result@)),
        texts(result@).to_set() == texts(keep@).to_set().difference(texts(drop@).to_set()),
{
    let mut result: Vec<String> = Vec::new();
    let ghost dropped = texts(drop@).to_set();
    let mut index: usize = 0;
    assert(texts(keep@.take(0)).to_set() =~= Set::empty());
    assert(texts(result@).to_set() =~= Set::empty());
    while index < keep.len()
        invariant
            index <= keep.len(),
            dropped == texts(drop@).to_set(),
            strictly_sorted(texts(result@)),
            texts(result@).to_set() == texts(keep@.take(index as int)).to_set().difference(dropped),
        decreases keep.len() - index,
    {
        let item = &keep[index];
        proof {
            assert(texts(keep@.take(index + 1)) =~= texts(keep@.take(index as int)).push(item@));
            texts(keep@.take(index as int)).lemma_push_to_set_commute(item@);
        }
        if !contains_text(drop, item.as_str()) {
            insert_sorted(&mut result, item.clone());
        }
        index = index + 1;
        assert(texts(result@).to_set() =~= texts(keep@.take(index as int)).to_set().difference(dropped));
    }
    assert(keep@.take(keep.len() as int) =~= keep@);
    result
}

/// The distinct strings of `values`, as a strictly sorted list.
pub fn sorted_set(values: &Vec<String>) -> (result: Vec<String>)
    ensures
        strictly_sorted(texts(result@)),
        texts(result@).to_set() == texts(values@).to_set(),
{
    let none: Vec<String> = Vec::new();
    let result = sorted_difference(values, &none);
    assert(texts(none@).to_set() =~= Set::empty());
    assert(texts(values@).to_set().difference(Set::empty()) =~= texts(values@).to_set());
    result
}

/// The strings joined by `separator`.
pub open spec fn joined_by(parts: Seq<Seq<char>>, separator: Seq<char>) -> Seq<char>
    decreases parts.len(),
{
    if parts.len() == 0 {
        Seq::empty()
    } else if parts.len() == 1 {
        parts[0]
    } else {
        joined_by(parts.drop_last(), separator) + separator + parts.last()
    }
}

/// Joins strings with a separator between each two.
pub fn join_texts(parts: &Vec<String>, separator: &str) -> (result: String)
    ensures
        result@ == joined_by(texts(parts@), separator@),
{
    let ghost all = texts(parts@);
    let mut result = String::new();
    let mut index: usize = 0;
    assert(all.take(0) =~= Seq::<Seq<char>>::empty());
    while index < parts.len()
        invariant
            index <= parts.len(),
            all == texts(parts@),
            result@ == joined_by(all.take(index as int), separator@),
        decreases parts.len() - index,
    {
        proof {
            assert(all.take(index + 1).drop_last() =~= all.take(index as int));
            assert(all.take(index + 1).last() == parts@[index as int]@);
        }
        if index > 0 {
            push_str(&mut result, separator);
        } else {
            assert(result@ =~= Seq::<char>::empty());
        }
        push_str(&mut result, parts[index].as_str());
        index = index + 1;
        proof {
            if index == 1 {
                assert(result@ =~= all.take(1)[0]);
            }
        }
    }
    assert(all.take(parts.len() as int) =~= all);
    result
}

/// The lexicographic order of character sequences, equal ones included.
pub open spec fn text_order() -> spec_fn(Seq<char>, Seq<char>) -> bool {
    |a: Seq<char>, b: Seq<char>| text_lt(a, b) || a == b
}

/// The lexicographic order is a total order.
pub proof fn lemma_text_order_total()
    ensures
        vstd::relations::total_ordering(text_order()),
{
    let le = text_order();
    assert forall|a: Seq<char>| #[trigger] le(a, a) by {}
    assert forall|a: Seq<char>, b: Seq<char>| #[trigger] le(a, b) && #[trigger] le(b, a) implies a == b by {
        if a != b {
            lemma_text_lt_transitive(a, b, a);
            lemma_text_lt_irreflexive(a);
        }
    }
    assert forall|a: Seq<char>, b: Seq<char>, c: Seq<char>| #[trigger] le(a, b) && #[trigger] le(b, c) implies le(a, c) by {
        if a != b && b != c {
            lemma_text_lt_transitive(a, b, c);
        }
    }
    assert forall|a: Seq<char>, b: Seq<char>| #[trigger] le(a, b) || #[trigger] le(b, a) by {
        lemma_text_lt_total(a, b);
    }
}

/// The strings in lexicographic order, equal strings kept.
pub fn sort_texts(values: &Vec<String>) -> (result: Vec<String>)
    ensures
        texts(result@) == texts(values@).sort_by(text_order()),
{
    let ghost le = text_order();
    let mut result: Vec<String> = Vec::new();
    let mut index: usize = 0;
    proof {
        broadcast use vstd::seq_lib::group_to_multiset_ensures;
        assert(texts(values@).take(0) =~= Seq::<Seq<char>>::empty());
        assert(texts(result@) =~= Seq::<Seq<char>>::empty());
    }
    while index < values.len()
        invariant
            index <= values.len(),
            le == text_order(),
            vstd::relations::sorted_by(texts(result@), le),
            texts(result@).to_multiset() == texts(values@).take(index as int).to_multiset(),
        decreases values.len() - index,
    {
        let item = &values[index];
        let key = chars_of(item.as_str());
        let mut position: usize = 0;
        let mut searching = true;
        while searching && position < result.len()
            invariant
                key@ == item@,
                le == text_order(),
                position <= result.len(),
                forall|k: int| 0 <= k < position ==> le(texts(result@)[k], key@),
                !searching ==> position < result.len() && text_lt(key@, texts(result@)[position as int]),
            decreases result.len() - position + if searching { 1int } else { 0int },
        {
            let current = chars_of(result[position].as_str());
            assert(texts(result@)[position as int] == current@);
            if text_less(&key, &current) {
                searching = false;
            } else {
                proof {
                    lemma_text_lt_total(key@, current@);
                }
                position = position + 1;
            }
        }
        let ghost before = texts(result@);
        result.insert(position, item.clone());
        proof {
            broadcast use vstd::seq_lib::group_to_multiset_ensures;
            lemma_text_order_total();
            let after = texts(result@);
            assert(after =~= before.insert(position as int, item@));
            assert(after.remove(position as int) =~= before);
            assert(after[position as int] == item@);
            assert(after.to_multiset().remove(item@) =~= before.to_multiset());
            assert(after.to_multiset().contains(item@));
            assert(after.to_multiset() =~= before.to_multiset().insert(item@));
            assert(texts(values@).take(index + 1) =~= texts(values@).take(index as int).push(item@));
            assert forall|i: int, j: int| 0 <= i < j < after.len() implies #[trigger] le(after[i], after[j]) by {
                if j < position {
                    assert(after[i] == before[i] && after[j] == before[j]);
                } else if j == position {
                    assert(after[i] == before[i]);
                } else if i == position {
                    assert(after[j] == before[j - 1]);
                    assert(after[i] == item@);
                    assert(le(item@, before[position as int]));
                    if j - 1 > position {
                        assert(le(before[position as int], before[j - 1]));
                    }
                } else if i < position {
                    assert(after[i] == before[i] && after[j] == before[j - 1]);
                } else {
                    assert(after[i] == before[i - 1] && after[j] == before[j - 1]);
                }
            }
        }
        index = index + 1;
    }
    proof {
        lemma_text_order_total();
        assert(texts(values@).take(values.len() as int) =~= texts(values@));
        texts(values@).lemma_sort_by_ensures(le);
        vstd::seq_lib::lemma_sorted_unique(texts(result@), texts(values@).sort_by(le), le);
    }
    result
}

/// Copies a list of strings.
pub fn copy_texts(values: &Vec<String>) -> (result: Vec<String>)
    ensures
        texts(result@) == texts(values@),
{
    let mut result: Vec<String> = Vec::new();
    let mut index: usize = 0;
    while index < values.len()
        invariant
            index <= values.len(),
            texts(result@) == texts(values@).take(index as int),
        decreases values.len() - index,
    {
        let copy = owned(values[index].as_str());
        let ghost before = texts(result@);
        result.push(copy);
        assert(texts(result@) =~= before.push(copy@));
        index = index + 1;
        assert(texts(result@) =~= texts(values@).take(index as int));
    }
    assert(texts(values@).take(values.len() as int) =~= texts(values@));
    result
}

} // verus!
