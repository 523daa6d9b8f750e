//! Compatibility components of a policy comparison: canonical statements
//! present on one side only, and matched items whose value changed.
use vstd::prelude::*;
use crate::text::{texts, owned, push_str, joined_by, join_texts};
use crate::diff::{is_listing, set_changes, map_name_difference, changed_sets, changes_are_exact, change_names,
    NameSetDifference};
use crate::keyed::{key_set, unique_keys, text_set, value_of};
use crate::scan::{decimal_text, push_count, digits_value, digit_of, lemma_digits_value_nonnegative};
use crate::text::{chars_of, string_of, slice_chars, same_text};

verus! {

/// A modified compatibility item and its detail lines.
#[derive(Debug)]
pub struct ModifiedCompatibilityItem {
    summary: String,
    detail_lines: Vec<String>,
}

impl View for ModifiedCompatibilityItem {
    type V = (Seq<char>, Seq<Seq<char>>);

    closed spec fn view(&self) -> Self::V {
        (self.summary@, texts(self.detail_lines@))
    }
}

impl ModifiedCompatibilityItem {
    /// Returns the summary printed after the modification marker.
    pub fn summary(&self) -> (result: &str)
        ensures
            result@ == self@.0,
    {
        self.summary.as_str()
    }

    /// Returns the detail lines, indentation included.
    pub fn detail_lines(&self) -> (result: &[String])
        ensures
            texts(result@) == self@.1,
    {
        self.detail_lines.as_slice()
    }
}

/// The plain values of a list of modified items.
pub open spec fn item_views(items: Seq<ModifiedCompatibilityItem>) -> Seq<(Seq<char>, Seq<Seq<char>>)> {
    items.map_values(|m: ModifiedCompatibilityItem| m@)
}

/// Added, removed, and modified canonical compatibility statements.
#[derive(Debug)]
pub struct CompatibilityDifference {
    added: Vec<String>,
    removed: Vec<String>,
    modified: Vec<ModifiedCompatibilityItem>,
}

impl View for CompatibilityDifference {
    type V = (Seq<Seq<char>>, Seq<Seq<char>>, Seq<(Seq<char>, Seq<Seq<char>>)>);

    closed spec fn view(&self) -> Self::V {
        (texts(self.added@), texts(self.removed@), item_views(self.modified@))
    }
}

impl CompatibilityDifference {
    /// Returns items present only in the right policy.
    pub fn added(&self) -> (result: &[String])
        ensures
            texts(result@) == self@.0,
    {
        self.added.as_slice()
    }

    /// Returns items present only in the left policy.
    pub fn removed(&self) -> (result: &[String])
        ensures
            texts(result@) == self@.1,
    {
        self.removed.as_slice()
    }

    /// Returns matched items whose value differs.
    pub fn modified(&self) -> (result: &[ModifiedCompatibilityItem])
        ensures
            item_views(result@) == self@.2,
    {
        self.modified.as_slice()
    }

    /// Returns whether this component has no changes.
    pub fn is_empty(&self) -> (result: bool)
        ensures
            result == (self@.0.len() == 0 && self@.1.len() == 0 && self@.2.len() == 0),
    {
        self.added.len() == 0 && self.removed.len() == 0 && self.modified.len() == 0
    }
}

/// A count and what was counted.
pub open spec fn count_line(count: int, label: Seq<char>) -> Seq<char> {
    decimal_text(count) + " "@ + label
}

/// The count line of a nonempty list, or nothing.
pub open spec fn counted(count: int, label: Seq<char>) -> Seq<Seq<char>> {
    if count > 0 {
        seq![count_line(count, label)]
    } else {
        Seq::empty()
    }
}

/// Each value behind a prefix.
pub open spec fn marked(prefix: Seq<char>, values: Seq<Seq<char>>) -> Seq<Seq<char>> {
    values.map_values(|v: Seq<char>| prefix + v)
}

/// The indented marker of an added value.
pub open spec fn added_mark() -> Seq<char> {
    "          + "@
}

/// The indented marker of a removed value.
pub open spec fn removed_mark() -> Seq<char> {
    "          - "@
}

/// The detail lines of added and removed values.
pub open spec fn change_lines(added: Seq<Seq<char>>, removed: Seq<Seq<char>>) -> Seq<Seq<char>> {
    marked(added_mark(), added) + marked(removed_mark(), removed)
}

/// The detail lines of a named group of changes; nothing without changes.
pub open spec fn group_lines(name: Seq<char>, added: Seq<Seq<char>>, removed: Seq<Seq<char>>) -> Seq<Seq<char>> {
    if added.len() == 0 && removed.len() == 0 {
        Seq::empty()
    } else {
        seq!["          "@ + name + ":"@] + change_lines(added, removed)
    }
}

/// The text of an optional string.
pub open spec fn option_text(value: Option<&str>) -> Option<Seq<char>> {
    match value {
        Some(v) => Some(v@),
        None => None,
    }
}

/// The report of a named set that gained `added` and lost `removed`.
pub open spec fn set_item(
    name: Seq<char>,
    added: Seq<Seq<char>>,
    removed: Seq<Seq<char>>,
    noun: Seq<char>,
    group: Option<Seq<char>>,
) -> (Seq<char>, Seq<Seq<char>>) {
    let counts = counted(added.len() as int, "Added "@ + noun) + counted(removed.len() as int, "Removed "@ + noun);
    (
        name + " ("@ + joined_by(counts, ", "@) + ")"@,
        match group {
            Some(g) => group_lines(g, added, removed),
            None => change_lines(added, removed),
        },
    )
}

/// `item` reports how the set named `name` changed from the left entries to
/// the right entries.
pub open spec fn reports_set_change(
    left: Seq<(String, Vec<String>)>,
    right: Seq<(String, Vec<String>)>,
    name: Seq<char>,
    item: (Seq<char>, Seq<Seq<char>>),
    noun: Seq<char>,
    group: Option<Seq<char>>,
) -> bool {
    exists|added: Seq<Seq<char>>, removed: Seq<Seq<char>>| {
        &&& is_listing(added, text_set(value_of(right, name)).difference(text_set(value_of(left, name))))
        &&& is_listing(removed, text_set(value_of(left, name)).difference(text_set(value_of(right, name))))
        &&& item == #[trigger] set_item(name, added, removed, noun, group)
    }
}

/// Appends a count line when `values` is not empty.
pub fn count_change(changes: &mut Vec<String>, values: &Vec<String>, label: &str)
    ensures
        texts(final(changes)@) == texts(old(changes)@) + counted(values@.len() as int, label@),
{
    let ghost before = texts(changes@);
    if values.len() > 0 {
        let mut line = String::new();
        push_count(&mut line, values.len());
        push_str(&mut line, " ");
        push_str(&mut line, label);
        let ghost text = line@;
        changes.push(line);
        assert(texts(changes@) =~= before + seq![text]);
        assert(text =~= count_line(values@.len() as int, label@));
    } else {
        assert(texts(changes@) =~= before + Seq::<Seq<char>>::empty());
    }
}

/// Appends each value behind a prefix.
fn push_marked(details: &mut Vec<String>, prefix: &str, values: &Vec<String>)
    ensures
        texts(final(details)@) == texts(old(details)@) + marked(prefix@, texts(values@)),
{
    let ghost before = texts(details@);
    let mut index: usize = 0;
    while index < values.len()
        invariant
            index <= values.len(),
            texts(details@) == before + marked(prefix@, texts(values@.take(index as int))),
        decreases values.len() - index,
    {
        let mut line = owned(prefix);
        push_str(&mut line, values[index].as_str());
        let ghost middle = texts(details@);
        let ghost text = line@;
        details.push(line);
        proof {
            assert(texts(details@) =~= middle.push(text));
            assert(marked(prefix@, texts(values@.take(index + 1))) =~=
                marked(prefix@, texts(values@.take(index as int))).push(prefix@ + values@[index as int]@));
        }
        index = index + 1;
    }
    assert(values@.take(values.len() as int) =~= values@);
}

/// Appends the lines of added and then removed values.
pub fn add_remove_lines(details: &mut Vec<String>, added: &Vec<String>, removed: &Vec<String>)
    ensures
        texts(final(details)@) == texts(old(details)@) + change_lines(texts(added@), texts(removed@)),
{
    let ghost before = texts(details@);
    push_marked(details, "          + ", added);
    push_marked(details, "          - ", removed);
    proof {
        reveal_strlit("          + ");
        reveal_strlit("          - ");
        assert(texts(details@) =~= before + change_lines(texts(added@), texts(removed@)));
    }
}

/// Appends a named group of changes, if there are any.
pub fn detail_group(details: &mut Vec<String>, name: &str, added: &Vec<String>, removed: &Vec<String>)
    ensures
        texts(final(details)@) == texts(old(details)@) + group_lines(name@, texts(added@), texts(removed@)),
{
    let ghost before = texts(details@);
    if added.len() == 0 && removed.len() == 0 {
        assert(texts(details@) =~= before + Seq::<Seq<char>>::empty());
        return;
    }
    let mut line = owned("          ");
    push_str(&mut line, name);
    push_str(&mut line, ":");
    let ghost text = line@;
    details.push(line);
    assert(texts(details@) =~= before + seq![text]);
    add_remove_lines(details, added, removed);
    assert(texts(details@) =~= before + group_lines(name@, texts(added@), texts(removed@)));
}

/// The report of a named set that gained `added` and lost `removed`.
fn set_item_of(name: &String, added: &Vec<String>, removed: &Vec<String>, noun: &str, group: Option<&str>)
    -> (result: ModifiedCompatibilityItem)
    ensures
        result@ == set_item(name@, texts(added@), texts(removed@), noun@, option_text(group)),
{
    let mut changes: Vec<String> = Vec::new();
    assert(texts(changes@) =~= Seq::<Seq<char>>::empty());
    let mut added_label = owned("Added ");
    push_str(&mut added_label, noun);
    count_change(&mut changes, added, added_label.as_str());
    let mut removed_label = owned("Removed ");
    push_str(&mut removed_label, noun);
    count_change(&mut changes, removed, removed_label.as_str());
    let mut details: Vec<String> = Vec::new();
    assert(texts(details@) =~= Seq::<Seq<char>>::empty());
    match group {
        Some(g) => detail_group(&mut details, g, added, removed),
        None => add_remove_lines(&mut details, added, removed),
    }
    let mut summary = owned(name.as_str());
    push_str(&mut summary, " (");
    let listed = join_texts(&changes, ", ");
    push_str(&mut summary, listed.as_str());
    push_str(&mut summary, ")");
    proof {
        assert(texts(details@) =~= match option_text(group) {
            Some(g) => group_lines(g, texts(added@), texts(removed@)),
            None => change_lines(texts(added@), texts(removed@)),
        });
    }
    ModifiedCompatibilityItem { summary, detail_lines: details }
}

/// Compares two lists of named string sets: names on one side only, and for
/// each name on both sides whose set changed, in name order, a summary that
/// counts the `noun`s added and removed with one detail line per value.
pub fn named_set_component(
    left: &Vec<(String, Vec<String>)>,
    right: &Vec<(String, Vec<String>)>,
    noun: &str,
    group: Option<&str>,
) -> (result: CompatibilityDifference)
    requires
        unique_keys(left@),
        unique_keys(right@),
    ensures
        is_listing(result@.0, key_set(right@).difference(key_set(left@))),
        is_listing(result@.1, key_set(left@).difference(key_set(right@))),
        exists|names: Seq<Seq<char>>| {
            &&& is_listing(names, changed_sets(left@, right@))
            &&& names.len() == result@.2.len()
            &&& forall|i: int| 0 <= i < names.len() ==>
                reports_set_change(left@, right@, names[i], #[trigger] result@.2[i], noun@, option_text(group))
        },
{
    let names = map_name_difference(left, right);
    let changes = set_changes(left, right);
    let mut modified: Vec<ModifiedCompatibilityItem> = Vec::new();
    let mut index: usize = 0;
    while index < changes.len()
        invariant
            index <= changes.len(),
            modified@.len() == index,
            forall|i: int| 0 <= i < index ==> #[trigger] item_views(modified@)[i] == set_item(
                changes@[i].0@, texts(changes@[i].1@), texts(changes@[i].2@), noun@, option_text(group)),
        decreases changes.len() - index,
    {
        let item = set_item_of(&changes[index].0, &changes[index].1, &changes[index].2, noun, group);
        let ghost before = modified@;
        modified.push(item);
        proof {
            assert forall|i: int| 0 <= i < index + 1 implies #[trigger] item_views(modified@)[i] == set_item(
                changes@[i].0@, texts(changes@[i].1@), texts(changes@[i].2@), noun@, option_text(group)) by {
                assert(item_views(modified@)[i] == modified@[i]@);
                if i < index {
                    assert(modified@[i] == before[i]);
                    assert(item_views(before)[i] == before[i]@);
                }
            }
        }
        index = index + 1;
    }
    proof {
        let listed = change_names(changes@);
        let views = item_views(modified@);
        assert forall|i: int| 0 <= i < listed.len() implies
            reports_set_change(left@, right@, listed[i], #[trigger] views[i], noun@, option_text(group)) by {
            let c = changes@[i];
            assert(changes_are_exact(left@, right@, changes@));
            assert(is_listing(texts(c.1@), text_set(value_of(right@, c.0@)).difference(text_set(value_of(left@, c.0@)))));
            assert(views[i] == set_item(c.0@, texts(c.1@), texts(c.2@), noun@, option_text(group)));
        }
    }
    let (added, removed) = names.into_parts();
    CompatibilityDifference { added, removed, modified }
}

/// Compares two lists of named permission sets.
pub fn permission_component(left: &Vec<(String, Vec<String>)>, right: &Vec<(String, Vec<String>)>) -> (result: CompatibilityDifference)
    requires
        unique_keys(left@),
        unique_keys(right@),
    ensures
        is_listing(result@.0, key_set(right@).difference(key_set(left@))),
        is_listing(result@.1, key_set(left@).difference(key_set(right@))),
        exists|names: Seq<Seq<char>>| {
            &&& is_listing(names, changed_sets(left@, right@))
            &&& names.len() == result@.2.len()
            &&& forall|i: int| 0 <= i < names.len() ==>
                reports_set_change(left@, right@, names[i], #[trigger] result@.2[i], "permissions"@, None)
        },
{
    named_set_component(left, right, "permissions", None)
}

/// Compares two sets of canonical statements.
pub fn statement_set_difference(left: &Vec<String>, right: &Vec<String>) -> (result: CompatibilityDifference)
    ensures
        is_listing(result@.0, text_set(*right).difference(text_set(*left))),
        is_listing(result@.1, text_set(*left).difference(text_set(*right))),
        result@.2.len() == 0,
{
    let added = crate::text::sorted_difference(right, left);
    let removed = crate::text::sorted_difference(left, right);
    let modified: Vec<ModifiedCompatibilityItem> = Vec::new();
    CompatibilityDifference { added, removed, modified }
}

/// Where the trailing ASCII digits of a text begin.
pub open spec fn digits_start(s: Seq<char>) -> int
    decreases s.len(),
{
    if s.len() > 0 && '0' <= s.last() && s.last() <= '9' {
        digits_start(s.drop_last())
    } else {
        s.len() as int
    }
}

/// The trailing digits start within the text.
proof fn lemma_digits_start(s: Seq<char>)
    ensures
        0 <= digits_start(s) <= s.len(),
        forall|i: int| digits_start(s) <= i < s.len() ==> '0' <= #[trigger] s[i] && s[i] <= '9',
        digits_start(s) > 0 ==> !('0' <= s[digits_start(s) - 1] && s[digits_start(s) - 1] <= '9'),
    decreases s.len(),
{
    if s.len() > 0 && '0' <= s.last() && s.last() <= '9' {
        lemma_digits_start(s.drop_last());
        assert forall|i: int| digits_start(s) <= i < s.len() implies '0' <= #[trigger] s[i] && s[i] <= '9' by {
            if i < s.len() - 1 {
                assert(s[i] == s.drop_last()[i]);
            }
        }
    }
}

/// The text before its trailing digits and the value of those digits, when
/// there are any and the value fits in 64 bits.
pub open spec fn numeric_parts(s: Seq<char>) -> Option<(Seq<char>, int)> {
    let k = digits_start(s);
    if k == s.len() {
        None
    } else {
        match digits_value(s.skip(k)) {
            Some(v) => if v <= u64::MAX {
                Some((s.take(k), v))
            } else {
                None
            },
            None => None,
        }
    }
}

/// Splits a name into the text before its trailing digits and their value.
pub fn numeric_name(value: &str) -> (result: Option<(String, u64)>)
    ensures
        match result {
            Some((prefix, number)) => numeric_parts(value@) == Some((prefix@, number as int)),
            None => numeric_parts(value@) is None,
        },
{
    let text = chars_of(value);
    let mut start: usize = text.len();
    assert(text@.take(start as int) =~= text@);
    while start > 0 && '0' <= text[start - 1] && text[start - 1] <= '9'
        invariant
            start <= text.len(),
            text@ == value@,
            digits_start(text@) == digits_start(text@.take(start as int)),
        decreases start,
    {
        proof {
            assert(text@.take(start as int).drop_last() =~= text@.take(start - 1));
        }
        start = start - 1;
    }
    proof {
        assert(text@.take(start as int).len() == start);
        assert(digits_start(text@) == start);
        assert(text@.take(text.len() as int) =~= text@);
    }
    if start == text.len() {
        return None;
    }
    proof {
        lemma_digits_start(text@);
    }
    let limit: u128 = 0xffff_ffff_ffff_ffff;
    let mut number: u128 = 0;
    let mut too_large = false;
    let mut index: usize = start;
    assert(text@.subrange(start as int, start as int) =~= Seq::<char>::empty());
    while index < text.len()
        invariant
            start <= index <= text.len(),
            limit == 0xffff_ffff_ffff_ffffu128,
            forall|i: int| start <= i < text@.len() ==> '0' <= #[trigger] text@[i] && text@[i] <= '9',
            digits_value(text@.subrange(start as int, index as int)) is Some,
            !too_large ==> digits_value(text@.subrange(start as int, index as int)) == Some(number as int),
            !too_large ==> number <= limit,
            too_large ==> digits_value(text@.subrange(start as int, index as int)).unwrap() > limit,
        decreases text.len() - index,
    {
        let ghost before = text@.subrange(start as int, index as int);
        let ghost after = text@.subrange(start as int, index + 1);
        assert(after.drop_last() =~= before);
        assert(after.last() == text@[index as int]);
        assert('0' <= text@[index as int] && text@[index as int] <= '9');
        proof {
            lemma_digits_value_nonnegative(before);
        }
        match digit_of(text[index]) {
            Some(d) => {
                if !too_large {
                    let next = number * 10 + d as u128;
                    if next > limit {
                        too_large = true;
                    } else {
                        number = next;
                    }
                }
            },
            None => {
                assert(false);
            },
        }
        index = index + 1;
    }
    assert(text@.subrange(start as int, text.len() as int) =~= text@.skip(start as int));
    if too_large {
        return None;
    }
    let head = slice_chars(&text, 0, start);
    assert(text@.subrange(0, start as int) =~= text@.take(start as int));
    Some((string_of(&head), number as u64))
}

/// Two names differ only in trailing numbers that follow each other.
pub open spec fn consecutive(left: Seq<char>, right: Seq<char>) -> bool {
    match (numeric_parts(left), numeric_parts(right)) {
        (Some((left_prefix, left_value)), Some((right_prefix, right_value))) =>
            left_prefix == right_prefix && left_value + 1 == right_value,
        _ => false,
    }
}

/// Whether `right` follows `left` by its trailing number.
pub fn consecutive_names(left: &str, right: &str) -> (result: bool)
    ensures
        result == consecutive(left@, right@),
{
    match (numeric_name(left), numeric_name(right)) {
        (Some((left_prefix, left_value)), Some((right_prefix, right_value))) => {
            same_text(left_prefix.as_str(), right_prefix.as_str()) && left_value < u64::MAX && left_value + 1 == right_value
        },
        _ => false,
    }
}

/// Where the run of consecutive names starting at `start` ends.
pub open spec fn run_end(values: Seq<Seq<char>>, start: int) -> int
    decreases values.len() - start,
{
    if 0 <= start && start + 1 < values.len() && consecutive(values[start], values[start + 1]) {
        run_end(values, start + 1)
    } else {
        start
    }
}

/// One run of names, written as its first and last name when longer than one.
pub open spec fn run_text(values: Seq<Seq<char>>, start: int, end: int) -> Seq<char> {
    if start == end {
        values[start]
    } else {
        values[start] + "."@ + values[end]
    }
}

/// The runs of consecutive names from `start` on.
pub open spec fn run_texts(values: Seq<Seq<char>>, start: int) -> Seq<Seq<char>>
    decreases values.len() - start,
{
    if start < 0 || start >= values.len() {
        Seq::empty()
    } else {
        let end = run_end(values, start);
        if start <= end < values.len() {
            seq![run_text(values, start, end)] + run_texts(values, end + 1)
        } else {
            Seq::empty()
        }
    }
}

/// A run ends at or after its start, within the names.
proof fn lemma_run_end(values: Seq<Seq<char>>, start: int)
    requires
        0 <= start < values.len(),
    ensures
        start <= run_end(values, start) < values.len(),
        forall|k: int| start <= k < run_end(values, start) ==> consecutive(values[k], #[trigger] values[k + 1]),
        run_end(values, start) + 1 < values.len() ==>
            !consecutive(values[run_end(values, start)], values[run_end(values, start) + 1]),
    decreases values.len() - start,
{
    if start + 1 < values.len() && consecutive(values[start], values[start + 1]) {
        lemma_run_end(values, start + 1);
    }
}

/// Writes names with each run of consecutive names as `first.last`, the
/// pieces joined by commas.
pub fn compress_category_names(values: &Vec<String>) -> (result: String)
    ensures
        result@ == joined_by(run_texts(texts(values@), 0), ","@),
{
    let ghost all = texts(values@);
    let mut output: Vec<String> = Vec::new();
    let mut start: usize = 0;
    assert(texts(output@) =~= Seq::<Seq<char>>::empty());
    while start < values.len()
        invariant
            start <= values.len(),
            all == texts(values@),
            texts(output@) + run_texts(all, start as int) == run_texts(all, 0),
        decreases values.len() - start,
    {
        let mut end = start;
        while end + 1 < values.len() && consecutive_names(values[end].as_str(), values[end + 1].as_str())
            invariant
                start <= end < values.len(),
                all == texts(values@),
                run_end(all, start as int) == run_end(all, end as int),
            decreases values.len() - end,
        {
            assert(all[end as int] == values@[end as int]@);
            assert(all[end + 1] == values@[end + 1]@);
            end = end + 1;
        }
        proof {
            if end + 1 < values.len() {
                assert(all[end as int] == values@[end as int]@);
                assert(all[end + 1] == values@[end + 1]@);
            }
            assert(run_end(all, end as int) == end);
        }
        let piece = if start == end {
            owned(values[start].as_str())
        } else {
            let mut text = owned(values[start].as_str());
            push_str(&mut text, ".");
            push_str(&mut text, values[end].as_str());
            text
        };
        proof {
            assert(piece@ == run_text(all, start as int, end as int));
            assert(run_texts(all, start as int) =~= seq![piece@] + run_texts(all, end + 1));
        }
        let ghost before = texts(output@);
        output.push(piece);
        assert(texts(output@) =~= before.push(piece@));
        start = end + 1;
        assert(texts(output@) + run_texts(all, start as int) =~= run_texts(all, 0));
    }
    assert(run_texts(all, start as int) =~= Seq::<Seq<char>>::empty());
    assert(texts(output@) =~= run_texts(all, 0));
    join_texts(&output, ",")
}

/// The `genfscon` file-type flag of an object class, empty for others.
pub open spec fn filetype_flag(name: Seq<char>) -> Seq<char> {
    if name == "blk_file"@ { "-b"@ }
    else if name == "chr_file"@ { "-c"@ }
    else if name == "dir"@ { "-d"@ }
    else if name == "fifo_file"@ { "-p"@ }
    else if name == "file"@ { "--"@ }
    else if name == "lnk_file"@ { "-l"@ }
    else if name == "sock_file"@ { "-s"@ }
    else { ""@ }
}

/// Returns the `genfscon` file-type flag of an object class.
pub fn class_filetype(name: &str) -> (result: &'static str)
    ensures
        result@ == filetype_flag(name@),
{
    if same_text(name, "blk_file") { "-b" }
    else if same_text(name, "chr_file") { "-c" }
    else if same_text(name, "dir") { "-d" }
    else if same_text(name, "fifo_file") { "-p" }
    else if same_text(name, "file") { "--" }
    else if same_text(name, "lnk_file") { "-l" }
    else if same_text(name, "sock_file") { "-s" }
    else { "" }
}

} // verus!
