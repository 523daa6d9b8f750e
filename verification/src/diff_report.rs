//! The text of a policy comparison: one section per component.
use vstd::prelude::*;
use crate::text::{texts, owned, push_str, joined_by};
use crate::policy::{HandleUnknown, PolicyMetadata};
use crate::diff::{NameSetDifference, ComponentDifference, ModifiedBoolean, ModifiedAliases, ModifiedTypeAttribute};
use crate::compat::{CompatibilityDifference, ModifiedCompatibilityItem, item_views};
use crate::report::{decimal, push_decimal};
use crate::diff_args::{Component, DiffOptions, DiffOptionsView, component_title, component_items, component_key,
    heading, item_name, key, diff_options_view, asks_for, has_selection, selects, component_order, components};
use crate::json::{json_string, json_strings, push_string, push_json_strings};

verus! {

/// A policy property value.
#[derive(PartialEq, Eq, Structural, Clone, Copy, Debug)]
pub enum PropertyValue {
    /// Unknown-class and unknown-permission handling.
    HandleUnknown(HandleUnknown),
    /// A Boolean property.
    Boolean(bool),
    /// The binary policy version.
    Version(u32),
}

/// One modified policy property: its value on the right, then on the left.
#[derive(Debug)]
pub struct PropertyChange {
    /// The property's name.
    pub property: String,
    /// The value in the right policy.
    pub added: PropertyValue,
    /// The value in the left policy.
    pub removed: PropertyValue,
}

/// A property change as plain values.
pub open spec fn change_view(change: PropertyChange) -> (Seq<char>, PropertyValue, PropertyValue) {
    (change.property@, change.added, change.removed)
}

/// The property changes between two policies, by property name: MLS,
/// then unknown handling, then version.
pub open spec fn property_changes(left: PolicyMetadata, right: PolicyMetadata) -> Seq<(Seq<char>, PropertyValue, PropertyValue)> {
    (if left.mls != right.mls {
        seq![("MLS"@, PropertyValue::Boolean(right.mls), PropertyValue::Boolean(left.mls))]
    } else {
        Seq::empty()
    }) + (if left.handle_unknown != right.handle_unknown {
        seq![("handle_unknown"@, PropertyValue::HandleUnknown(right.handle_unknown), PropertyValue::HandleUnknown(left.handle_unknown))]
    } else {
        Seq::empty()
    }) + (if left.version != right.version {
        seq![("version"@, PropertyValue::Version(right.version), PropertyValue::Version(left.version))]
    } else {
        Seq::empty()
    })
}

/// Compares the policy-wide properties of two policies.
pub fn properties(left: &PolicyMetadata, right: &PolicyMetadata) -> (result: Vec<PropertyChange>)
    ensures
        result@.map_values(|c: PropertyChange| change_view(c)) == property_changes(*left, *right),
{
    let mut changes: Vec<PropertyChange> = Vec::new();
    if left.mls != right.mls {
        changes.push(PropertyChange {
            property: owned("MLS"),
            added: PropertyValue::Boolean(right.mls),
            removed: PropertyValue::Boolean(left.mls),
        });
    }
    let ghost first = changes@.map_values(|c: PropertyChange| change_view(c));
    if left.handle_unknown != right.handle_unknown {
        changes.push(PropertyChange {
            property: owned("handle_unknown"),
            added: PropertyValue::HandleUnknown(right.handle_unknown),
            removed: PropertyValue::HandleUnknown(left.handle_unknown),
        });
    }
    let ghost second = changes@.map_values(|c: PropertyChange| change_view(c));
    if left.version != right.version {
        changes.push(PropertyChange {
            property: owned("version"),
            added: PropertyValue::Version(right.version),
            removed: PropertyValue::Version(left.version),
        });
    }
    assert(changes@.map_values(|c: PropertyChange| change_view(c)) =~= property_changes(*left, *right));
    changes
}

/// The text of a property value.
pub open spec fn value_text(value: PropertyValue) -> Seq<char> {
    match value {
        PropertyValue::HandleUnknown(h) => match h {
            HandleUnknown::Deny => "deny"@,
            HandleUnknown::Reject => "reject"@,
            HandleUnknown::Allow => "allow"@,
        },
        PropertyValue::Boolean(b) => python_bool(b),
        PropertyValue::Version(v) => decimal(v as nat),
    }
}

/// A Boolean as `True` or `False`.
pub open spec fn python_bool(value: bool) -> Seq<char> {
    if value { "True"@ } else { "False"@ }
}

/// Appends the text of a property value.
fn push_value(output: &mut String, value: PropertyValue)
    ensures
        final(output)@ == old(output)@ + value_text(value),
{
    match value {
        PropertyValue::HandleUnknown(h) => match h {
            HandleUnknown::Deny => push_str(output, "deny"),
            HandleUnknown::Reject => push_str(output, "reject"),
            HandleUnknown::Allow => push_str(output, "allow"),
        },
        PropertyValue::Boolean(b) => push_str(output, if b { "True" } else { "False" }),
        PropertyValue::Version(v) => push_decimal(output, v as usize),
    }
}

/// Each item on a line of its own after `prefix`.
pub open spec fn prefixed_lines(prefix: Seq<char>, items: Seq<Seq<char>>) -> Seq<char>
    decreases items.len(),
{
    if items.len() == 0 {
        Seq::empty()
    } else {
        prefixed_lines(prefix, items.drop_last()) + prefix + items.last() + "\n"@
    }
}

/// Appends each item on a line of its own after `prefix`.
fn push_prefixed_lines(output: &mut String, prefix: &str, items: &[String])
    ensures
        final(output)@ == old(output)@ + prefixed_lines(prefix@, texts(items@)),
{
    let ghost start = output@;
    let ghost all = texts(items@);
    let mut index: usize = 0;
    assert(all.take(0) =~= Seq::<Seq<char>>::empty());
    assert(start + prefixed_lines(prefix@, all.take(0)) =~= start);
    while index < items.len()
        invariant
            index <= items.len(),
            all == texts(items@),
            output@ == start + prefixed_lines(prefix@, all.take(index as int)),
        decreases items.len() - index,
    {
        push_str(output, prefix);
        push_str(output, items[index].as_str());
        push_str(output, "\n");
        proof {
            let next = all.take(index + 1);
            assert(next.drop_last() =~= all.take(index as int));
            assert(next.last() == items@[index as int]@);
            assert(output@ =~= start + prefixed_lines(prefix@, next));
        }
        index = index + 1;
    }
    assert(all.take(items.len() as int) =~= all);
}

/// A count line: `   Added Booleans: 2`.
pub open spec fn count_heading(change: Seq<char>, item_name: Seq<char>, count: nat) -> Seq<char> {
    "   "@ + change + " "@ + item_name + ": "@ + decimal(count) + "\n"@
}

/// The added and removed names, each group under its count when it has any.
pub open spec fn added_removed_text(item_name: Seq<char>, added: Seq<Seq<char>>, removed: Seq<Seq<char>>) -> Seq<char> {
    (if added.len() > 0 {
        count_heading("Added"@, item_name, added.len()) + prefixed_lines("      + "@, added)
    } else {
        Seq::empty()
    }) + (if removed.len() > 0 {
        count_heading("Removed"@, item_name, removed.len()) + prefixed_lines("      - "@, removed)
    } else {
        Seq::empty()
    })
}

/// Appends a count line.
fn push_count_heading(output: &mut String, change: &str, item_name: &str, count: usize)
    ensures
        final(output)@ == old(output)@ + count_heading(change@, item_name@, count as nat),
{
    push_str(output, "   ");
    push_str(output, change);
    push_str(output, " ");
    push_str(output, item_name);
    push_str(output, ": ");
    push_decimal(output, count);
    push_str(output, "\n");
    assert(final(output)@ =~= old(output)@ + count_heading(change@, item_name@, count as nat));
}

/// Appends the added and removed names, each group under its count.
fn push_added_removed(output: &mut String, item_name: &str, added: &[String], removed: &[String])
    ensures
        final(output)@ == old(output)@ + added_removed_text(item_name@, texts(added@), texts(removed@)),
{
    let ghost start = output@;
    if added.len() > 0 {
        push_count_heading(output, "Added", item_name, added.len());
        push_prefixed_lines(output, "      + ", added);
    }
    let ghost middle = output@;
    if removed.len() > 0 {
        push_count_heading(output, "Removed", item_name, removed.len());
        push_prefixed_lines(output, "      - ", removed);
    }
    proof {
        reveal_strlit("Added");
        reveal_strlit("Removed");
    }
    assert(output@ =~= start + added_removed_text(item_name@, texts(added@), texts(removed@)));
}

/// A heading with added, removed and modified counts.
pub open spec fn component_heading(heading: Seq<char>, added: nat, removed: nat, modified: nat) -> Seq<char> {
    heading + " ("@ + decimal(added) + " Added, "@ + decimal(removed) + " Removed, "@ + decimal(modified) + " Modified)\n"@
}

/// A heading with added and removed counts only.
pub open spec fn set_heading(heading: Seq<char>, added: nat, removed: nat) -> Seq<char> {
    heading + " ("@ + decimal(added) + " Added, "@ + decimal(removed) + " Removed)\n"@
}

/// Appends a heading with added, removed and, when asked, modified counts.
fn push_heading(output: &mut String, heading: &str, added: usize, removed: usize, modified: Option<usize>)
    ensures
        final(output)@ == old(output)@ + match modified {
            Some(m) => component_heading(heading@, added as nat, removed as nat, m as nat),
            None => set_heading(heading@, added as nat, removed as nat),
        },
{
    push_str(output, heading);
    push_str(output, " (");
    push_decimal(output, added);
    push_str(output, " Added, ");
    push_decimal(output, removed);
    match modified {
        Some(m) => {
            push_str(output, " Removed, ");
            push_decimal(output, m);
            push_str(output, " Modified)\n");
        },
        None => {
            push_str(output, " Removed)\n");
        },
    }
    assert(final(output)@ =~= old(output)@ + match modified {
        Some(m) => component_heading(heading@, added as nat, removed as nat, m as nat),
        None => set_heading(heading@, added as nat, removed as nat),
    });
}

/// The section of a set-like component.
pub open spec fn name_set_text(heading: Seq<char>, item_name: Seq<char>, added: Seq<Seq<char>>, removed: Seq<Seq<char>>, stats: bool) -> Seq<char> {
    set_heading(heading, added.len(), removed.len()) + (if stats {
        Seq::empty()
    } else {
        added_removed_text(item_name, added, removed)
    }) + "\n"@
}

/// Appends the section of a set-like component.
pub fn render_name_set(output: &mut String, heading: &str, item_name: &str, difference: &NameSetDifference, stats: bool)
    ensures
        final(output)@ == old(output)@ + name_set_text(heading@, item_name@, difference@.0, difference@.1, stats),
{
    let added = difference.added();
    let removed = difference.removed();
    push_heading(output, heading, added.len(), removed.len(), None);
    let ghost middle = output@;
    if !stats {
        push_added_removed(output, item_name, added, removed);
    }
    push_str(output, "\n");
    assert(final(output)@ =~= old(output)@ + name_set_text(heading@, item_name@, difference@.0, difference@.1, stats));
}

/// The components whose section counts only added and removed items.
pub open spec fn set_only(heading: Seq<char>) -> bool {
    heading == "Role allow Rules"@ || heading == "Constraints"@ || heading == "MLS Constraints"@
        || heading == "Validatetrans"@ || heading == "MLS Validatetrans"@
}

/// The modified compatibility items: a summary line, then the detail lines.
pub open spec fn compat_items_text(items: Seq<(Seq<char>, Seq<Seq<char>>)>) -> Seq<char>
    decreases items.len(),
{
    if items.len() == 0 {
        Seq::empty()
    } else {
        compat_items_text(items.drop_last()) + "      * "@ + items.last().0 + "\n"@ + prefixed_lines(Seq::empty(), items.last().1)
    }
}

/// The section of a compatibility component.
pub open spec fn compat_text(
    heading: Seq<char>,
    item_name: Seq<char>,
    d: (Seq<Seq<char>>, Seq<Seq<char>>, Seq<(Seq<char>, Seq<Seq<char>>)>),
    stats: bool,
) -> Seq<char> {
    (if set_only(heading) {
        set_heading(heading, d.0.len(), d.1.len())
    } else {
        component_heading(heading, d.0.len(), d.1.len(), d.2.len())
    }) + (if stats {
        Seq::empty()
    } else {
        added_removed_text(item_name, d.0, d.1) + if d.2.len() > 0 {
            count_heading("Modified"@, item_name, d.2.len()) + compat_items_text(d.2)
        } else {
            Seq::empty()
        }
    }) + "\n"@
}

/// Whether a heading is one of the set-only headings.
fn is_set_only(heading: &str) -> (result: bool)
    ensures
        result == set_only(heading@),
{
    crate::text::same_text(heading, "Role allow Rules") || crate::text::same_text(heading, "Constraints")
        || crate::text::same_text(heading, "MLS Constraints") || crate::text::same_text(heading, "Validatetrans")
        || crate::text::same_text(heading, "MLS Validatetrans")
}

/// Appends the modified compatibility items.
fn push_compat_items(output: &mut String, items: &[ModifiedCompatibilityItem])
    ensures
        final(output)@ == old(output)@ + compat_items_text(item_views(items@)),
{
    let ghost start = output@;
    let ghost all = item_views(items@);
    let mut index: usize = 0;
    assert(all.take(0) =~= Seq::<(Seq<char>, Seq<Seq<char>>)>::empty());
    assert(start + compat_items_text(all.take(0)) =~= start);
    while index < items.len()
        invariant
            index <= items.len(),
            all == item_views(items@),
            output@ == start + compat_items_text(all.take(index as int)),
        decreases items.len() - index,
    {
        let item = &items[index];
        push_str(output, "      * ");
        push_str(output, item.summary());
        push_str(output, "\n");
        push_prefixed_lines(output, "", item.detail_lines());
        proof {
            reveal_strlit("");
            assert(""@ =~= Seq::<char>::empty());
            let next = all.take(index + 1);
            assert(next.drop_last() =~= all.take(index as int));
            assert(next.last() == items@[index as int]@);
            assert(output@ =~= start + compat_items_text(next));
        }
        index = index + 1;
    }
    assert(all.take(items.len() as int) =~= all);
}

/// Appends the section of a compatibility component.
pub fn render_compatibility_difference(
    output: &mut String,
    heading: &str,
    item_name: &str,
    difference: &CompatibilityDifference,
    stats: bool,
)
    ensures
        final(output)@ == old(output)@ + compat_text(heading@, item_name@, difference@, stats),
{
    let ghost start = output@;
    let added = difference.added();
    let removed = difference.removed();
    let modified = difference.modified();
    if is_set_only(heading) {
        push_heading(output, heading, added.len(), removed.len(), None);
    } else {
        push_heading(output, heading, added.len(), removed.len(), Some(modified.len()));
    }
    let ghost head = output@;
    if !stats {
        push_added_removed(output, item_name, added, removed);
        if modified.len() > 0 {
            push_count_heading(output, "Modified", item_name, modified.len());
            push_compat_items(output, modified);
        }
    }
    push_str(output, "\n");
    proof {
        reveal_strlit("Modified");
    }
    assert(output@ =~= start + compat_text(heading@, item_name@, difference@, stats));
}

/// The modified Booleans: each with its two default states.
pub open spec fn boolean_items_text(items: Seq<ModifiedBoolean>) -> Seq<char>
    decreases items.len(),
{
    if items.len() == 0 {
        Seq::empty()
    } else {
        boolean_items_text(items.drop_last()) + "      * "@ + items.last()@.0 + " (Modified default state)\n"@
            + "          + "@ + python_bool(items.last()@.1) + "\n"@ + "          - "@ + python_bool(items.last()@.2) + "\n"@
    }
}

/// The section of the Booleans.
pub open spec fn boolean_text(d: (Seq<Seq<char>>, Seq<Seq<char>>, Seq<ModifiedBoolean>), stats: bool) -> Seq<char> {
    component_heading("Booleans"@, d.0.len(), d.1.len(), d.2.len()) + (if stats {
        Seq::empty()
    } else {
        added_removed_text("Booleans"@, d.0, d.1) + if d.2.len() > 0 {
            count_heading("Modified"@, "Booleans"@, d.2.len()) + boolean_items_text(d.2)
        } else {
            Seq::empty()
        }
    }) + "\n"@
}

/// Appends the modified Booleans.
fn push_boolean_items(output: &mut String, modified: &[ModifiedBoolean])
    ensures
        final(output)@ == old(output)@ + boolean_items_text(modified@),
{
    let ghost items_start = output@;
    let mut index: usize = 0;
    assert(modified@.take(0) =~= Seq::<ModifiedBoolean>::empty());
    assert(output@ =~= items_start + boolean_items_text(modified@.take(0)));
    while index < modified.len()
        invariant
            index <= modified.len(),
            output@ == items_start + boolean_items_text(modified@.take(index as int)),
        decreases modified.len() - index,
    {
        let item = &modified[index];
        push_str(output, "      * ");
        push_str(output, item.name());
        push_str(output, " (Modified default state)\n");
        push_str(output, "          + ");
        push_str(output, if item.added_state() { "True" } else { "False" });
        push_str(output, "\n");
        push_str(output, "          - ");
        push_str(output, if item.removed_state() { "True" } else { "False" });
        push_str(output, "\n");
        proof {
            let next = modified@.take(index + 1);
            assert(next.drop_last() =~= modified@.take(index as int));
            assert(next.last() == modified@[index as int]);
            assert(output@ =~= items_start + boolean_items_text(next));
        }
        index = index + 1;
    }
    assert(modified@.take(modified.len() as int) =~= modified@);
}

/// Appends the section of the Booleans.
pub fn render_boolean_difference(output: &mut String, difference: &ComponentDifference<ModifiedBoolean>, stats: bool)
    ensures
        final(output)@ == old(output)@ + boolean_text(difference@, stats),
{
    let ghost start = output@;
    let added = difference.added();
    let removed = difference.removed();
    let modified = difference.modified();
    push_heading(output, "Booleans", added.len(), removed.len(), Some(modified.len()));
    if !stats {
        push_added_removed(output, "Booleans", added, removed);
        if modified.len() > 0 {
            push_count_heading(output, "Modified", "Booleans", modified.len());
            push_boolean_items(output, modified);
        }
    }
    push_str(output, "\n");
    proof {
        reveal_strlit("Modified");
        reveal_strlit("Booleans");
    }
    assert(output@ =~= start + boolean_text(difference@, stats));
}

/// The change counts of a modified item, such as `2 Added types, 1 Removed types`.
pub open spec fn change_summary(added: nat, removed: nat, noun: Seq<char>) -> Seq<char> {
    joined_by(
        (if added > 0 { seq![decimal(added) + " Added "@ + noun] } else { Seq::empty() })
            + (if removed > 0 { seq![decimal(removed) + " Removed "@ + noun] } else { Seq::empty() }),
        ", "@,
    )
}

/// Writes the change counts of a modified item.
fn change_summary_text(added: usize, removed: usize, noun: &str) -> (result: String)
    ensures
        result@ == change_summary(added as nat, removed as nat, noun@),
{
    let mut parts: Vec<String> = Vec::new();
    if added > 0 {
        let mut part = String::new();
        push_decimal(&mut part, added);
        push_str(&mut part, " Added ");
        push_str(&mut part, noun);
        parts.push(part);
    }
    if removed > 0 {
        let mut part = String::new();
        push_decimal(&mut part, removed);
        push_str(&mut part, " Removed ");
        push_str(&mut part, noun);
        parts.push(part);
    }
    let result = crate::text::join_texts(&parts, ", ");
    assert(texts(parts@) =~= (if added > 0 { seq![decimal(added as nat) + " Added "@ + noun@] } else { Seq::empty() })
        + (if removed > 0 { seq![decimal(removed as nat) + " Removed "@ + noun@] } else { Seq::empty() }));
    result
}

/// The modified attributes: each with its change counts, then its added and
/// removed types.
pub open spec fn attribute_items_text(items: Seq<ModifiedTypeAttribute>) -> Seq<char>
    decreases items.len(),
{
    if items.len() == 0 {
        Seq::empty()
    } else {
        let v = items.last()@;
        attribute_items_text(items.drop_last()) + "      * "@ + v.0 + " ("@ + change_summary(v.1.len(), v.2.len(), "types"@)
            + ")\n"@ + prefixed_lines("          + "@, v.1) + prefixed_lines("          - "@, v.2)
    }
}

/// The section of the type attributes.
pub open spec fn attribute_text(d: (Seq<Seq<char>>, Seq<Seq<char>>, Seq<ModifiedTypeAttribute>), stats: bool) -> Seq<char> {
    component_heading("Type Attributes"@, d.0.len(), d.1.len(), d.2.len()) + (if stats {
        Seq::empty()
    } else {
        added_removed_text("Type Attributes"@, d.0, d.1) + if d.2.len() > 0 {
            count_heading("Modified"@, "Type Attributes"@, d.2.len()) + attribute_items_text(d.2)
        } else {
            Seq::empty()
        }
    }) + "\n"@
}

/// Appends the modified type attributes.
fn push_attribute_items(output: &mut String, modified: &[ModifiedTypeAttribute])
    ensures
        final(output)@ == old(output)@ + attribute_items_text(modified@),
{
    let ghost items_start = output@;
    let mut index: usize = 0;
    assert(modified@.take(0) =~= Seq::<ModifiedTypeAttribute>::empty());
    assert(output@ =~= items_start + attribute_items_text(modified@.take(0)));
    while index < modified.len()
        invariant
            index <= modified.len(),
            output@ == items_start + attribute_items_text(modified@.take(index as int)),
        decreases modified.len() - index,
    {
        let item = &modified[index];
        let summary = change_summary_text(item.added_types().len(), item.removed_types().len(), "types");
        push_str(output, "      * ");
        push_str(output, item.name());
        push_str(output, " (");
        push_str(output, summary.as_str());
        push_str(output, ")\n");
        push_prefixed_lines(output, "          + ", item.added_types());
        push_prefixed_lines(output, "          - ", item.removed_types());
        proof {
            let next = modified@.take(index + 1);
            assert(next.drop_last() =~= modified@.take(index as int));
            assert(next.last() == modified@[index as int]);
            assert(output@ =~= items_start + attribute_items_text(next));
        }
        index = index + 1;
    }
    assert(modified@.take(modified.len() as int) =~= modified@);
}

/// Appends the section of the type attributes.
pub fn render_attribute_difference(output: &mut String, difference: &ComponentDifference<ModifiedTypeAttribute>, stats: bool)
    ensures
        final(output)@ == old(output)@ + attribute_text(difference@, stats),
{
    let ghost start = output@;
    let added = difference.added();
    let removed = difference.removed();
    let modified = difference.modified();
    push_heading(output, "Type Attributes", added.len(), removed.len(), Some(modified.len()));
    if !stats {
        push_added_removed(output, "Type Attributes", added, removed);
        if modified.len() > 0 {
            push_count_heading(output, "Modified", "Type Attributes", modified.len());
            push_attribute_items(output, modified);
        }
    }
    push_str(output, "\n");
    proof {
        reveal_strlit("Modified");
        reveal_strlit("Type Attributes");
    }
    assert(output@ =~= start + attribute_text(difference@, stats));
}

/// The modified categories or sensitivities: each with its change counts,
/// then its added and removed aliases.
pub open spec fn alias_items_text(items: Seq<ModifiedAliases>) -> Seq<char>
    decreases items.len(),
{
    if items.len() == 0 {
        Seq::empty()
    } else {
        let v = items.last()@;
        alias_items_text(items.drop_last()) + "      * "@ + v.0 + " ("@ + change_summary(v.1.len(), v.2.len(), "Aliases"@)
            + ")\n"@ + "          Aliases:\n"@ + prefixed_lines("          + "@, v.1) + prefixed_lines("          - "@, v.2)
    }
}

/// The section of categories or sensitivities.
pub open spec fn alias_text(
    heading: Seq<char>,
    item_name: Seq<char>,
    d: (Seq<Seq<char>>, Seq<Seq<char>>, Seq<ModifiedAliases>),
    stats: bool,
) -> Seq<char> {
    component_heading(heading, d.0.len(), d.1.len(), d.2.len()) + (if stats {
        Seq::empty()
    } else {
        added_removed_text(item_name, d.0, d.1) + if d.2.len() > 0 {
            count_heading("Modified"@, item_name, d.2.len()) + alias_items_text(d.2)
        } else {
            Seq::empty()
        }
    }) + "\n"@
}

/// Appends the modified categories or sensitivities.
fn push_alias_items(output: &mut String, modified: &[ModifiedAliases])
    ensures
        final(output)@ == old(output)@ + alias_items_text(modified@),
{
    let ghost items_start = output@;
    let mut index: usize = 0;
    assert(modified@.take(0) =~= Seq::<ModifiedAliases>::empty());
    assert(output@ =~= items_start + alias_items_text(modified@.take(0)));
    while index < modified.len()
        invariant
            index <= modified.len(),
            output@ == items_start + alias_items_text(modified@.take(index as int)),
        decreases modified.len() - index,
    {
        let item = &modified[index];
        let summary = change_summary_text(item.added_aliases().len(), item.removed_aliases().len(), "Aliases");
        push_str(output, "      * ");
        push_str(output, item.name());
        push_str(output, " (");
        push_str(output, summary.as_str());
        push_str(output, ")\n");
        push_str(output, "          Aliases:\n");
        push_prefixed_lines(output, "          + ", item.added_aliases());
        push_prefixed_lines(output, "          - ", item.removed_aliases());
        proof {
            let next = modified@.take(index + 1);
            assert(next.drop_last() =~= modified@.take(index as int));
            assert(next.last() == modified@[index as int]);
            assert(output@ =~= items_start + alias_items_text(next));
        }
        index = index + 1;
    }
    assert(modified@.take(modified.len() as int) =~= modified@);
}

/// Appends the section of categories or sensitivities.
pub fn render_alias_component(
    output: &mut String,
    heading: &str,
    item_name: &str,
    difference: &ComponentDifference<ModifiedAliases>,
    stats: bool,
)
    ensures
        final(output)@ == old(output)@ + alias_text(heading@, item_name@, difference@, stats),
{
    let ghost start = output@;
    let added = difference.added();
    let removed = difference.removed();
    let modified = difference.modified();
    push_heading(output, heading, added.len(), removed.len(), Some(modified.len()));
    if !stats {
        push_added_removed(output, item_name, added, removed);
        if modified.len() > 0 {
            push_count_heading(output, "Modified", item_name, modified.len());
            push_alias_items(output, modified);
        }
    }
    push_str(output, "\n");
    proof {
        reveal_strlit("Modified");
    }
    assert(output@ =~= start + alias_text(heading@, item_name@, difference@, stats));
}

/// The lines of the property changes.
pub open spec fn property_lines(changes: Seq<(Seq<char>, PropertyValue, PropertyValue)>) -> Seq<char>
    decreases changes.len(),
{
    if changes.len() == 0 {
        Seq::empty()
    } else {
        let c = changes.last();
        property_lines(changes.drop_last()) + "      * "@ + c.0 + " +"@ + value_text(c.1) + " -"@ + value_text(c.2) + "\n"@
    }
}

/// The section of the policy properties.
pub open spec fn property_text(changes: Seq<(Seq<char>, PropertyValue, PropertyValue)>, stats: bool) -> Seq<char> {
    "Policy Properties ("@ + decimal(changes.len()) + " Modified)\n"@ + (if stats {
        Seq::empty()
    } else {
        property_lines(changes)
    }) + "\n"@
}

/// Appends the section of the policy properties.
pub fn render_property_changes(output: &mut String, changes: &Vec<PropertyChange>, stats: bool)
    ensures
        final(output)@ == old(output)@ + property_text(changes@.map_values(|c: PropertyChange| change_view(c)), stats),
{
    let ghost start = output@;
    let ghost all = changes@.map_values(|c: PropertyChange| change_view(c));
    push_str(output, "Policy Properties (");
    push_decimal(output, changes.len());
    push_str(output, " Modified)\n");
    let ghost head = output@;
    if !stats {
        let mut index: usize = 0;
        assert(all.take(0) =~= Seq::<(Seq<char>, PropertyValue, PropertyValue)>::empty());
        assert(output@ =~= head + property_lines(all.take(0)));
        while index < changes.len()
            invariant
                index <= changes.len(),
                all == changes@.map_values(|c: PropertyChange| change_view(c)),
                output@ == head + property_lines(all.take(index as int)),
            decreases changes.len() - index,
        {
            let change = &changes[index];
            push_str(output, "      * ");
            push_str(output, change.property.as_str());
            push_str(output, " +");
            push_value(output, change.added);
            push_str(output, " -");
            push_value(output, change.removed);
            push_str(output, "\n");
            proof {
                let next = all.take(index + 1);
                assert(next.drop_last() =~= all.take(index as int));
                assert(next.last() == change_view(changes@[index as int]));
                assert(output@ =~= head + property_lines(next));
            }
            index = index + 1;
        }
        assert(all.take(changes.len() as int) =~= all);
    }
    push_str(output, "\n");
    assert(output@ =~= start + property_text(all, stats));
}


/// A component's difference, by the shape of its items.
#[derive(Debug)]
pub enum SectionDifference {
    /// Changed policy properties.
    Properties(Vec<PropertyChange>),
    /// Added and removed names.
    Names(NameSetDifference),
    /// Added, removed and modified statements.
    Compatibility(CompatibilityDifference),
    /// Added, removed and modified Booleans.
    Booleans(ComponentDifference<ModifiedBoolean>),
    /// Added, removed and modified type attributes.
    Attributes(ComponentDifference<ModifiedTypeAttribute>),
    /// Added, removed and modified categories or sensitivities.
    Aliases(ComponentDifference<ModifiedAliases>),
}

/// The plain values of a list of property changes.
pub open spec fn change_views(changes: Seq<PropertyChange>) -> Seq<(Seq<char>, PropertyValue, PropertyValue)> {
    changes.map_values(|c: PropertyChange| change_view(c))
}

/// Whether a difference has nothing in it.
pub open spec fn difference_empty(d: SectionDifference) -> bool {
    match d {
        SectionDifference::Properties(c) => c@.len() == 0,
        SectionDifference::Names(n) => n@.0.len() == 0 && n@.1.len() == 0,
        SectionDifference::Compatibility(x) => x@.0.len() == 0 && x@.1.len() == 0 && x@.2.len() == 0,
        SectionDifference::Booleans(x) => x@.0.len() == 0 && x@.1.len() == 0 && x@.2.len() == 0,
        SectionDifference::Attributes(x) => x@.0.len() == 0 && x@.1.len() == 0 && x@.2.len() == 0,
        SectionDifference::Aliases(x) => x@.0.len() == 0 && x@.1.len() == 0 && x@.2.len() == 0,
    }
}

/// The text section of a component's difference.
pub open spec fn section_text(c: Component, d: SectionDifference, stats: bool) -> Seq<char> {
    match d {
        SectionDifference::Properties(changes) => property_text(change_views(changes@), stats),
        SectionDifference::Names(n) => name_set_text(component_title(c), component_items(c), n@.0, n@.1, stats),
        SectionDifference::Compatibility(x) => compat_text(component_title(c), component_items(c), x@, stats),
        SectionDifference::Booleans(x) => boolean_text(x@, stats),
        SectionDifference::Attributes(x) => attribute_text(x@, stats),
        SectionDifference::Aliases(x) => alias_text(component_title(c), component_items(c), x@, stats),
    }
}

/// A component's section is shown when it was asked for, or when every
/// component is wanted and it differs.
pub open spec fn shows(options: DiffOptionsView, c: Component, d: SectionDifference) -> bool {
    asks_for(options, c) || (!has_selection(options) && !difference_empty(d))
}

/// What a component adds to the text report.
pub open spec fn shown_section(options: DiffOptionsView, c: Component, d: SectionDifference) -> Seq<char> {
    if shows(options, c, d) { section_text(c, d, options.stats) } else { Seq::empty() }
}

/// Returns whether a difference has nothing in it.
fn is_empty_difference(d: &SectionDifference) -> (result: bool)
    ensures
        result == difference_empty(*d),
{
    match d {
        SectionDifference::Properties(c) => c.len() == 0,
        SectionDifference::Names(n) => n.is_empty(),
        SectionDifference::Compatibility(x) => x.is_empty(),
        SectionDifference::Booleans(x) => x.is_empty(),
        SectionDifference::Attributes(x) => x.is_empty(),
        SectionDifference::Aliases(x) => x.is_empty(),
    }
}

/// Returns whether a component's section is shown.
pub fn section_shown(options: &DiffOptions, c: Component, d: &SectionDifference) -> (result: bool)
    ensures
        result == shows(diff_options_view(*options), c, *d),
{
    selects(options, c) || (options.components.len() == 0 && !is_empty_difference(d))
}

/// Appends a component's section to the text report when it is shown.
pub fn render_section(output: &mut String, options: &DiffOptions, c: Component, d: &SectionDifference)
    ensures
        final(output)@ == old(output)@ + shown_section(diff_options_view(*options), c, *d),
{
    if !section_shown(options, c, d) {
        assert(output@ =~= old(output)@ + Seq::<char>::empty());
        return;
    }
    match d {
        SectionDifference::Properties(changes) => render_property_changes(output, changes, options.stats),
        SectionDifference::Names(n) => render_name_set(output, heading(c), item_name(c), n, options.stats),
        SectionDifference::Compatibility(x) => render_compatibility_difference(output, heading(c), item_name(c), x, options.stats),
        SectionDifference::Booleans(x) => render_boolean_difference(output, x, options.stats),
        SectionDifference::Attributes(x) => render_attribute_difference(output, x, options.stats),
        SectionDifference::Aliases(x) => render_alias_component(output, heading(c), item_name(c), x, options.stats),
    }
}

/// The text report of the computed component differences, in the order
/// given.
pub open spec fn comparison_text(options: DiffOptionsView, sections: Seq<(Component, SectionDifference)>) -> Seq<char>
    decreases sections.len(),
{
    if sections.len() == 0 {
        Seq::empty()
    } else {
        comparison_text(options, sections.drop_last()) + shown_section(options, sections.last().0, sections.last().1)
    }
}

/// Writes the text report of the computed component differences, in the
/// order given.
pub fn render_selected(options: &DiffOptions, sections: &Vec<(Component, SectionDifference)>) -> (result: String)
    ensures
        result@ == comparison_text(diff_options_view(*options), sections@),
{
    let ghost view = diff_options_view(*options);
    let mut output = String::new();
    let mut index: usize = 0;
    assert(sections@.take(0) =~= Seq::<(Component, SectionDifference)>::empty());
    assert(output@ =~= comparison_text(view, sections@.take(0)));
    while index < sections.len()
        invariant
            index <= sections.len(),
            view == diff_options_view(*options),
            output@ == comparison_text(view, sections@.take(index as int)),
        decreases sections.len() - index,
    {
        let (c, d) = &sections[index];
        render_section(&mut output, options, *c, d);
        proof {
            let next = sections@.take(index + 1);
            assert(next.drop_last() =~= sections@.take(index as int));
            assert(next.last() == sections@[index as int]);
        }
        index = index + 1;
    }
    assert(sections@.take(sections.len() as int) =~= sections@);
    output
}


/// Whether a character is white space.
pub open spec fn is_space(c: char) -> bool {
    ('\u{9}' <= c && c <= '\u{d}') || c == ' ' || c == '\u{85}' || c == '\u{a0}' || c == '\u{1680}'
        || ('\u{2000}' <= c && c <= '\u{200a}') || c == '\u{2028}' || c == '\u{2029}' || c == '\u{202f}'
        || c == '\u{205f}' || c == '\u{3000}'
}

/// A text without its leading white space.
pub open spec fn trimmed(s: Seq<char>) -> Seq<char>
    decreases s.len(),
{
    if s.len() > 0 && is_space(s[0]) { trimmed(s.drop_first()) } else { s }
}

/// Returns whether a character is white space.
fn space(c: char) -> (result: bool)
    ensures
        result == is_space(c),
{
    ('\u{9}' <= c && c <= '\u{d}') || c == ' ' || c == '\u{85}' || c == '\u{a0}' || c == '\u{1680}'
        || ('\u{2000}' <= c && c <= '\u{200a}') || c == '\u{2028}' || c == '\u{2029}' || c == '\u{202f}'
        || c == '\u{205f}' || c == '\u{3000}'
}

/// Returns a text without its leading white space.
fn trim_leading(text: &str) -> (result: String)
    ensures
        result@ == trimmed(text@),
{
    let chars = crate::text::chars_of(text);
    let mut start: usize = 0;
    assert(chars@.skip(0) =~= chars@);
    while start < chars.len() && space(chars[start])
        invariant
            start <= chars.len(),
            trimmed(chars@) == trimmed(chars@.skip(start as int)),
        decreases chars.len() - start,
    {
        assert(chars@.skip(start as int).drop_first() =~= chars@.skip(start + 1));
        assert(chars@.skip(start as int)[0] == chars@[start as int]);
        start = start + 1;
    }
    let rest = crate::text::slice_chars(&chars, start, chars.len());
    let result = crate::text::string_of(&rest);
    assert(rest@ =~= chars@.skip(start as int));
    result
}

/// A modified item in structured output.
#[derive(Debug)]
pub struct JsonModifiedItem {
    /// The summary line.
    pub summary: String,
    /// The detail lines.
    pub details: Vec<String>,
}

/// A component's difference in structured output.
#[derive(Debug)]
pub struct JsonDifference {
    /// The component's key.
    pub component: String,
    /// The component's title.
    pub description: String,
    /// Items only in the right policy.
    pub added: Vec<String>,
    /// Items only in the left policy.
    pub removed: Vec<String>,
    /// Modified items.
    pub modified: Vec<JsonModifiedItem>,
}

/// A structured difference as plain values.
pub struct JsonDifferenceView {
    /// The component's key.
    pub component: Seq<char>,
    /// The component's title.
    pub description: Seq<char>,
    /// Items only in the right policy.
    pub added: Seq<Seq<char>>,
    /// Items only in the left policy.
    pub removed: Seq<Seq<char>>,
    /// Modified items: summary and details.
    pub modified: Seq<(Seq<char>, Seq<Seq<char>>)>,
}

/// The plain values of a modified item.
pub open spec fn json_item_view(item: JsonModifiedItem) -> (Seq<char>, Seq<Seq<char>>) {
    (item.summary@, texts(item.details@))
}

/// The plain values of a structured difference.
pub open spec fn json_difference_view(d: JsonDifference) -> JsonDifferenceView {
    JsonDifferenceView {
        component: d.component@,
        description: d.description@,
        added: texts(d.added@),
        removed: texts(d.removed@),
        modified: d.modified@.map_values(|m: JsonModifiedItem| json_item_view(m)),
    }
}

/// Each name after a marker.
pub open spec fn marked_names(marker: Seq<char>, names: Seq<Seq<char>>) -> Seq<Seq<char>> {
    names.map_values(|n: Seq<char>| marker + n)
}

/// The modified items of a difference in structured output.
pub open spec fn json_items(d: SectionDifference) -> Seq<(Seq<char>, Seq<Seq<char>>)> {
    match d {
        SectionDifference::Properties(changes) => change_views(changes@).map_values(
            |c: (Seq<char>, PropertyValue, PropertyValue)| (c.0, seq!["+"@ + value_text(c.1), "-"@ + value_text(c.2)]),
        ),
        SectionDifference::Names(_) => Seq::empty(),
        SectionDifference::Compatibility(x) => x@.2.map_values(
            |m: (Seq<char>, Seq<Seq<char>>)| (m.0, m.1.map_values(|line: Seq<char>| trimmed(line))),
        ),
        SectionDifference::Booleans(x) => x@.2.map_values(
            |m: ModifiedBoolean| (m@.0 + " (Modified default state)"@, seq!["+ "@ + python_bool(m@.1), "- "@ + python_bool(m@.2)]),
        ),
        SectionDifference::Attributes(x) => x@.2.map_values(
            |m: ModifiedTypeAttribute| (
                m@.0 + " ("@ + change_summary(m@.1.len(), m@.2.len(), "types"@) + ")"@,
                marked_names("+ "@, m@.1) + marked_names("- "@, m@.2),
            ),
        ),
        SectionDifference::Aliases(x) => x@.2.map_values(
            |m: ModifiedAliases| (
                m@.0 + " ("@ + change_summary(m@.1.len(), m@.2.len(), "Aliases"@) + ")"@,
                seq!["Aliases:"@] + marked_names("+ "@, m@.1) + marked_names("- "@, m@.2),
            ),
        ),
    }
}

/// A component's difference in structured output.
pub open spec fn json_of(c: Component, d: SectionDifference) -> JsonDifferenceView {
    JsonDifferenceView {
        component: component_key(c),
        description: component_title(c),
        added: match d {
            SectionDifference::Properties(_) => Seq::empty(),
            SectionDifference::Names(n) => n@.0,
            SectionDifference::Compatibility(x) => x@.0,
            SectionDifference::Booleans(x) => x@.0,
            SectionDifference::Attributes(x) => x@.0,
            SectionDifference::Aliases(x) => x@.0,
        },
        removed: match d {
            SectionDifference::Properties(_) => Seq::empty(),
            SectionDifference::Names(n) => n@.1,
            SectionDifference::Compatibility(x) => x@.1,
            SectionDifference::Booleans(x) => x@.1,
            SectionDifference::Attributes(x) => x@.1,
            SectionDifference::Aliases(x) => x@.1,
        },
        modified: json_items(d),
    }
}

/// Copies a list of names.
fn copy_names(names: &[String]) -> (result: Vec<String>)
    ensures
        texts(result@) == texts(names@),
{
    let mut result: Vec<String> = Vec::new();
    let mut index: usize = 0;
    while index < names.len()
        invariant
            index <= names.len(),
            texts(result@) == texts(names@).take(index as int),
        decreases names.len() - index,
    {
        let ghost before = texts(result@);
        result.push(owned(names[index].as_str()));
        assert(texts(result@) =~= before.push(names@[index as int]@));
        assert(texts(names@).take(index + 1) =~= texts(names@).take(index as int).push(names@[index as int]@));
        index = index + 1;
    }
    assert(texts(names@).take(names.len() as int) =~= texts(names@));
    result
}

/// Each name after a marker.
fn mark_names(marker: &str, names: &[String]) -> (result: Vec<String>)
    ensures
        texts(result@) == marked_names(marker@, texts(names@)),
{
    let mut result: Vec<String> = Vec::new();
    let mut index: usize = 0;
    while index < names.len()
        invariant
            index <= names.len(),
            texts(result@) == marked_names(marker@, texts(names@)).take(index as int),
        decreases names.len() - index,
    {
        let mut line = owned(marker);
        push_str(&mut line, names[index].as_str());
        let ghost before = texts(result@);
        result.push(line);
        assert(texts(result@) =~= before.push(marker@ + names@[index as int]@));
        assert(marked_names(marker@, texts(names@)).take(index + 1) =~= marked_names(marker@, texts(names@)).take(index as int).push(marker@ + names@[index as int]@));
        index = index + 1;
    }
    assert(marked_names(marker@, texts(names@)).take(names.len() as int) =~= marked_names(marker@, texts(names@)));
    result
}

/// Appends the members of one list of names to another.
fn append_names(list: &mut Vec<String>, names: Vec<String>)
    ensures
        texts(final(list)@) == texts(old(list)@) + texts(names@),
{
    let ghost before = texts(list@);
    let mut index: usize = 0;
    while index < names.len()
        invariant
            index <= names.len(),
            texts(list@) == before + texts(names@).take(index as int),
        decreases names.len() - index,
    {
        let ghost middle = texts(list@);
        list.push(owned(names[index].as_str()));
        assert(texts(list@) =~= middle.push(names@[index as int]@));
        assert(texts(names@).take(index + 1) =~= texts(names@).take(index as int).push(names@[index as int]@));
        index = index + 1;
    }
    assert(texts(names@).take(names.len() as int) =~= texts(names@));
}

/// The modified items of a difference in structured output.
fn json_modified(d: &SectionDifference) -> (result: Vec<JsonModifiedItem>)
    ensures
        result@.map_values(|m: JsonModifiedItem| json_item_view(m)) == json_items(*d),
{
    let mut result: Vec<JsonModifiedItem> = Vec::new();
    let ghost all = json_items(*d);
    match d {
        SectionDifference::Properties(changes) => {
            let mut index: usize = 0;
            while index < changes.len()
                invariant
                    index <= changes.len(),
                    all == json_items(*d),
                    *d == SectionDifference::Properties(*changes),
                    result@.len() == index,
                    forall|k: int| 0 <= k < index ==> json_item_view(#[trigger] result@[k]) == all[k],
                decreases changes.len() - index,
            {
                let change = &changes[index];
                let mut plus = owned("+");
                push_value(&mut plus, change.added);
                let mut minus = owned("-");
                push_value(&mut minus, change.removed);
                let details = vec![plus, minus];
                result.push(JsonModifiedItem { summary: owned(change.property.as_str()), details });
                proof {
                    assert(texts(details@) =~= seq!["+"@ + value_text(change.added), "-"@ + value_text(change.removed)]);
                    assert(all[index as int] == json_item_view(result@[index as int]));
                }
                index = index + 1;
            }
            assert(result@.map_values(|m: JsonModifiedItem| json_item_view(m)) =~= all);
        },
        SectionDifference::Names(_) => {
            assert(result@.map_values(|m: JsonModifiedItem| json_item_view(m)) =~= all);
        },
        SectionDifference::Compatibility(x) => {
            let items = x.modified();
            let mut index: usize = 0;
            while index < items.len()
                invariant
                    index <= items.len(),
                    all == json_items(*d),
                    *d == SectionDifference::Compatibility(*x),
                    item_views(items@) == x@.2,
                    result@.len() == index,
                    forall|k: int| 0 <= k < index ==> json_item_view(#[trigger] result@[k]) == all[k],
                decreases items.len() - index,
            {
                let item = &items[index];
                let lines = item.detail_lines();
                let mut details: Vec<String> = Vec::new();
                let mut k: usize = 0;
                while k < lines.len()
                    invariant
                        k <= lines.len(),
                        texts(details@) == texts(lines@).map_values(|line: Seq<char>| trimmed(line)).take(k as int),
                    decreases lines.len() - k,
                {
                    let ghost before = texts(details@);
                    details.push(trim_leading(lines[k].as_str()));
                    assert(texts(details@) =~= before.push(trimmed(lines@[k as int]@)));
                    assert(texts(lines@).map_values(|line: Seq<char>| trimmed(line)).take(k + 1)
                        =~= texts(lines@).map_values(|line: Seq<char>| trimmed(line)).take(k as int).push(trimmed(lines@[k as int]@)));
                    k = k + 1;
                }
                assert(texts(lines@).map_values(|line: Seq<char>| trimmed(line)).take(lines.len() as int)
                    =~= texts(lines@).map_values(|line: Seq<char>| trimmed(line)));
                result.push(JsonModifiedItem { summary: owned(item.summary()), details });
                proof {
                    assert(item_views(items@)[index as int] == items@[index as int]@);
                    assert(all[index as int] == json_item_view(result@[index as int]));
                }
                index = index + 1;
            }
            assert(result@.map_values(|m: JsonModifiedItem| json_item_view(m)) =~= all);
        },
        SectionDifference::Booleans(x) => {
            let items = x.modified();
            let mut index: usize = 0;
            while index < items.len()
                invariant
                    index <= items.len(),
                    all == json_items(*d),
                    *d == SectionDifference::Booleans(*x),
                    items@ == x@.2,
                    result@.len() == index,
                    forall|k: int| 0 <= k < index ==> json_item_view(#[trigger] result@[k]) == all[k],
                decreases items.len() - index,
            {
                let item = &items[index];
                let mut summary = owned(item.name());
                push_str(&mut summary, " (Modified default state)");
                let mut plus = owned("+ ");
                push_str(&mut plus, if item.added_state() { "True" } else { "False" });
                let mut minus = owned("- ");
                push_str(&mut minus, if item.removed_state() { "True" } else { "False" });
                let details = vec![plus, minus];
                result.push(JsonModifiedItem { summary, details });
                proof {
                    assert(texts(details@) =~= seq!["+ "@ + python_bool(item@.1), "- "@ + python_bool(item@.2)]);
                    assert(all[index as int] == json_item_view(result@[index as int]));
                }
                index = index + 1;
            }
            assert(result@.map_values(|m: JsonModifiedItem| json_item_view(m)) =~= all);
        },
        SectionDifference::Attributes(x) => {
            let items = x.modified();
            let mut index: usize = 0;
            while index < items.len()
                invariant
                    index <= items.len(),
                    all == json_items(*d),
                    *d == SectionDifference::Attributes(*x),
                    items@ == x@.2,
                    result@.len() == index,
                    forall|k: int| 0 <= k < index ==> json_item_view(#[trigger] result@[k]) == all[k],
                decreases items.len() - index,
            {
                let item = &items[index];
                let mut summary = owned(item.name());
                push_str(&mut summary, " (");
                let counts = change_summary_text(item.added_types().len(), item.removed_types().len(), "types");
                push_str(&mut summary, counts.as_str());
                push_str(&mut summary, ")");
                let mut details = mark_names("+ ", item.added_types());
                append_names(&mut details, mark_names("- ", item.removed_types()));
                result.push(JsonModifiedItem { summary, details });
                proof {
                    assert(all[index as int] == json_item_view(result@[index as int]));
                }
                index = index + 1;
            }
            assert(result@.map_values(|m: JsonModifiedItem| json_item_view(m)) =~= all);
        },
        SectionDifference::Aliases(x) => {
            let items = x.modified();
            let mut index: usize = 0;
            while index < items.len()
                invariant
                    index <= items.len(),
                    all == json_items(*d),
                    *d == SectionDifference::Aliases(*x),
                    items@ == x@.2,
                    result@.len() == index,
                    forall|k: int| 0 <= k < index ==> json_item_view(#[trigger] result@[k]) == all[k],
                decreases items.len() - index,
            {
                let item = &items[index];
                let mut summary = owned(item.name());
                push_str(&mut summary, " (");
                let counts = change_summary_text(item.added_aliases().len(), item.removed_aliases().len(), "Aliases");
                push_str(&mut summary, counts.as_str());
                push_str(&mut summary, ")");
                let mut details = vec![owned("Aliases:")];
                append_names(&mut details, mark_names("+ ", item.added_aliases()));
                append_names(&mut details, mark_names("- ", item.removed_aliases()));
                result.push(JsonModifiedItem { summary, details });
                proof {
                    assert(all[index as int] == json_item_view(result@[index as int]));
                }
                index = index + 1;
            }
            assert(result@.map_values(|m: JsonModifiedItem| json_item_view(m)) =~= all);
        },
    }
    result
}

/// Returns a component's difference in structured output.
pub fn json_difference(c: Component, d: &SectionDifference) -> (result: JsonDifference)
    ensures
        json_difference_view(result) == json_of(c, *d),
{
    let (added, removed) = match d {
        SectionDifference::Properties(_) => {
            let none: Vec<String> = Vec::new();
            let also_none: Vec<String> = Vec::new();
            assert(texts(none@) =~= Seq::<Seq<char>>::empty());
            assert(texts(also_none@) =~= Seq::<Seq<char>>::empty());
            (none, also_none)
        },
        SectionDifference::Names(n) => (copy_names(n.added()), copy_names(n.removed())),
        SectionDifference::Compatibility(x) => (copy_names(x.added()), copy_names(x.removed())),
        SectionDifference::Booleans(x) => (copy_names(x.added()), copy_names(x.removed())),
        SectionDifference::Attributes(x) => (copy_names(x.added()), copy_names(x.removed())),
        SectionDifference::Aliases(x) => (copy_names(x.added()), copy_names(x.removed())),
    };
    let result = JsonDifference {
        component: owned(key(c)),
        description: owned(heading(c)),
        added,
        removed,
        modified: json_modified(d),
    };
    assert(json_difference_view(result) =~= json_of(c, *d));
    result
}


/// The differences structured output keeps: those whose text section would
/// be shown.
pub open spec fn kept_differences(options: DiffOptionsView, sections: Seq<(Component, SectionDifference)>) -> Seq<JsonDifferenceView> {
    sections.filter_map(
        |s: (Component, SectionDifference)| if shows(options, s.0, s.1) { Some(json_of(s.0, s.1)) } else { None },
    )
}

/// The number of items a difference counts.
pub open spec fn item_count(d: JsonDifferenceView) -> int {
    (d.added.len() + d.removed.len() + d.modified.len()) as int
}

/// The items of all the differences together.
pub open spec fn total_items(ds: Seq<JsonDifferenceView>) -> int
    decreases ds.len(),
{
    if ds.len() == 0 { 0 } else { total_items(ds.drop_last()) + item_count(ds.last()) }
}

/// Modified items as JSON objects separated by commas.
pub open spec fn json_modified_text(items: Seq<(Seq<char>, Seq<Seq<char>>)>) -> Seq<char>
    decreases items.len(),
{
    if items.len() == 0 {
        Seq::empty()
    } else {
        let item = "{\"summary\":"@ + json_string(items.last().0) + ",\"details\":["@ + json_strings(items.last().1) + "]}"@;
        if items.len() == 1 { item } else { json_modified_text(items.drop_last()) + ","@ + item }
    }
}

/// The opening of a difference's JSON object: its names and counts.
pub open spec fn json_counts_text(d: JsonDifferenceView) -> Seq<char> {
    "{\"component\":"@ + json_string(d.component) + ",\"description\":"@ + json_string(d.description)
        + ",\"counts\":{\"added\":"@ + decimal(d.added.len()) + ",\"removed\":"@ + decimal(d.removed.len())
        + ",\"modified\":"@ + decimal(d.modified.len()) + "},"@
}

/// The rest of a difference's JSON object: its lists, left empty with
/// `stats`.
pub open spec fn json_lists_text(d: JsonDifferenceView, stats: bool) -> Seq<char> {
    "\"added\":["@ + (if stats { Seq::empty() } else { json_strings(d.added) }) + "],\"removed\":["@
        + (if stats { Seq::empty() } else { json_strings(d.removed) }) + "],\"modified\":["@
        + (if stats { Seq::empty() } else { json_modified_text(d.modified) }) + "]}"@
}

/// A difference as a JSON object; with `stats`, its lists are left empty.
pub open spec fn json_difference_text(d: JsonDifferenceView, stats: bool) -> Seq<char> {
    json_counts_text(d) + json_lists_text(d, stats)
}

/// Differences as JSON objects separated by commas.
pub open spec fn json_differences_text(ds: Seq<JsonDifferenceView>, stats: bool) -> Seq<char>
    decreases ds.len(),
{
    if ds.len() == 0 {
        Seq::empty()
    } else if ds.len() == 1 {
        json_difference_text(ds[0], stats)
    } else {
        json_differences_text(ds.drop_last(), stats) + ","@ + json_difference_text(ds.last(), stats)
    }
}

/// The keys of the components asked for, in report order.
pub open spec fn query_components(options: DiffOptionsView) -> Seq<Seq<char>> {
    component_order().filter_map(|c: Component| if asks_for(options, c) { Some(component_key(c)) } else { None })
}

/// The comparison's JSON report.
pub open spec fn diff_json(
    options: DiffOptionsView,
    left: Seq<char>,
    right: Seq<char>,
    version: Seq<char>,
    sections: Seq<(Component, SectionDifference)>,
) -> Seq<char> {
    let kept = kept_differences(options, sections);
    "{\"schema\":\"setools-rs.sediff\",\"schema_version\":1,\"tool\":{\"name\":\"sediff\",\"version\":"@
        + json_string(version) + "},\"policy\":{\"left_path\":"@ + json_string(left) + ",\"right_path\":"@
        + json_string(right) + "},\"query\":{\"all\":"@ + (if has_selection(options) { "false"@ } else { "true"@ })
        + ",\"stats\":"@ + (if options.stats { "true"@ } else { "false"@ }) + ",\"components\":["@
        + json_strings(query_components(options)) + "]},\"result_count\":"@ + decimal(total_items(kept) as nat)
        + ",\"results\":["@ + json_differences_text(kept, options.stats) + "]}\n"@
}

/// The structured differences to keep, in the order given.
fn kept(options: &DiffOptions, sections: &Vec<(Component, SectionDifference)>) -> (result: Vec<JsonDifference>)
    ensures
        result@.map_values(|d: JsonDifference| json_difference_view(d)) == kept_differences(diff_options_view(*options), sections@),
{
    let ghost view = diff_options_view(*options);
    let ghost keep = |s: (Component, SectionDifference)| if shows(view, s.0, s.1) { Some(json_of(s.0, s.1)) } else { None };
    let mut result: Vec<JsonDifference> = Vec::new();
    let mut index: usize = 0;
    assert(sections@.take(0).filter_map(keep) =~= Seq::<JsonDifferenceView>::empty());
    assert(result@.map_values(|d: JsonDifference| json_difference_view(d)) =~= Seq::<JsonDifferenceView>::empty());
    while index < sections.len()
        invariant
            index <= sections.len(),
            view == diff_options_view(*options),
            keep == (|s: (Component, SectionDifference)| if shows(view, s.0, s.1) { Some(json_of(s.0, s.1)) } else { None }),
            result@.map_values(|d: JsonDifference| json_difference_view(d)) == sections@.take(index as int).filter_map(keep),
        decreases sections.len() - index,
    {
        let (c, d) = &sections[index];
        proof {
            sections@.lemma_filter_map_take_succ(keep, index as int);
        }
        if section_shown(options, *c, d) {
            let ghost before = result@.map_values(|d: JsonDifference| json_difference_view(d));
            let converted = json_difference(*c, d);
            result.push(converted);
            assert(result@.map_values(|d: JsonDifference| json_difference_view(d)) =~= before.push(json_of(*c, *d)));
        }
        index = index + 1;
    }
    assert(sections@.take(sections.len() as int) =~= sections@);
    result
}

/// Appends modified items as JSON objects separated by commas.
fn push_json_modified(output: &mut String, items: &Vec<JsonModifiedItem>)
    ensures
        final(output)@ == old(output)@ + json_modified_text(items@.map_values(|m: JsonModifiedItem| json_item_view(m))),
{
    let ghost start = output@;
    let ghost all = items@.map_values(|m: JsonModifiedItem| json_item_view(m));
    let mut index: usize = 0;
    assert(all.take(0) =~= Seq::<(Seq<char>, Seq<Seq<char>>)>::empty());
    assert(output@ =~= start + json_modified_text(all.take(0)));
    while index < items.len()
        invariant
            index <= items.len(),
            all == items@.map_values(|m: JsonModifiedItem| json_item_view(m)),
            output@ == start + json_modified_text(all.take(index as int)),
        decreases items.len() - index,
    {
        if index > 0 {
            push_str(output, ",");
        }
        push_str(output, "{\"summary\":");
        push_string(output, items[index].summary.as_str());
        push_str(output, ",\"details\":[");
        push_json_strings(output, &items[index].details);
        push_str(output, "]}");
        proof {
            let next = all.take(index + 1);
            assert(next.drop_last() =~= all.take(index as int));
            assert(next.last() == json_item_view(items@[index as int]));
            assert(output@ =~= start + json_modified_text(next));
        }
        index = index + 1;
    }
    assert(all.take(items.len() as int) =~= all);
}

/// Appends the names and counts of a difference.
fn push_json_counts(output: &mut String, d: &JsonDifference)
    ensures
        final(output)@ == old(output)@ + json_counts_text(json_difference_view(*d)),
{
    let ghost start = output@;
    push_str(output, "{\"component\":");
    push_string(output, d.component.as_str());
    push_str(output, ",\"description\":");
    push_string(output, d.description.as_str());
    push_str(output, ",\"counts\":{\"added\":");
    push_decimal(output, d.added.len());
    push_str(output, ",\"removed\":");
    push_decimal(output, d.removed.len());
    push_str(output, ",\"modified\":");
    push_decimal(output, d.modified.len());
    push_str(output, "},");
    assert(output@ =~= start + json_counts_text(json_difference_view(*d)));
}

/// Appends the lists of a difference.
fn push_json_lists(output: &mut String, d: &JsonDifference, stats: bool)
    ensures
        final(output)@ == old(output)@ + json_lists_text(json_difference_view(*d), stats),
{
    let ghost start = output@;
    push_str(output, "\"added\":[");
    if !stats {
        push_json_strings(output, &d.added);
    }
    let ghost a = output@;
    push_str(output, "],\"removed\":[");
    if !stats {
        push_json_strings(output, &d.removed);
    }
    let ghost b = output@;
    push_str(output, "],\"modified\":[");
    if !stats {
        push_json_modified(output, &d.modified);
    }
    let ghost c = output@;
    push_str(output, "]}");
    proof {
        let v = json_difference_view(*d);
        assert(a =~= start + "\"added\":["@ + (if stats { Seq::empty() } else { json_strings(v.added) }));
        assert(b =~= a + "],\"removed\":["@ + (if stats { Seq::empty() } else { json_strings(v.removed) }));
        assert(c =~= b + "],\"modified\":["@ + (if stats { Seq::empty() } else { json_modified_text(v.modified) }));
        assert(output@ =~= start + json_lists_text(v, stats));
    }
}

/// Appends a difference as a JSON object.
fn push_json_difference(output: &mut String, d: &JsonDifference, stats: bool)
    ensures
        final(output)@ == old(output)@ + json_difference_text(json_difference_view(*d), stats),
{
    let ghost start = output@;
    push_json_counts(output, d);
    push_json_lists(output, d, stats);
    assert(output@ =~= start + json_difference_text(json_difference_view(*d), stats));
}

/// Appends the keys of the components asked for, in report order,
/// separated by commas.
fn push_query_components(output: &mut String, options: &DiffOptions)
    ensures
        final(output)@ == old(output)@ + json_strings(query_components(diff_options_view(*options))),
{
    let ghost view = diff_options_view(*options);
    let ghost keep = |c: Component| if asks_for(view, c) { Some(component_key(c)) } else { None };
    let order = components();
    let mut chosen: Vec<String> = Vec::new();
    let mut index: usize = 0;
    assert(order@.take(0).filter_map(keep) =~= Seq::<Seq<char>>::empty());
    assert(texts(chosen@) =~= Seq::<Seq<char>>::empty());
    while index < order.len()
        invariant
            index <= order.len(),
            order@ == component_order(),
            view == diff_options_view(*options),
            keep == (|c: Component| if asks_for(view, c) { Some(component_key(c)) } else { None }),
            texts(chosen@) == order@.take(index as int).filter_map(keep),
        decreases order.len() - index,
    {
        let c = order[index];
        proof {
            order@.lemma_filter_map_take_succ(keep, index as int);
        }
        if selects(options, c) {
            let ghost before = texts(chosen@);
            chosen.push(owned(key(c)));
            assert(texts(chosen@) =~= before.push(component_key(c)));
        }
        index = index + 1;
    }
    assert(order@.take(order.len() as int) =~= order@);
    push_json_strings(output, &chosen);
}

/// Writes the comparison's JSON report; `version` is the tool's version.
pub fn render_diff_json(
    options: &DiffOptions,
    left: &str,
    right: &str,
    version: &str,
    sections: &Vec<(Component, SectionDifference)>,
) -> (result: String)
    requires
        total_items(kept_differences(diff_options_view(*options), sections@)) <= usize::MAX,
    ensures
        result@ == diff_json(diff_options_view(*options), left@, right@, version@, sections@),
{
    let ghost view = diff_options_view(*options);
    let differences = kept(options, sections);
    let ghost all = differences@.map_values(|d: JsonDifference| json_difference_view(d));
    let mut total: usize = 0;
    let mut index: usize = 0;
    while index < differences.len()
        invariant
            index <= differences.len(),
            all == differences@.map_values(|d: JsonDifference| json_difference_view(d)),
            total_items(all) <= usize::MAX,
            total == total_items(all.take(index as int)),
        decreases differences.len() - index,
    {
        proof {
            lemma_total_items_prefix(all, index as int);
            assert(all.take(index + 1).drop_last() =~= all.take(index as int));
            assert(all[index as int] == json_difference_view(differences@[index as int]));
        }
        let d = &differences[index];
        total = total + d.added.len() + d.removed.len() + d.modified.len();
        index = index + 1;
    }
    assert(all.take(differences.len() as int) =~= all);
    let mut output = String::new();
    push_str(&mut output, "{\"schema\":\"setools-rs.sediff\",\"schema_version\":1,\"tool\":{\"name\":\"sediff\",\"version\":");
    push_string(&mut output, version);
    push_str(&mut output, "},\"policy\":{\"left_path\":");
    push_string(&mut output, left);
    push_str(&mut output, ",\"right_path\":");
    push_string(&mut output, right);
    push_str(&mut output, "},\"query\":{\"all\":");
    push_str(&mut output, if options.components.len() == 0 { "true" } else { "false" });
    push_str(&mut output, ",\"stats\":");
    push_str(&mut output, if options.stats { "true" } else { "false" });
    push_str(&mut output, ",\"components\":[");
    push_query_components(&mut output, options);
    push_str(&mut output, "]},\"result_count\":");
    push_decimal(&mut output, total);
    push_str(&mut output, ",\"results\":[");
    let ghost head = output@;
    let mut index: usize = 0;
    assert(all.take(0) =~= Seq::<JsonDifferenceView>::empty());
    assert(output@ =~= head + json_differences_text(all.take(0), options.stats));
    while index < differences.len()
        invariant
            index <= differences.len(),
            all == differences@.map_values(|d: JsonDifference| json_difference_view(d)),
            output@ == head + json_differences_text(all.take(index as int), options.stats),
        decreases differences.len() - index,
    {
        if index > 0 {
            push_str(&mut output, ",");
        }
        push_json_difference(&mut output, &differences[index], options.stats);
        proof {
            let next = all.take(index + 1);
            assert(next.drop_last() =~= all.take(index as int));
            assert(next.last() == json_difference_view(differences@[index as int]));
            if index == 0 {
                assert(next[0] == next.last());
            }
            assert(output@ =~= head + json_differences_text(next, options.stats));
        }
        index = index + 1;
    }
    assert(all.take(differences.len() as int) =~= all);
    push_str(&mut output, "]}\n");
    assert(output@ =~= diff_json(view, left@, right@, version@, sections@));
    output
}

/// The items of the first differences are no more than those of all.
proof fn lemma_total_items_prefix(ds: Seq<JsonDifferenceView>, k: int)
    requires
        0 <= k <= ds.len(),
    ensures
        0 <= total_items(ds.take(k)) <= total_items(ds),
        k < ds.len() ==> total_items(ds.take(k)) + item_count(ds[k]) <= total_items(ds),
    decreases ds.len(),
{
    if ds.len() > 0 {
        if k == ds.len() {
            assert(ds.take(k) =~= ds);
            lemma_total_items_prefix(ds.drop_last(), k - 1);
        } else {
            assert(ds.drop_last().take(k) =~= ds.take(k));
            lemma_total_items_prefix(ds.drop_last(), k);
            if k < ds.len() - 1 {
                assert(ds.drop_last()[k] == ds[k]);
            } else {
                assert(ds.drop_last().take(k) =~= ds.drop_last());
            }
        }
    } else {
        assert(ds.take(k) =~= ds);
    }
}


/// A component's difference is empty only when it has nothing added,
/// nothing removed and nothing modified; so when every component is wanted,
/// a component with any added, removed or modified item is shown.
pub proof fn law_any_changed_item_is_shown(options: DiffOptionsView, c: Component, d: SectionDifference)
    ensures
        match d {
            SectionDifference::Properties(x) => x@.len() > 0 ==> !difference_empty(d),
            SectionDifference::Names(x) => (x@.0.len() > 0 || x@.1.len() > 0) ==> !difference_empty(d),
            SectionDifference::Compatibility(x) => (x@.0.len() > 0 || x@.1.len() > 0 || x@.2.len() > 0) ==> !difference_empty(d),
            SectionDifference::Booleans(x) => (x@.0.len() > 0 || x@.1.len() > 0 || x@.2.len() > 0) ==> !difference_empty(d),
            SectionDifference::Attributes(x) => (x@.0.len() > 0 || x@.1.len() > 0 || x@.2.len() > 0) ==> !difference_empty(d),
            SectionDifference::Aliases(x) => (x@.0.len() > 0 || x@.1.len() > 0 || x@.2.len() > 0) ==> !difference_empty(d),
        },
        !has_selection(options) && !difference_empty(d) ==> shows(options, c, d),
        match d {
            SectionDifference::Booleans(x) => !has_selection(options) && x@.2.len() > 0 ==> shows(options, c, d),
            SectionDifference::Attributes(x) => !has_selection(options) && x@.2.len() > 0 ==> shows(options, c, d),
            SectionDifference::Aliases(x) => !has_selection(options) && x@.2.len() > 0 ==> shows(options, c, d),
            SectionDifference::Compatibility(x) => !has_selection(options) && x@.2.len() > 0 ==> shows(options, c, d),
            _ => true,
        },
{
}
} // verus!
