//! The policy checker's configuration: an INI document whose sections each
//! configure one check, and the vocabulary of checks and their results.
use vstd::prelude::*;
use crate::keyed::{key_set, value_of, unique_keys, find_key, set_entry, lemma_value_at};
use crate::scan::{lines_of, trimmed, trim, is_space, space, ascii_lowercase, lowercase_ascii, decimal_text,
    push_count, split_lines, words_of, split_words};
use crate::text::{texts, owned, push_str, push_char, chars_of, string_of, same_text, contains_text, slice_chars, copy_texts};

verus! {

/// A checker configuration or value is invalid.
#[derive(Debug)]
pub struct CheckerConfigError {
    message: String,
}

impl View for CheckerConfigError {
    type V = Seq<char>;

    closed spec fn view(&self) -> Seq<char> {
        self.message@
    }
}

impl CheckerConfigError {
    /// Makes an error with the given message.
    pub fn new(message: &str) -> (result: CheckerConfigError)
        ensures
            result@ == message@,
    {
        CheckerConfigError { message: owned(message) }
    }

    /// Returns the message.
    pub fn message(&self) -> (result: &str)
        ensures
            result@ == self@,
    {
        self.message.as_str()
    }

    /// Returns the message as an owned string.
    pub fn to_string(&self) -> (result: String)
        ensures
            result@ == self@,
    {
        owned(self.message.as_str())
    }
}

/// Severity of a non-fatal configuration diagnostic.
#[derive(PartialEq, Eq, Structural, Clone, Copy, Debug)]
pub enum NoticeLevel {
    /// Informational validation message.
    Info,
    /// Debug-only validation message.
    Debug,
}

/// A non-fatal message produced while validating a configuration.
#[derive(Debug)]
pub struct Notice {
    /// Message severity.
    pub level: NoticeLevel,
    /// The logger the message belongs to.
    pub module: String,
    /// The message.
    pub message: String,
}

/// A kind of policy check.
#[derive(PartialEq, Eq, Structural, Clone, Copy, Debug)]
pub enum CheckType {
    /// A type attribute must have no members.
    EmptyTypeAttribute,
    /// The selected TE allow rules must be expected or exempt.
    AssertTe,
    /// The selected RBAC allow rules must be expected or exempt.
    AssertRbac,
    /// Executable file types must be read-only.
    ReadOnlyExecutables,
    /// Kernel-module file types must be read-only.
    ReadOnlyKernelModules,
}

/// The configuration key of a check type.
pub open spec fn check_name(check: CheckType) -> Seq<char> {
    match check {
        CheckType::EmptyTypeAttribute => "empty_typeattr"@,
        CheckType::AssertTe => "assert_te"@,
        CheckType::AssertRbac => "assert_rbac"@,
        CheckType::ReadOnlyExecutables => "ro_execs"@,
        CheckType::ReadOnlyKernelModules => "ro_kmods"@,
    }
}

/// The logger of a check type.
pub open spec fn check_logger(check: CheckType) -> Seq<char> {
    match check {
        CheckType::EmptyTypeAttribute => "setools.checker.emptyattr"@,
        CheckType::AssertTe => "setools.checker.assertte"@,
        CheckType::AssertRbac => "setools.checker.assertrbac"@,
        CheckType::ReadOnlyExecutables => "setools.checker.roexec"@,
        CheckType::ReadOnlyKernelModules => "setools.checker.rokmod"@,
    }
}

/// The message logged when a check of the type runs.
pub open spec fn check_run_message(check: CheckType) -> Seq<char> {
    match check {
        CheckType::EmptyTypeAttribute => "Checking type attribute is empty."@,
        CheckType::AssertTe => "Checking TE allow rule assertion."@,
        CheckType::AssertRbac => "Checking RBAC allow rule assertion."@,
        CheckType::ReadOnlyExecutables => "Checking executables are read-only."@,
        CheckType::ReadOnlyKernelModules => "Checking kernel modules are read-only."@,
    }
}

impl CheckType {
    /// Returns the configuration key of the check type.
    pub fn name(self) -> (result: &'static str)
        ensures
            result@ == check_name(self),
    {
        match self {
            CheckType::EmptyTypeAttribute => "empty_typeattr",
            CheckType::AssertTe => "assert_te",
            CheckType::AssertRbac => "assert_rbac",
            CheckType::ReadOnlyExecutables => "ro_execs",
            CheckType::ReadOnlyKernelModules => "ro_kmods",
        }
    }

    /// Returns the logger of the check type.
    pub fn logger(self) -> (result: &'static str)
        ensures
            result@ == check_logger(self),
    {
        match self {
            CheckType::EmptyTypeAttribute => "setools.checker.emptyattr",
            CheckType::AssertTe => "setools.checker.assertte",
            CheckType::AssertRbac => "setools.checker.assertrbac",
            CheckType::ReadOnlyExecutables => "setools.checker.roexec",
            CheckType::ReadOnlyKernelModules => "setools.checker.rokmod",
        }
    }

    /// Returns the message logged when a check of the type runs.
    pub fn run_message(self) -> (result: &'static str)
        ensures
            result@ == check_run_message(self),
    {
        match self {
            CheckType::EmptyTypeAttribute => "Checking type attribute is empty.",
            CheckType::AssertTe => "Checking TE allow rule assertion.",
            CheckType::AssertRbac => "Checking RBAC allow rule assertion.",
            CheckType::ReadOnlyExecutables => "Checking executables are read-only.",
            CheckType::ReadOnlyKernelModules => "Checking kernel modules are read-only.",
        }
    }
}

/// The kind of file a read-only check protects.
#[derive(PartialEq, Eq, Structural, Clone, Copy, Debug)]
pub enum ReadOnlyKind {
    /// Executable file types.
    Executable,
    /// Kernel-module file types.
    KernelModule,
}

/// Settings of a TE assertion query.
#[derive(Debug)]
pub struct TeQuerySettings {
    /// Source type or attribute, if any.
    pub source: Option<String>,
    /// Target type or attribute, if any.
    pub target: Option<String>,
    /// Selected object classes.
    pub classes: Vec<String>,
    /// Selected permissions.
    pub permissions: Vec<String>,
}

/// Settings of an RBAC assertion query.
#[derive(Debug)]
pub struct RbacQuerySettings {
    /// Source role, if any.
    pub source: Option<String>,
    /// Target role, if any.
    pub target: Option<String>,
}

/// One rule evaluated by an assertion check.
#[derive(PartialEq, Eq, Structural, Clone, Copy, Debug)]
pub struct RuleEvaluation {
    /// The position of the rule.
    pub rule: usize,
    /// Whether the rule became a finding.
    pub failed: bool,
}

/// The options every check accepts.
pub open spec fn global_key(key: Seq<char>) -> bool {
    key == "check_type"@ || key == "desc"@ || key == "disable"@
}

/// A key the check does not accept.
pub open spec fn invalid_key(key: Seq<char>, local: Seq<Seq<char>>) -> bool {
    !global_key(key) && !local.contains(key)
}

/// Checks that every option of a section is one the check accepts; the
/// error names the first refused key in name order.
pub fn validate_keys(check: &str, options: &Vec<(String, String)>, local: &Vec<String>) -> (result: Result<(), CheckerConfigError>)
    ensures
        match result {
            Ok(()) => forall|key: Seq<char>| #[trigger] key_set(options@).contains(key) ==> !invalid_key(key, texts(local@)),
            Err(error) => exists|key: Seq<char>| {
                &&& #[trigger] key_set(options@).contains(key)
                &&& invalid_key(key, texts(local@))
                &&& (forall|other: Seq<char>| #[trigger] key_set(options@).contains(other) && invalid_key(other, texts(local@))
                    ==> other == key || crate::text::text_lt(key, other))
                &&& error@ == check@ + ": Invalid option: "@ + key
            },
        },
{
    let mut worst: Option<usize> = None;
    let mut index: usize = 0;
    while index < options.len()
        invariant
            index <= options.len(),
            match worst {
                Some(w) => w < index && invalid_key(options@[w as int].0@, texts(local@))
                    && forall|k: int| 0 <= k < index && invalid_key(#[trigger] options@[k].0@, texts(local@))
                        ==> options@[k].0@ == options@[w as int].0@ || crate::text::text_lt(options@[w as int].0@, options@[k].0@),
                None => forall|k: int| 0 <= k < index ==> !invalid_key(#[trigger] options@[k].0@, texts(local@)),
            },
        decreases options.len() - index,
    {
        let key = options[index].0.as_str();
        let accepted = same_text(key, "check_type") || same_text(key, "desc") || same_text(key, "disable") || contains_text(local, key);
        if !accepted {
            match worst {
                None => {
                    worst = Some(index);
                },
                Some(w) => {
                    let candidate = chars_of(key);
                    let current = chars_of(options[w].0.as_str());
                    if crate::text::text_less(&candidate, &current) {
                        proof {
                            assert forall|k: int| 0 <= k < index + 1 && invalid_key(#[trigger] options@[k].0@, texts(local@))
                                implies options@[k].0@ == options@[index as int].0@ || crate::text::text_lt(options@[index as int].0@, options@[k].0@) by {
                                if k < index && options@[k].0@ != options@[w as int].0@ {
                                    crate::text::lemma_text_lt_transitive(candidate@, current@, options@[k].0@);
                                }
                            }
                        }
                        worst = Some(index);
                    } else {
                        proof {
                            crate::text::lemma_text_lt_total(candidate@, current@);
                        }
                    }
                },
            }
        }
        index = index + 1;
    }
    match worst {
        None => {
            proof {
                assert forall|key: Seq<char>| #[trigger] key_set(options@).contains(key) implies !invalid_key(key, texts(local@)) by {
                    let k = choose|k: int| 0 <= k < options@.len() && options@[k].0@ == key;
                    assert(!invalid_key(options@[k].0@, texts(local@)));
                }
            }
            Ok(())
        },
        Some(w) => {
            let mut message = owned(check);
            push_str(&mut message, ": Invalid option: ");
            push_str(&mut message, options[w].0.as_str());
            proof {
                let key = options@[w as int].0@;
                assert(key_set(options@).contains(key));
                assert forall|other: Seq<char>| #[trigger] key_set(options@).contains(other) && invalid_key(other, texts(local@))
                    implies other == key || crate::text::text_lt(key, other) by {
                    let k = choose|k: int| 0 <= k < options@.len() && options@[k].0@ == other;
                    assert(invalid_key(options@[k].0@, texts(local@)));
                }
            }
            Err(CheckerConfigError { message })
        },
    }
}

/// Whether some member of `actual` is neither expected nor exempt.
pub fn has_unexpected(actual: &Vec<usize>, expected: &Vec<usize>, exempt: &Vec<usize>) -> (result: bool)
    ensures
        result == exists|x: usize| actual@.contains(x) && !expected@.contains(x) && !exempt@.contains(x),
{
    let mut index: usize = 0;
    while index < actual.len()
        invariant
            index <= actual.len(),
            forall|k: int| 0 <= k < index ==> expected@.contains(#[trigger] actual@[k]) || exempt@.contains(actual@[k]),
        decreases actual.len() - index,
    {
        let x = actual[index];
        if !crate::pairs::contains_type(expected, x) && !crate::pairs::contains_type(exempt, x) {
            assert(actual@.contains(x));
            return true;
        }
        index = index + 1;
    }
    proof {
        assert forall|x: usize| actual@.contains(x) implies expected@.contains(x) || exempt@.contains(x) by {
            let k = choose|k: int| 0 <= k < actual@.len() && actual@[k] == x;
            assert(expected@.contains(actual@[k]) || exempt@.contains(actual@[k]));
        }
    }
    false
}

/// The value without surrounding white space, if anything is left.
pub fn nonempty(value: Option<&String>) -> (result: Option<String>)
    ensures
        match value {
            Some(v) => if trimmed(v@).len() > 0 {
                result matches Some(r) && r@ == trimmed(v@)
            } else {
                result is None
            },
            None => result is None,
        },
{
    match value {
        None => None,
        Some(v) => {
            let text = chars_of(v.as_str());
            let t = trim(&text);
            if t.len() > 0 { Some(string_of(&t)) } else { None }
        },
    }
}

/// The words of the value; none without a value.
pub fn split_value(value: Option<&String>) -> (result: Vec<String>)
    ensures
        texts(result@) == match value {
            Some(v) => words_of(v@),
            None => Seq::<Seq<char>>::empty(),
        },
{
    match value {
        None => {
            let result: Vec<String> = Vec::new();
            assert(texts(result@) =~= Seq::<Seq<char>>::empty());
            result
        },
        Some(v) => {
            let text = chars_of(v.as_str());
            let words = split_words(&text);
            let mut result: Vec<String> = Vec::new();
            let mut index: usize = 0;
            while index < words.len()
                invariant
                    index <= words.len(),
                    words@.len() == words_of(v@).len(),
                    forall|i: int| 0 <= i < words@.len() ==> #[trigger] words@[i]@ == words_of(v@)[i],
                    texts(result@) == words_of(v@).take(index as int),
                decreases words.len() - index,
            {
                let word = string_of(&words[index]);
                let ghost before = texts(result@);
                result.push(word);
                assert(texts(result@) =~= before.push(word@));
                assert(word@ == words_of(v@)[index as int]);
                index = index + 1;
                assert(texts(result@) =~= words_of(v@).take(index as int));
            }
            assert(words_of(v@).take(words.len() as int) =~= words_of(v@));
            result
        },
    }
}

/// A value that means yes: `yes`, `true` or `1` in any ASCII case, with
/// white space around it.
pub open spec fn yes_value(value: Seq<char>) -> bool {
    let word = ascii_lowercase(trimmed(value));
    word == "yes"@ || word == "true"@ || word == "1"@
}

/// Whether an option's value means yes; no value means no.
pub fn config_bool(value: Option<&String>) -> (result: bool)
    ensures
        result == match value {
            Some(v) => yes_value(v@),
            None => false,
        },
{
    match value {
        None => false,
        Some(v) => {
            let text = chars_of(v.as_str());
            let t = trim(&text);
            let word = string_of(&lowercase_ascii(&t));
            same_text(word.as_str(), "yes") || same_text(word.as_str(), "true") || same_text(word.as_str(), "1")
        },
    }
}

/// The options held by a list of named values.
pub open spec fn text_map(entries: Seq<(String, String)>) -> Map<Seq<char>, Seq<char>> {
    Map::new(|key: Seq<char>| key_set(entries).contains(key), |key: Seq<char>| value_of(entries, key)@)
}

/// Storing a value under a name updates the options it holds.
proof fn lemma_text_map_set(before: Seq<(String, String)>, after: Seq<(String, String)>, name: Seq<char>, value: Seq<char>)
    requires
        key_set(after) == key_set(before).insert(name),
        value_of(after, name)@ == value,
        forall|other: Seq<char>| other != name && key_set(before).contains(other) ==> value_of(after, other) == value_of(before, other),
    ensures
        text_map(after) == text_map(before).insert(name, value),
{
    assert(text_map(after) =~= text_map(before).insert(name, value));
}

/// One section of an INI document.
#[derive(Debug)]
pub struct IniSection {
    /// The section name.
    pub name: String,
    /// Its options, each name once.
    pub options: Vec<(String, String)>,
    /// The options set in the section itself rather than inherited.
    pub explicit: Vec<String>,
}

/// A section as plain values.
pub struct SectionView {
    /// The section name.
    pub name: Seq<char>,
    /// Its options.
    pub options: Map<Seq<char>, Seq<char>>,
    /// The options set in the section itself.
    pub explicit: Set<Seq<char>>,
}

/// The plain values of a section.
pub open spec fn section_view(section: IniSection) -> SectionView {
    SectionView { name: section.name@, options: text_map(section.options@), explicit: texts(section.explicit@).to_set() }
}

/// The plain values of a list of sections.
pub open spec fn section_views(sections: Seq<IniSection>) -> Seq<SectionView> {
    sections.map_values(|s: IniSection| section_view(s))
}

/// The reader's state between lines.
pub struct IniModel {
    /// The options of the `DEFAULT` section.
    pub defaults: Map<Seq<char>, Seq<char>>,
    /// The sections so far.
    pub sections: Seq<SectionView>,
    /// The section being read, if any.
    pub current: Option<int>,
    /// Whether the `DEFAULT` section is being read.
    pub in_default: bool,
    /// The option a continuation line extends.
    pub last_key: Option<Seq<char>>,
}

/// A message with a line number.
pub open spec fn at_line(message: Seq<char>, line: int) -> Seq<char> {
    message + " at line "@ + decimal_text(line)
}

/// The state after a section header naming `name`.
pub open spec fn ini_header(m: IniModel, name: Seq<char>, line: int) -> Result<IniModel, Seq<char>> {
    if name.len() == 0 {
        Err(at_line("empty section name"@, line))
    } else if name == "DEFAULT"@ {
        Ok(IniModel { current: None, in_default: true, last_key: None, ..m })
    } else if exists|i: int| 0 <= i < m.sections.len() && #[trigger] m.sections[i].name == name {
        Err("section '"@ + name + "' already exists"@)
    } else {
        Ok(IniModel {
            sections: m.sections.push(SectionView { name, options: m.defaults, explicit: Set::empty() }),
            current: Some(m.sections.len() as int),
            in_default: false,
            last_key: None,
            ..m
        })
    }
}

/// The state after a continuation line holding `text`.
pub open spec fn ini_continue(m: IniModel, text: Seq<char>, line: int) -> Result<IniModel, Seq<char>> {
    match m.last_key {
        None => Err(at_line("unexpected continuation"@, line)),
        Some(key) => match m.current {
            Some(i) => {
                let section = m.sections[i];
                Ok(IniModel {
                    sections: m.sections.update(i, SectionView {
                        options: section.options.insert(key, section.options[key] + seq!['\n'] + text),
                        ..section
                    }),
                    ..m
                })
            },
            None => if m.in_default {
                Ok(IniModel { defaults: m.defaults.insert(key, m.defaults[key] + seq!['\n'] + text), ..m })
            } else {
                Err(at_line("unexpected continuation"@, line))
            },
        },
    }
}

/// A section given a default option it does not set itself.
pub open spec fn inherit(section: SectionView, key: Seq<char>, value: Seq<char>) -> SectionView {
    if section.explicit.contains(key) {
        section
    } else {
        SectionView { options: section.options.insert(key, value), ..section }
    }
}

/// The state after an option line setting `key` to `value`.
pub open spec fn ini_option(m: IniModel, key: Seq<char>, value: Seq<char>, line: int) -> Result<IniModel, Seq<char>> {
    match m.current {
        Some(i) => {
            let section = m.sections[i];
            if section.explicit.contains(key) {
                Err("option '"@ + key + "' already exists"@)
            } else {
                Ok(IniModel {
                    sections: m.sections.update(i, SectionView {
                        options: section.options.insert(key, value),
                        explicit: section.explicit.insert(key),
                        ..section
                    }),
                    last_key: Some(key),
                    ..m
                })
            }
        },
        None => if m.in_default {
            if m.defaults.dom().contains(key) {
                Err("option '"@ + key + "' already exists"@)
            } else {
                Ok(IniModel {
                    defaults: m.defaults.insert(key, value),
                    sections: m.sections.map_values(|s: SectionView| inherit(s, key, value)),
                    last_key: Some(key),
                    ..m
                })
            }
        } else {
            Err(at_line("option found before any section"@, line))
        },
    }
}

/// The position of the first `=` or `:` in a line.
pub open spec fn separator_at(raw: Seq<char>) -> Option<int> {
    if exists|k: int| 0 <= k < raw.len() && (raw[k] == '=' || raw[k] == ':') {
        Some(choose|k: int| 0 <= k < raw.len() && (raw[k] == '=' || raw[k] == ':')
            && forall|j: int| 0 <= j < k ==> raw[j] != '=' && raw[j] != ':')
    } else {
        None
    }
}

/// The state after one more line.
#[verifier::opaque]
pub open spec fn ini_line(m: IniModel, raw: Seq<char>, line: int) -> Result<IniModel, Seq<char>> {
    let text = trimmed(raw);
    if text.len() == 0 || text[0] == '#' || text[0] == ';' {
        Ok(m)
    } else if text[0] == '[' {
        if text.len() < 2 || text.last() != ']' {
            Err(at_line("invalid section header"@, line))
        } else {
            ini_header(m, text.subrange(1, text.len() - 1), line)
        }
    } else if raw.len() > 0 && is_space(raw[0]) {
        ini_continue(m, text, line)
    } else {
        match separator_at(raw) {
            None => Err(at_line("option line has no separator"@, line)),
            Some(k) => {
                let key = ascii_lowercase(trimmed(raw.take(k)));
                if key.len() == 0 {
                    Err(at_line("empty option name"@, line))
                } else {
                    ini_option(m, key, trimmed(raw.skip(k + 1)), line)
                }
            },
        }
    }
}

/// The state after the given lines, or the first error.
pub open spec fn ini_lines(lines: Seq<Seq<char>>) -> Result<IniModel, Seq<char>>
    decreases lines.len(),
{
    if lines.len() == 0 {
        Ok(IniModel { defaults: Map::empty(), sections: Seq::empty(), current: None, in_default: false, last_key: None })
    } else {
        match ini_lines(lines.drop_last()) {
            Ok(m) => ini_line(m, lines.last(), lines.len() as int),
            Err(message) => Err(message),
        }
    }
}

/// The sections of an INI document, or the first error.
pub open spec fn ini_sections(contents: Seq<char>) -> Result<Seq<SectionView>, Seq<char>> {
    match ini_lines(lines_of(contents)) {
        Ok(m) => Ok(m.sections),
        Err(message) => Err(message),
    }
}

/// Once a line fails, the document fails with it.
proof fn lemma_ini_error_stays(lines: Seq<Seq<char>>, k: int)
    requires
        0 <= k <= lines.len(),
        ini_lines(lines.take(k)) is Err,
    ensures
        ini_lines(lines) == ini_lines(lines.take(k)),
    decreases lines.len(),
{
    if lines.len() > k {
        assert(lines.drop_last().take(k) =~= lines.take(k));
        lemma_ini_error_stays(lines.drop_last(), k);
    } else {
        assert(lines.take(k) =~= lines);
    }
}

/// The reader's state while it reads lines.
struct IniReader {
    defaults: Vec<(String, String)>,
    sections: Vec<IniSection>,
    current: Option<usize>,
    in_default: bool,
    last_key: Option<String>,
}

impl IniReader {
    spec fn model(self) -> IniModel {
        IniModel {
            defaults: text_map(self.defaults@),
            sections: section_views(self.sections@),
            current: match self.current { Some(i) => Some(i as int), None => None },
            in_default: self.in_default,
            last_key: match self.last_key { Some(k) => Some(k@), None => None },
        }
    }

    spec fn consistent(self) -> bool {
        &&& unique_keys(self.defaults@)
        &&& forall|i: int| 0 <= i < self.sections@.len() ==> unique_keys(#[trigger] self.sections@[i].options@)
        &&& self.current matches Some(i) ==> i < self.sections@.len()
        &&& self.current matches Some(i) ==> !self.in_default
        &&& self.last_key matches Some(k) ==> match self.current {
            Some(i) => key_set(self.sections@[i as int].options@).contains(k@),
            None => self.in_default && key_set(self.defaults@).contains(k@),
        }
    }
}

/// Lists holding the same names and values hold the same options.
proof fn lemma_same_entries(a: Seq<(String, String)>, b: Seq<(String, String)>)
    requires
        unique_keys(a),
        a.len() == b.len(),
        forall|i: int| 0 <= i < a.len() ==> #[trigger] a[i].0@ == b[i].0@ && a[i].1@ == b[i].1@,
    ensures
        unique_keys(b),
        key_set(a) == key_set(b),
        text_map(a) == text_map(b),
{
    assert forall|i: int, j: int| 0 <= i < b.len() && 0 <= j < b.len() && i != j implies b[i].0@ != b[j].0@ by {
        assert(a[i].0@ == b[i].0@);
        assert(a[j].0@ == b[j].0@);
    }
    assert forall|key: Seq<char>| key_set(a).contains(key) <==> key_set(b).contains(key) by {
        if key_set(a).contains(key) {
            let i = choose|i: int| 0 <= i < a.len() && a[i].0@ == key;
            assert(b[i].0@ == key);
        }
        if key_set(b).contains(key) {
            let i = choose|i: int| 0 <= i < b.len() && b[i].0@ == key;
            assert(a[i].0@ == key);
        }
    }
    assert(key_set(a) =~= key_set(b));
    assert forall|key: Seq<char>| key_set(a).contains(key) implies value_of(a, key)@ == value_of(b, key)@ by {
        let i = choose|i: int| 0 <= i < a.len() && a[i].0@ == key;
        lemma_value_at(a, i);
        assert(b[i].0@ == key);
        lemma_value_at(b, i);
    }
    assert(text_map(a) =~= text_map(b));
}

/// Copies a list of named values.
fn copy_entries(entries: &Vec<(String, String)>) -> (result: Vec<(String, String)>)
    ensures
        result@.len() == entries@.len(),
        forall|i: int| 0 <= i < entries@.len() ==> #[trigger] result@[i].0@ == entries@[i].0@ && result@[i].1@ == entries@[i].1@,
{
    let mut result: Vec<(String, String)> = Vec::new();
    let mut index: usize = 0;
    while index < entries.len()
        invariant
            index <= entries.len(),
            result@.len() == index,
            forall|i: int| 0 <= i < index ==> #[trigger] result@[i].0@ == entries@[i].0@ && result@[i].1@ == entries@[i].1@,
        decreases entries.len() - index,
    {
        let name = owned(entries[index].0.as_str());
        let value = owned(entries[index].1.as_str());
        result.push((name, value));
        index = index + 1;
    }
    result
}

/// Builds a message with a line number.
fn line_error(message: &str, line: usize) -> (result: String)
    ensures
        result@ == at_line(message@, line as int),
{
    let mut text = owned(message);
    push_str(&mut text, " at line ");
    push_count(&mut text, line);
    assert(text@ =~= at_line(message@, line as int));
    text
}

/// Builds a message quoting a name.
fn quoted_error(prefix: &str, name: &str, suffix: &str) -> (result: String)
    ensures
        result@ == prefix@ + name@ + suffix@,
{
    let mut text = owned(prefix);
    push_str(&mut text, name);
    push_str(&mut text, suffix);
    text
}

impl IniReader {
    /// Reads a section header naming `name`.
    fn header(&mut self, name: &Vec<char>, line: usize) -> (result: Result<(), String>)
        requires
            old(self).consistent(),
        ensures
            final(self).consistent(),
            match result {
                Ok(()) => ini_header(old(self).model(), name@, line as int) == Ok::<IniModel, Seq<char>>(final(self).model()),
                Err(message) => ini_header(old(self).model(), name@, line as int) == Err::<IniModel, Seq<char>>(message@),
            },
    {
        if name.len() == 0 {
            return Err(line_error("empty section name", line));
        }
        let title = string_of(name);
        if same_text(title.as_str(), "DEFAULT") {
            self.current = None;
            self.in_default = true;
            self.last_key = None;
            return Ok(());
        }
        let ghost views = section_views(self.sections@);
        let mut index: usize = 0;
        while index < self.sections.len()
            invariant
                *self == *old(self),
                self.consistent(),
                title@ == name@,
                name@.len() > 0,
                name@ != "DEFAULT"@,
                views == section_views(self.sections@),
                index <= self.sections.len(),
                forall|i: int| 0 <= i < index ==> (#[trigger] views[i]).name != name@,
            decreases self.sections.len() - index,
        {
            assert(views[index as int].name == self.sections@[index as int].name@);
            if same_text(self.sections[index].name.as_str(), title.as_str()) {
                assert(views[index as int].name == name@);
                return Err(quoted_error("section '", title.as_str(), "' already exists"));
            }
            index = index + 1;
        }
        let options = copy_entries(&self.defaults);
        proof {
            lemma_same_entries(self.defaults@, options@);
        }
        let explicit: Vec<String> = Vec::new();
        let section = IniSection { name: title, options, explicit };
        let position = self.sections.len();
        self.sections.push(section);
        self.current = Some(position);
        self.in_default = false;
        self.last_key = None;
        proof {
            assert(texts(explicit@).to_set() =~= Set::<Seq<char>>::empty());
            assert(section_views(self.sections@) =~= views.push(SectionView {
                name: name@,
                options: text_map(self.defaults@),
                explicit: Set::empty(),
            }));
        }
        Ok(())
    }

    /// Replaces the value of a named option, keeping the others.
    fn store(entries: &mut Vec<(String, String)>, name: &String, value: String)
        requires
            unique_keys(old(entries)@),
        ensures
            unique_keys(final(entries)@),
            key_set(final(entries)@) == key_set(old(entries)@).insert(name@),
            text_map(final(entries)@) == text_map(old(entries)@).insert(name@, value@),
    {
        let ghost before = entries@;
        let ghost text = value@;
        set_entry(entries, owned(name.as_str()), value);
        proof {
            lemma_text_map_set(before, entries@, name@, text);
        }
    }

    /// Puts a section in place of the one at `index`.
    fn replace_section(sections: &mut Vec<IniSection>, index: usize, section: IniSection)
        requires
            index < old(sections)@.len(),
        ensures
            final(sections)@ == old(sections)@.update(index as int, section),
    {
        sections.set(index, section);
    }

    /// The options with the value of `key` extended by a line holding `text`.
    fn extended(entries: &Vec<(String, String)>, key: &String, text: &Vec<char>) -> (result: Vec<(String, String)>)
        requires
            unique_keys(entries@),
            key_set(entries@).contains(key@),
        ensures
            unique_keys(result@),
            key_set(result@) == key_set(entries@),
            text_map(result@) == text_map(entries@).insert(key@, text_map(entries@)[key@] + seq!['\n'] + text@),
    {
        let found = find_key(entries, key.as_str());
        let mut options = copy_entries(entries);
        proof {
            assert forall|i: int| 0 <= i < entries@.len() implies #[trigger] entries@[i].0@ == options@[i].0@ && entries@[i].1@ == options@[i].1@ by {
                assert(options@[i].0@ == entries@[i].0@);
            }
            lemma_same_entries(entries@, options@);
            assert(key_set(entries@).insert(key@) =~= key_set(entries@));
        }
        match found {
            Some(k) => {
                proof {
                    lemma_value_at(entries@, k as int);
                }
                let mut value = owned(entries[k].1.as_str());
                push_char(&mut value, '\n');
                let tail = string_of(text);
                push_str(&mut value, tail.as_str());
                assert(value@ =~= text_map(entries@)[key@] + seq!['\n'] + text@);
                Self::store(&mut options, key, value);
            },
            None => {},
        }
        options
    }

    /// Reads a continuation line holding `text`.
    fn continued(self, text: &Vec<char>, line: usize) -> (result: Result<IniReader, String>)
        requires
            self.consistent(),
        ensures
            match result {
                Ok(next) => next.consistent() && ini_continue(self.model(), text@, line as int) == Ok::<IniModel, Seq<char>>(next.model()),
                Err(message) => ini_continue(self.model(), text@, line as int) == Err::<IniModel, Seq<char>>(message@),
            },
    {
        let ghost m = self.model();
        let IniReader { defaults, mut sections, current, in_default, last_key } = self;
        let key = match &last_key {
            None => {
                return Err(line_error("unexpected continuation", line));
            },
            Some(key) => owned(key.as_str()),
        };
        match current {
            Some(i) => {
                let ghost old_sections = sections@;
                let options = Self::extended(&sections[i].options, &key, text);
                let section = IniSection {
                    name: owned(sections[i].name.as_str()),
                    options,
                    explicit: copy_texts(&sections[i].explicit),
                };
                proof {
                    assert(section_view(section).explicit =~= section_view(old_sections[i as int]).explicit);
                }
                sections.set(i, section);
                let next = IniReader { defaults, sections, current, in_default, last_key };
                proof {
                    assert(section_views(next.sections@) =~= m.sections.update(i as int, section_view(section)));
                    assert forall|j: int| 0 <= j < next.sections@.len() implies unique_keys(#[trigger] next.sections@[j].options@) by {
                        if j != i {
                            assert(next.sections@[j] == old_sections[j]);
                        }
                    }
                }
                Ok(next)
            },
            None => {
                if !in_default {
                    return Err(line_error("unexpected continuation", line));
                }
                let defaults = Self::extended(&defaults, &key, text);
                Ok(IniReader { defaults, sections, current, in_default, last_key })
            },
        }
    }

    /// Reads an option line setting `key` to `value`.
    fn optioned(self, key: String, value: String, line: usize) -> (result: Result<IniReader, String>)
        requires
            self.consistent(),
        ensures
            match result {
                Ok(next) => next.consistent() && ini_option(self.model(), key@, value@, line as int) == Ok::<IniModel, Seq<char>>(next.model()),
                Err(message) => ini_option(self.model(), key@, value@, line as int) == Err::<IniModel, Seq<char>>(message@),
            },
    {
        let ghost m = self.model();
        let IniReader { mut defaults, mut sections, current, in_default, last_key } = self;
        match current {
            Some(i) => {
                if contains_text(&sections[i].explicit, key.as_str()) {
                    return Err(quoted_error("option '", key.as_str(), "' already exists"));
                }
                let ghost old_sections = sections@;
                let ghost text = value@;
                let mut options = copy_entries(&sections[i].options);
                proof {
                    assert forall|k: int| 0 <= k < old_sections[i as int].options@.len() implies
                        #[trigger] old_sections[i as int].options@[k].0@ == options@[k].0@ && old_sections[i as int].options@[k].1@ == options@[k].1@ by {
                        assert(options@[k].0@ == old_sections[i as int].options@[k].0@);
                    }
                    lemma_same_entries(old_sections[i as int].options@, options@);
                }
                Self::store(&mut options, &key, value);
                let mut explicit = copy_texts(&sections[i].explicit);
                let ghost listed = texts(explicit@);
                explicit.push(owned(key.as_str()));
                let section = IniSection { name: owned(sections[i].name.as_str()), options, explicit };
                proof {
                    assert(texts(explicit@) =~= listed.push(key@));
                    assert forall|x: Seq<char>| texts(explicit@).to_set().contains(x) <==> listed.to_set().insert(key@).contains(x) by {
                        if listed.contains(x) {
                            let k = choose|k: int| 0 <= k < listed.len() && listed[k] == x;
                            assert(texts(explicit@)[k] == x);
                        }
                        if x == key@ {
                            assert(texts(explicit@)[listed.len() as int] == x);
                        }
                        if texts(explicit@).contains(x) {
                            let k = choose|k: int| 0 <= k < texts(explicit@).len() && texts(explicit@)[k] == x;
                            if k < listed.len() {
                                assert(listed[k] == x);
                            }
                        }
                    }
                    assert(section_view(section).explicit =~= section_view(old_sections[i as int]).explicit.insert(key@));
                }
                sections.set(i, section);
                let next = IniReader { defaults, sections, current, in_default, last_key: Some(key) };
                proof {
                    assert(section_views(next.sections@) =~= m.sections.update(i as int, section_view(section)));
                    assert forall|j: int| 0 <= j < next.sections@.len() implies unique_keys(#[trigger] next.sections@[j].options@) by {
                        if j != i {
                            assert(next.sections@[j] == old_sections[j]);
                        }
                    }
                }
                Ok(next)
            },
            None => {
                if !in_default {
                    return Err(line_error("option found before any section", line));
                }
                match find_key(&defaults, key.as_str()) {
                    Some(_) => {
                        return Err(quoted_error("option '", key.as_str(), "' already exists"));
                    },
                    None => {},
                }
                let ghost views = section_views(sections@);
                let mut updated: Vec<IniSection> = Vec::new();
                let mut index: usize = 0;
                while index < sections.len()
                    invariant
                        index <= sections.len(),
                        updated@.len() == index,
                        views == section_views(sections@),
                        forall|j: int| 0 <= j < sections@.len() ==> unique_keys(#[trigger] sections@[j].options@),
                        forall|j: int| 0 <= j < index ==> unique_keys(#[trigger] updated@[j].options@),
                        forall|j: int| 0 <= j < index ==> #[trigger] section_view(updated@[j]) == inherit(views[j], key@, value@),
                    decreases sections.len() - index,
                {
                    let current_section = &sections[index];
                    let mut options = copy_entries(&current_section.options);
                    proof {
                        assert forall|k: int| 0 <= k < current_section.options@.len() implies
                            #[trigger] current_section.options@[k].0@ == options@[k].0@ && current_section.options@[k].1@ == options@[k].1@ by {
                            assert(options@[k].0@ == current_section.options@[k].0@);
                        }
                        lemma_same_entries(current_section.options@, options@);
                    }
                    if !contains_text(&current_section.explicit, key.as_str()) {
                        Self::store(&mut options, &key, owned(value.as_str()));
                    }
                    let copy = IniSection {
                        name: owned(current_section.name.as_str()),
                        options,
                        explicit: copy_texts(&current_section.explicit),
                    };
                    proof {
                        assert(views[index as int] == section_view(sections@[index as int]));
                        assert(section_view(copy).explicit =~= views[index as int].explicit);
                        assert(section_view(copy) == inherit(views[index as int], key@, value@));
                    }
                    updated.push(copy);
                    index = index + 1;
                }
                let ghost text = value@;
                Self::store(&mut defaults, &key, value);
                let next = IniReader { defaults, sections: updated, current: None, in_default: true, last_key: Some(key) };
                proof {
                    assert(section_views(next.sections@) =~= views.map_values(|s: SectionView| inherit(s, key@, text)));
                }
                Ok(next)
            },
        }
    }
}

/// The position of the first `=` or `:` in a line.
fn find_separator(raw: &Vec<char>) -> (result: Option<usize>)
    ensures
        match result {
            Some(k) => k < raw@.len() && separator_at(raw@) == Some(k as int),
            None => separator_at(raw@) is None,
        },
{
    let mut index: usize = 0;
    while index < raw.len()
        invariant
            index <= raw.len(),
            forall|j: int| 0 <= j < index ==> raw@[j] != '=' && raw@[j] != ':',
        decreases raw.len() - index,
    {
        if raw[index] == '=' || raw[index] == ':' {
            proof {
                let k = index as int;
                assert(0 <= k < raw@.len() && (raw@[k] == '=' || raw@[k] == ':'));
                let c = choose|c: int| 0 <= c < raw@.len() && (raw@[c] == '=' || raw@[c] == ':')
                    && forall|j: int| 0 <= j < c ==> raw@[j] != '=' && raw@[j] != ':';
                assert(c == k) by {
                    if c < k {
                        assert(raw@[c] != '=' && raw@[c] != ':');
                    }
                    if c > k {
                        assert(raw@[k] != '=' && raw@[k] != ':');
                    }
                }
            }
            return Some(index);
        }
        index = index + 1;
    }
    None
}

impl IniReader {
    /// Reads one line, numbered `line`.
    fn read_line(self, raw: &Vec<char>, line: usize) -> (result: Result<IniReader, String>)
        requires
            self.consistent(),
        ensures
            match result {
                Ok(next) => next.consistent() && ini_line(self.model(), raw@, line as int) == Ok::<IniModel, Seq<char>>(next.model()),
                Err(message) => ini_line(self.model(), raw@, line as int) == Err::<IniModel, Seq<char>>(message@),
            },
    {
        reveal(ini_line);
        let text = trim(raw);
        if text.len() == 0 || text[0] == '#' || text[0] == ';' {
            return Ok(self);
        }
        if text[0] == '[' {
            if text.len() < 2 || text[text.len() - 1] != ']' {
                return Err(line_error("invalid section header", line));
            }
            let name = slice_chars(&text, 1, text.len() - 1);
            let mut reader = self;
            return match reader.header(&name, line) {
                Ok(()) => Ok(reader),
                Err(message) => Err(message),
            };
        }
        if raw.len() > 0 && space(raw[0]) {
            return self.continued(&text, line);
        }
        match find_separator(raw) {
            None => Err(line_error("option line has no separator", line)),
            Some(k) => {
                let head = slice_chars(raw, 0, k);
                let key = lowercase_ascii(&trim(&head));
                proof {
                    assert(raw@.take(k as int) =~= raw@.subrange(0, k as int));
                }
                if key.len() == 0 {
                    return Err(line_error("empty option name", line));
                }
                let rest = slice_chars(raw, k + 1, raw.len());
                proof {
                    assert(raw@.skip(k + 1) =~= raw@.subrange(k + 1, raw@.len() as int));
                }
                let value = string_of(&trim(&rest));
                self.optioned(string_of(&key), value, line)
            },
        }
    }
}

/// Reads an INI document into its sections, each holding the `DEFAULT`
/// options it does not set itself; the error names the first bad line.
pub fn parse_ini(contents: &str) -> (result: Result<Vec<IniSection>, String>)
    ensures
        match result {
            Ok(sections) => ini_sections(contents@) == Ok::<Seq<SectionView>, Seq<char>>(section_views(sections@))
                && forall|i: int| 0 <= i < sections@.len() ==> unique_keys(#[trigger] sections@[i].options@),
            Err(message) => ini_sections(contents@) == Err::<Seq<SectionView>, Seq<char>>(message@),
        },
{
    let chars = chars_of(contents);
    let lines = split_lines(&chars);
    let ghost all = lines_of(contents@);
    let mut reader = IniReader { defaults: Vec::new(), sections: Vec::new(), current: None, in_default: false, last_key: None };
    proof {
        assert(text_map(reader.defaults@) =~= Map::<Seq<char>, Seq<char>>::empty());
        assert(section_views(reader.sections@) =~= Seq::<SectionView>::empty());
        assert(all.take(0) =~= Seq::<Seq<char>>::empty());
    }
    let mut index: usize = 0;
    while index < lines.len()
        invariant
            index <= lines.len(),
            all == lines_of(contents@),
            lines@.len() == all.len(),
            forall|i: int| 0 <= i < lines@.len() ==> #[trigger] lines@[i]@ == all[i],
            reader.consistent(),
            ini_lines(all.take(index as int)) == Ok::<IniModel, Seq<char>>(reader.model()),
        decreases lines.len() - index,
    {
        proof {
            assert(all.take(index as int + 1).drop_last() =~= all.take(index as int));
            assert(all.take(index as int + 1).last() == lines@[index as int]@);
        }
        match reader.read_line(&lines[index], index + 1) {
            Ok(next) => {
                reader = next;
            },
            Err(message) => {
                proof {
                    assert(ini_lines(all.take(index as int + 1)) == Err::<IniModel, Seq<char>>(message@));
                    lemma_ini_error_stays(all, index as int + 1);
                    assert(ini_lines(all) == Err::<IniModel, Seq<char>>(message@));

                }
                return Err(message);
            },
        }
        index = index + 1;
    }
    proof {
        assert(all.take(lines.len() as int) =~= all);
    }
    Ok(reader.sections)
}

} // verus!
