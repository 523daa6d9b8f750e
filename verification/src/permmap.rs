//! Permission maps: the information-flow direction and weight of each
//! object-class permission, read from the line-based permission-map format.
//!
//! The format is a positive class count, then for each class a line
//! `class NAME COUNT` followed by `COUNT` lines `PERMISSION DIRECTION WEIGHT`.
//! Blank lines and lines whose first word starts with `#` are skipped.
use vstd::prelude::*;
use crate::keyed::{key_set, value_of, unique_keys, find_key, set_entry, lemma_value_at};
use crate::scan::{lines_of, words_of, i64_value, decimal_text, split_lines, split_words,
    parse_i64, push_signed, push_count, lemma_words_not_empty};
use crate::text::{chars_of, string_of, same_text, push_str, push_char, owned};

verus! {

/// Information-flow direction assigned to one object-class permission.
#[derive(PartialEq, Eq, Structural, Clone, Copy, Debug)]
pub enum PermissionDirection {
    /// Information flows from object to subject.
    Read,
    /// Information flows from subject to object.
    Write,
    /// Information flows in both directions.
    Both,
    /// The permission does not carry information.
    NoFlow,
    /// The permission has not been classified.
    Unmapped,
}

/// The direction written as the one-letter code `r`, `w`, `b`, `n` or `u`.
pub open spec fn direction_named(code: Seq<char>) -> Option<PermissionDirection> {
    if code == seq!['r'] {
        Some(PermissionDirection::Read)
    } else if code == seq!['w'] {
        Some(PermissionDirection::Write)
    } else if code == seq!['b'] {
        Some(PermissionDirection::Both)
    } else if code == seq!['n'] {
        Some(PermissionDirection::NoFlow)
    } else if code == seq!['u'] {
        Some(PermissionDirection::Unmapped)
    } else {
        None
    }
}

/// The one-letter code of a direction.
pub open spec fn direction_code(direction: PermissionDirection) -> Seq<char> {
    match direction {
        PermissionDirection::Read => seq!['r'],
        PermissionDirection::Write => seq!['w'],
        PermissionDirection::Both => seq!['b'],
        PermissionDirection::NoFlow => seq!['n'],
        PermissionDirection::Unmapped => seq!['u'],
    }
}

impl PermissionDirection {
    /// Reads a one-letter direction code.
    pub fn parse(value: &str) -> (result: Option<Self>)
        ensures
            result == direction_named(value@),
    {
        let code = chars_of(value);
        if code.len() != 1 {
            assert(code@ != seq!['r'] && code@ != seq!['w'] && code@ != seq!['b']);
            assert(code@ != seq!['n'] && code@ != seq!['u']);
            return None;
        }
        let c = code[0];
        assert(code@ =~= seq![c]);
        if c == 'r' {
            Some(PermissionDirection::Read)
        } else if c == 'w' {
            Some(PermissionDirection::Write)
        } else if c == 'b' {
            Some(PermissionDirection::Both)
        } else if c == 'n' {
            Some(PermissionDirection::NoFlow)
        } else if c == 'u' {
            Some(PermissionDirection::Unmapped)
        } else {
            assert(seq![c] != seq!['r'] && seq![c] != seq!['w'] && seq![c] != seq!['b']) by {
                assert(seq![c][0] == c);
            }
            assert(seq![c] != seq!['n'] && seq![c] != seq!['u']) by {
                assert(seq![c][0] == c);
            }
            None
        }
    }

    /// Returns the permission-map code of the direction.
    pub fn code(self) -> (result: &'static str)
        ensures
            result@ == direction_code(self),
    {
        match self {
            PermissionDirection::Read => {
                proof {
                    reveal_strlit("r");
                }
                "r"
            },
            PermissionDirection::Write => {
                proof {
                    reveal_strlit("w");
                }
                "w"
            },
            PermissionDirection::Both => {
                proof {
                    reveal_strlit("b");
                }
                "b"
            },
            PermissionDirection::NoFlow => {
                proof {
                    reveal_strlit("n");
                }
                "n"
            },
            PermissionDirection::Unmapped => {
                proof {
                    reveal_strlit("u");
                }
                "u"
            },
        }
    }
}

/// A mapping as plain values: class, permission, direction and weight.
pub type MappingView = (Seq<char>, Seq<char>, PermissionDirection, int);

/// One permission-map entry.
#[derive(Debug)]
pub struct PermissionMapping {
    class: String,
    permission: String,
    direction: PermissionDirection,
    weight: u8,
}

impl View for PermissionMapping {
    type V = MappingView;

    closed spec fn view(&self) -> MappingView {
        (self.class@, self.permission@, self.direction, self.weight as int)
    }
}

impl PermissionMapping {
    /// Returns the object-class name.
    pub fn class(&self) -> (result: &str)
        ensures
            result@ == self@.0,
    {
        self.class.as_str()
    }

    /// Returns the permission name.
    pub fn permission(&self) -> (result: &str)
        ensures
            result@ == self@.1,
    {
        self.permission.as_str()
    }

    /// Returns the information-flow direction.
    pub fn direction(&self) -> (result: PermissionDirection)
        ensures
            result == self@.2,
    {
        self.direction
    }

    /// Returns the permission weight, between one and ten.
    pub fn weight(&self) -> (result: u8)
        ensures
            result as int == self@.3,
    {
        self.weight
    }
}

/// A permission-map syntax error, with its source and line.
#[derive(Debug)]
pub struct PermissionMapError {
    message: String,
}

impl View for PermissionMapError {
    type V = Seq<char>;

    closed spec fn view(&self) -> Seq<char> {
        self.message@
    }
}

impl PermissionMapError {
    /// Returns the message.
    pub fn message(&self) -> (result: &str)
        ensures
            result@ == self@,
    {
        self.message.as_str()
    }

    /// Returns the message as an owned string.
    pub fn to_string(&self) -> (result: String)
        ensures
            result@ == self@,
    {
        self.message.clone()
    }
}

/// A parsed permission map as plain values.
pub struct MapView {
    /// The source label.
    pub source: Seq<char>,
    /// The mappings in declaration order.
    pub entries: Seq<MappingView>,
    /// For each class, the position in `entries` where its latest
    /// declaration begins.
    pub opened: Map<Seq<char>, int>,
    /// The class count of the header.
    pub declared: int,
    /// The number of class declarations read.
    pub classes: int,
}

/// Parsed object-class permission flow mappings.
#[derive(Debug)]
pub struct PermissionMap {
    source: String,
    mappings: Vec<PermissionMapping>,
    opened: Vec<(String, usize)>,
    declared_classes: usize,
    parsed_classes: usize,
}

/// The class starts held by a list of named positions.
pub open spec fn opened_view(opened: Seq<(String, usize)>) -> Map<Seq<char>, int> {
    Map::new(|class: Seq<char>| key_set(opened).contains(class), |class: Seq<char>| value_of(opened, class) as int)
}

/// The plain values of a list of mappings.
pub open spec fn mapping_views(mappings: Seq<PermissionMapping>) -> Seq<MappingView> {
    mappings.map_values(|m: PermissionMapping| m@)
}

impl View for PermissionMap {
    type V = MapView;

    closed spec fn view(&self) -> MapView {
        MapView {
            source: self.source@,
            entries: mapping_views(self.mappings@),
            opened: opened_view(self.opened@),
            declared: self.declared_classes as int,
            classes: self.parsed_classes as int,
        }
    }
}

/// The position of the last entry for `class` and `permission` at or after
/// position `from`.
pub open spec fn last_entry(entries: Seq<MappingView>, from: int, class: Seq<char>, permission: Seq<char>) -> Option<int>
    decreases entries.len(),
{
    if entries.len() == 0 || entries.len() <= from {
        None
    } else if entries.last().0 == class && entries.last().1 == permission {
        Some(entries.len() - 1)
    } else {
        last_entry(entries.drop_last(), from, class, permission)
    }
}

/// The entry a lookup finds: the last one for the class and permission
/// since the class was last declared.
pub open spec fn lookup(map: MapView, class: Seq<char>, permission: Seq<char>) -> Option<int> {
    if map.opened.dom().contains(class) {
        last_entry(map.entries, map.opened[class], class, permission)
    } else {
        None
    }
}

/// What the parser expects next.
pub enum Section {
    /// The class count.
    ClassCount,
    /// A class declaration.
    Class,
    /// A permission of the named class, with the declared and the read
    /// permission counts.
    Permissions(Seq<char>, int, int),
}

/// The parser's state after some lines.
pub struct Progress {
    /// What comes next.
    pub section: Section,
    /// What has been read.
    pub map: MapView,
}

/// A message prefixed with its source and line number.
pub open spec fn located(source: Seq<char>, line: int, message: Seq<char>) -> Seq<char> {
    source + seq![':'] + decimal_text(line) + seq![':'] + message
}

/// A word in single quotes.
pub open spec fn quoted(word: Seq<char>) -> Seq<char> {
    seq!['\''] + word + seq!['\'']
}

/// Quoted words separated by a comma and a space.
pub open spec fn quoted_items(words: Seq<Seq<char>>) -> Seq<char>
    decreases words.len(),
{
    if words.len() == 0 {
        Seq::empty()
    } else if words.len() == 1 {
        quoted(words[0])
    } else {
        quoted_items(words.drop_last()) + seq![',', ' '] + quoted(words.last())
    }
}

/// Words written as a bracketed list of quoted strings.
pub open spec fn quoted_list(words: Seq<Seq<char>>) -> Seq<char> {
    seq!['['] + quoted_items(words) + seq![']']
}

/// The state before the first line.
pub open spec fn start(source: Seq<char>) -> Progress {
    Progress {
        section: Section::ClassCount,
        map: MapView { source, entries: Seq::empty(), opened: Map::empty(), declared: 0, classes: 0 },
    }
}

/// The state after reading the class count.
pub open spec fn read_class_count(source: Seq<char>, line: int, p: Progress, entry: Seq<Seq<char>>) -> Result<Progress, Seq<char>> {
    match i64_value(entry[0]) {
        None => Err(located(source, line, "Invalid number of classes: "@ + entry[0])),
        Some(count) => if count < 1 {
            Err(located(source, line, "Number of classes must be positive: "@ + decimal_text(count)))
        } else if count > usize::MAX {
            Err(located(source, line, "Invalid number of classes: "@ + entry[0]))
        } else {
            Ok(Progress { section: Section::Class, map: MapView { declared: count, ..p.map } })
        },
    }
}

/// The state after reading a class declaration.
pub open spec fn read_class(source: Seq<char>, line: int, p: Progress, entry: Seq<Seq<char>>) -> Result<Progress, Seq<char>> {
    if entry.len() != 3 || entry[0] != "class"@ {
        Err(located(source, line, "Invalid class declaration: "@ + quoted_list(entry)))
    } else {
        match i64_value(entry[2]) {
            None => Err(located(source, line, "Invalid number of permissions: "@ + entry[2])),
            Some(count) => if count < 1 {
                Err(located(source, line, "Number of permissions must be positive: "@ + decimal_text(count)))
            } else if count > usize::MAX {
                Err(located(source, line, "Invalid number of permissions: "@ + entry[2]))
            } else if p.map.classes + 1 > p.map.declared {
                Err(located(source, line, "Extra class found: "@ + entry[1]))
            } else {
                Ok(Progress {
                    section: Section::Permissions(entry[1], count, 0),
                    map: MapView {
                        opened: p.map.opened.insert(entry[1], p.map.entries.len() as int),
                        classes: p.map.classes + 1,
                        ..p.map
                    },
                })
            },
        }
    }
}

/// The state after reading a permission of `class`.
pub open spec fn read_permission(
    source: Seq<char>,
    line: int,
    p: Progress,
    entry: Seq<Seq<char>>,
    class: Seq<char>,
    expected: int,
    parsed: int,
) -> Result<Progress, Seq<char>> {
    if entry.len() < 3 {
        Err(located(source, line, "Invalid permission declaration: "@ + quoted_list(entry)))
    } else {
        match direction_named(entry[1]) {
            None => Err(located(source, line, "Invalid information flow direction: "@ + entry[1])),
            Some(direction) => match i64_value(entry[2]) {
                None => Err(located(source, line, "Invalid permission weight: "@ + entry[2])),
                Some(weight) => if weight < 1 || weight > 10 {
                    Err(located(source, line, "Permission weight must be 1-10: "@ + decimal_text(weight)))
                } else {
                    Ok(Progress {
                        section: if parsed + 1 >= expected {
                            Section::Class
                        } else {
                            Section::Permissions(class, expected, parsed + 1)
                        },
                        map: MapView {
                            entries: p.map.entries.push((class, entry[0], direction, weight)),
                            ..p.map
                        },
                    })
                },
            },
        }
    }
}

/// The state after one more line, whose words are `entry`.
pub open spec fn read_line(source: Seq<char>, line: int, p: Progress, entry: Seq<Seq<char>>) -> Result<Progress, Seq<char>> {
    if entry.len() == 0 || (entry[0].len() > 0 && entry[0][0] == '#') {
        Ok(p)
    } else {
        match p.section {
            Section::ClassCount => read_class_count(source, line, p, entry),
            Section::Class => read_class(source, line, p, entry),
            Section::Permissions(class, expected, parsed) =>
                read_permission(source, line, p, entry, class, expected, parsed),
        }
    }
}

/// The state after the given lines, or the first error.
pub open spec fn read_lines(source: Seq<char>, lines: Seq<Seq<char>>) -> Result<Progress, Seq<char>>
    decreases lines.len(),
{
    if lines.len() == 0 {
        Ok(start(source))
    } else {
        match read_lines(source, lines.drop_last()) {
            Ok(p) => read_line(source, lines.len() as int, p, words_of(lines.last())),
            Err(message) => Err(message),
        }
    }
}

/// The result of reading a whole permission-map document.
pub open spec fn read_map(contents: Seq<char>, source: Seq<char>) -> Result<MapView, Seq<char>> {
    match read_lines(source, lines_of(contents)) {
        Ok(p) => Ok(p.map),
        Err(message) => Err(message),
    }
}

/// Writes words as a bracketed list of quoted strings.
pub fn python_list(values: &Vec<Vec<char>>) -> (result: String)
    ensures
        result@ == quoted_list(values@.map_values(|v: Vec<char>| v@)),
{
    let ghost words = values@.map_values(|v: Vec<char>| v@);
    let mut result = String::new();
    push_char(&mut result, '[');
    let mut index: usize = 0;
    assert(words.take(0) =~= Seq::<Seq<char>>::empty());
    while index < values.len()
        invariant
            words == values@.map_values(|v: Vec<char>| v@),
            index <= values.len(),
            result@ == seq!['['] + quoted_items(words.take(index as int)),
        decreases values.len() - index,
    {
        let ghost before = result@;
        if index > 0 {
            push_char(&mut result, ',');
            push_char(&mut result, ' ');
        }
        push_char(&mut result, '\'');
        let word = string_of(&values[index]);
        push_str(&mut result, word.as_str());
        push_char(&mut result, '\'');
        proof {
            let next = words.take(index + 1);
            assert(next.drop_last() =~= words.take(index as int));
            assert(next.last() == values@[index as int]@);
            if index == 0 {
                assert(result@ =~= seq!['['] + quoted_items(next));
            } else {
                assert(result@ =~= seq!['['] + quoted_items(next));
            }
        }
        index = index + 1;
    }
    push_char(&mut result, ']');
    assert(words.take(values.len() as int) =~= words);
    result
}

/// Builds an error located at `line` of `source`: `message` followed by `detail`.
fn located_error(source: &str, line: usize, message: &str, detail: &str) -> (result: PermissionMapError)
    ensures
        result@ == located(source@, line as int, message@ + detail@),
{
    let mut text = String::new();
    push_str(&mut text, source);
    push_char(&mut text, ':');
    push_count(&mut text, line);
    push_char(&mut text, ':');
    push_str(&mut text, message);
    push_str(&mut text, detail);
    assert(text@ =~= located(source@, line as int, message@ + detail@));
    PermissionMapError { message: text }
}

/// Builds an error located at `line` of `source`: `message` followed by a number.
fn located_number(source: &str, line: usize, message: &str, value: i64) -> (result: PermissionMapError)
    ensures
        result@ == located(source@, line as int, message@ + decimal_text(value as int)),
{
    let mut text = String::new();
    push_str(&mut text, source);
    push_char(&mut text, ':');
    push_count(&mut text, line);
    push_char(&mut text, ':');
    push_str(&mut text, message);
    push_signed(&mut text, value);
    assert(text@ =~= located(source@, line as int, message@ + decimal_text(value as int)));
    PermissionMapError { message: text }
}

/// What the parser expects next.
enum Stage {
    ClassCount,
    Class,
    Permissions { class: String, expected: usize, parsed: usize },
}

impl Stage {
    spec fn section(self) -> Section {
        match self {
            Stage::ClassCount => Section::ClassCount,
            Stage::Class => Section::Class,
            Stage::Permissions { class, expected, parsed } => Section::Permissions(class@, expected as int, parsed as int),
        }
    }
}

/// The parser's state while it reads lines.
struct Reader {
    stage: Stage,
    declared: usize,
    classes: usize,
    mappings: Vec<PermissionMapping>,
    opened: Vec<(String, usize)>,
}

impl Reader {
    spec fn progress(self, source: Seq<char>) -> Progress {
        Progress {
            section: self.stage.section(),
            map: MapView {
                source,
                entries: mapping_views(self.mappings@),
                opened: opened_view(self.opened@),
                declared: self.declared as int,
                classes: self.classes as int,
            },
        }
    }

    /// The reader's counts are bounded by the number of lines read.
    spec fn bounded(self, lines: int) -> bool {
        &&& self.classes <= lines
        &&& self.mappings@.len() <= lines
        &&& self.stage matches Stage::Permissions { parsed, .. } ==> parsed <= lines
        &&& unique_keys(self.opened@)
        &&& forall|i: int| 0 <= i < self.opened@.len() ==> #[trigger] self.opened@[i].1 <= self.mappings@.len()
    }

    /// Reads the class count.
    fn class_count(&mut self, source: &str, line: usize, words: &Vec<Vec<char>>) -> (result: Result<(), PermissionMapError>)
        requires
            words.len() > 0,
            old(self).stage is ClassCount,
            old(self).bounded(line - 1),
            line >= 1,
        ensures
            final(self).bounded(line as int),
            match result {
                Ok(()) => read_class_count(source@, line as int, old(self).progress(source@), words@.map_values(|v: Vec<char>| v@))
                    == Ok::<Progress, Seq<char>>(final(self).progress(source@)),
                Err(error) => read_class_count(source@, line as int, old(self).progress(source@), words@.map_values(|v: Vec<char>| v@))
                    == Err::<Progress, Seq<char>>(error@),
            },
    {
        let ghost entry = words@.map_values(|v: Vec<char>| v@);
        let first = string_of(&words[0]);
        assert(entry[0] == first@);
        match parse_i64(&words[0]) {
            None => Err(located_error(source, line, "Invalid number of classes: ", first.as_str())),
            Some(count) => {
                if count < 1 {
                    return Err(located_number(source, line, "Number of classes must be positive: ", count));
                }
                if count as u64 > usize::MAX as u64 {
                    return Err(located_error(source, line, "Invalid number of classes: ", first.as_str()));
                }
                self.declared = count as usize;
                self.stage = Stage::Class;
                Ok(())
            },
        }
    }

    /// Reads a class declaration.
    fn class(&mut self, source: &str, line: usize, words: &Vec<Vec<char>>) -> (result: Result<(), PermissionMapError>)
        requires
            old(self).stage is Class,
            old(self).bounded(line - 1),
            line >= 1,
        ensures
            final(self).bounded(line as int),
            match result {
                Ok(()) => read_class(source@, line as int, old(self).progress(source@), words@.map_values(|v: Vec<char>| v@))
                    == Ok::<Progress, Seq<char>>(final(self).progress(source@)),
                Err(error) => read_class(source@, line as int, old(self).progress(source@), words@.map_values(|v: Vec<char>| v@))
                    == Err::<Progress, Seq<char>>(error@),
            },
    {
        let ghost entry = words@.map_values(|v: Vec<char>| v@);
        if words.len() != 3 {
            let listed = python_list(words);
            return Err(located_error(source, line, "Invalid class declaration: ", listed.as_str()));
        }
        let keyword = string_of(&words[0]);
        assert(entry[0] == keyword@);
        if !same_text(keyword.as_str(), "class") {
            let listed = python_list(words);
            return Err(located_error(source, line, "Invalid class declaration: ", listed.as_str()));
        }
        let class = string_of(&words[1]);
        let count_text = string_of(&words[2]);
        assert(entry[1] == class@);
        assert(entry[2] == count_text@);
        match parse_i64(&words[2]) {
            None => Err(located_error(source, line, "Invalid number of permissions: ", count_text.as_str())),
            Some(count) => {
                if count < 1 {
                    return Err(located_number(source, line, "Number of permissions must be positive: ", count));
                }
                if count as u64 > usize::MAX as u64 {
                    return Err(located_error(source, line, "Invalid number of permissions: ", count_text.as_str()));
                }
                if self.classes >= self.declared {
                    return Err(located_error(source, line, "Extra class found: ", class.as_str()));
                }
                self.classes = self.classes + 1;
                let ghost before = self.opened@;
                let at = self.mappings.len();
                set_entry(&mut self.opened, class.clone(), at);
                proof {
                    let after = self.opened@;
                    assert forall|i: int| 0 <= i < after.len() implies #[trigger] after[i].1 <= self.mappings@.len() by {
                        let name = after[i].0@;
                        lemma_value_at(after, i);
                        if name != class@ {
                            let k = choose|k: int| 0 <= k < before.len() && before[k].0@ == name;
                            lemma_value_at(before, k);
                        }
                    }
                    assert(opened_view(after) =~= opened_view(before).insert(class@, at as int));
                }
                self.stage = Stage::Permissions { class, expected: count as usize, parsed: 0 };
                Ok(())
            },
        }
    }

    /// Reads a permission of the class being declared.
    fn permission(&mut self, source: &str, line: usize, words: &Vec<Vec<char>>) -> (result: Result<(), PermissionMapError>)
        requires
            old(self).stage is Permissions,
            old(self).bounded(line - 1),
            line >= 1,
        ensures
            final(self).bounded(line as int),
            match (old(self).progress(source@).section, result) {
                (Section::Permissions(class, expected, parsed), Ok(())) =>
                    read_permission(source@, line as int, old(self).progress(source@), words@.map_values(|v: Vec<char>| v@), class, expected, parsed)
                        == Ok::<Progress, Seq<char>>(final(self).progress(source@)),
                (Section::Permissions(class, expected, parsed), Err(error)) =>
                    read_permission(source@, line as int, old(self).progress(source@), words@.map_values(|v: Vec<char>| v@), class, expected, parsed)
                        == Err::<Progress, Seq<char>>(error@),
                _ => false,
            },
    {
        let ghost entry = words@.map_values(|v: Vec<char>| v@);
        if words.len() < 3 {
            let listed = python_list(words);
            return Err(located_error(source, line, "Invalid permission declaration: ", listed.as_str()));
        }
        let code = string_of(&words[1]);
        let weight_text = string_of(&words[2]);
        let name = string_of(&words[0]);
        assert(entry[0] == name@);
        assert(entry[1] == code@);
        assert(entry[2] == weight_text@);
        let direction = match PermissionDirection::parse(code.as_str()) {
            None => {
                return Err(located_error(source, line, "Invalid information flow direction: ", code.as_str()));
            },
            Some(direction) => direction,
        };
        let weight = match parse_i64(&words[2]) {
            None => {
                return Err(located_error(source, line, "Invalid permission weight: ", weight_text.as_str()));
            },
            Some(weight) => weight,
        };
        if weight < 1 || weight > 10 {
            return Err(located_number(source, line, "Permission weight must be 1-10: ", weight));
        }
        let mut stage = Stage::Class;
        std::mem::swap(&mut stage, &mut self.stage);
        match stage {
            Stage::Permissions { class, expected, parsed } => {
                let mapping = PermissionMapping {
                    class: class.clone(),
                    permission: name,
                    direction,
                    weight: weight as u8,
                };
                let ghost before = self.mappings@;
                self.mappings.push(mapping);
                assert(mapping_views(self.mappings@) =~= mapping_views(before).push(
                    (class@, entry[0], direction, weight as int),
                ));
                if parsed + 1 < expected {
                    self.stage = Stage::Permissions { class, expected, parsed: parsed + 1 };
                }
                Ok(())
            },
            _ => Ok(()),
        }
    }
}

/// Once an error has been met, later lines do not change the result.
proof fn lemma_error_stays(source: Seq<char>, lines: Seq<Seq<char>>, k: int)
    requires
        0 <= k <= lines.len(),
        read_lines(source, lines.take(k)) is Err,
    ensures
        read_lines(source, lines) == read_lines(source, lines.take(k)),
    decreases lines.len(),
{
    if lines.len() > k {
        assert(lines.drop_last().take(k) =~= lines.take(k));
        lemma_error_stays(source, lines.drop_last(), k);
    } else {
        assert(lines.take(k) =~= lines);
    }
}

/// A found entry lies in the searched range and matches.
proof fn lemma_last_entry_found(entries: Seq<MappingView>, from: int, class: Seq<char>, permission: Seq<char>, i: int)
    requires
        last_entry(entries, from, class, permission) == Some(i),
    ensures
        from <= i < entries.len(),
        0 <= i,
        entries[i].0 == class,
        entries[i].1 == permission,
    decreases entries.len(),
{
    if !(entries.last().0 == class && entries.last().1 == permission) {
        lemma_last_entry_found(entries.drop_last(), from, class, permission, i);
        assert(entries.drop_last()[i] == entries[i]);
    }
}

impl PermissionMap {
    /// The lists are consistent: each class is recorded once, at a position
    /// within the mappings.
    pub closed spec fn well_formed(&self) -> bool {
        &&& unique_keys(self.opened@)
        &&& forall|i: int| 0 <= i < self.opened@.len() ==> #[trigger] self.opened@[i].1 <= self.mappings@.len()
    }

    /// Parses a complete permission-map document; `source` names it in
    /// error messages.
    pub fn parse(contents: &str, source: &str) -> (result: Result<PermissionMap, PermissionMapError>)
        ensures
            match result {
                Ok(map) => read_map(contents@, source@) == Ok::<MapView, Seq<char>>(map@) && map.well_formed(),
                Err(error) => read_map(contents@, source@) == Err::<MapView, Seq<char>>(error@),
            },
    {
        let text = chars_of(contents);
        let lines = split_lines(&text);
        let ghost all = lines_of(contents@);
        let mut reader = Reader {
            stage: Stage::ClassCount,
            declared: 0,
            classes: 0,
            mappings: Vec::new(),
            opened: Vec::new(),
        };
        let mut offset: usize = 0;
        proof {
            assert(all.take(0) =~= Seq::<Seq<char>>::empty());
            assert(mapping_views(reader.mappings@) =~= Seq::<MappingView>::empty());
            assert(opened_view(reader.opened@) =~= Map::<Seq<char>, int>::empty());
        }
        while offset < lines.len()
            invariant
                all == lines_of(contents@),
                text@ == contents@,
                lines@.len() == all.len(),
                forall|i: int| 0 <= i < lines@.len() ==> #[trigger] lines@[i]@ == all[i],
                offset <= lines.len(),
                reader.bounded(offset as int),
                read_lines(source@, all.take(offset as int)) == Ok::<Progress, Seq<char>>(reader.progress(source@)),
            decreases lines.len() - offset,
        {
            let ghost p = reader.progress(source@);
            let words = split_words(&lines[offset]);
            let line = offset + 1;
            let ghost entry = words_of(all[offset as int]);
            proof {
                let taken = all.take(line as int);
                assert(taken.drop_last() =~= all.take(offset as int));
                assert(taken.last() == all[offset as int]);
                assert(read_lines(source@, taken) == read_line(source@, line as int, p, entry));
                lemma_words_not_empty(all[offset as int]);
                assert(words@.map_values(|v: Vec<char>| v@) =~= entry);
            }
            let skip = words.len() == 0 || words[0][0] == '#';
            if !skip {
                let step = match reader.stage {
                    Stage::ClassCount => reader.class_count(source, line, &words),
                    Stage::Class => reader.class(source, line, &words),
                    Stage::Permissions { .. } => reader.permission(source, line, &words),
                };
                if let Err(error) = step {
                    proof {
                        lemma_error_stays(source@, all, line as int);
                        assert(all.take(all.len() as int) =~= all);
                    }
                    return Err(error);
                }
            }
            offset = offset + 1;
        }
        assert(all.take(lines.len() as int) =~= all);
        Ok(PermissionMap {
            source: owned(source),
            mappings: reader.mappings,
            opened: reader.opened,
            declared_classes: reader.declared,
            parsed_classes: reader.classes,
        })
    }

    /// Returns the source label.
    pub fn source(&self) -> (result: &str)
        ensures
            result@ == self@.source,
    {
        self.source.as_str()
    }

    /// Returns the mappings in declaration order.
    pub fn mappings(&self) -> (result: &Vec<PermissionMapping>)
        ensures
            mapping_views(result@) == self@.entries,
    {
        &self.mappings
    }

    /// Returns the number of class declarations read.
    pub fn class_count(&self) -> (result: usize)
        ensures
            result as int == self@.classes,
    {
        self.parsed_classes
    }

    /// Returns the class count of the header.
    pub fn declared_class_count(&self) -> (result: usize)
        ensures
            result as int == self@.declared,
    {
        self.declared_classes
    }

    /// Looks up the mapping of one permission of a class.
    pub fn mapping(&self, class: &str, permission: &str) -> (result: Option<&PermissionMapping>)
        requires
            self.well_formed(),
        ensures
            match lookup(self@, class@, permission@) {
                Some(i) => result matches Some(m) && m@ == self@.entries[i],
                None => result is None,
            },
    {
        match find_key(&self.opened, class) {
            None => None,
            Some(k) => {
                let from = self.opened[k].1;
                proof {
                    lemma_value_at(self.opened@, k as int);
                }
                let mut index: usize = self.mappings.len();
                let ghost entries = mapping_views(self.mappings@);
                assert(entries.take(index as int) =~= entries);
                proof {
                    assert(self.opened@[k as int].0@ == class@);
                    assert(key_set(self.opened@).contains(class@));
                    assert(self@.opened.dom().contains(class@));
                    assert(self@.opened[class@] == from as int);
                }
                while index > from
                    invariant
                        from <= index <= self.mappings@.len(),
                        entries == mapping_views(self.mappings@),
                        lookup(self@, class@, permission@) == last_entry(entries, from as int, class@, permission@),
                        last_entry(entries, from as int, class@, permission@)
                            == last_entry(entries.take(index as int), from as int, class@, permission@),
                    decreases index,
                {
                    let candidate = &self.mappings[index - 1];
                    proof {
                        let taken = entries.take(index as int);
                        assert(taken.drop_last() =~= entries.take(index - 1));
                        assert(taken.last() == candidate@);
                    }
                    if same_text(candidate.class.as_str(), class) && same_text(candidate.permission.as_str(), permission) {
                        proof {
                            let taken = entries.take(index as int);
                            assert(taken.last() == candidate@);
                            assert(last_entry(taken, from as int, class@, permission@) == Some(index - 1));
                            assert(entries[index - 1] == candidate@);
                            assert(lookup(self@, class@, permission@) == Some(index - 1));
                        }
                        return Some(candidate);
                    }
                    index = index - 1;
                }
                assert(last_entry(entries.take(index as int), from as int, class@, permission@) is None);
                None
            },
        }
    }
}


/// The facts every state of the reader keeps: it carries the given source,
/// no more classes are read than the header declares, and no class is read
/// before the header.
pub open spec fn reader_state_sound(source: Seq<char>, p: Progress) -> bool {
    &&& p.map.source == source
    &&& 0 <= p.map.classes <= p.map.declared
    &&& (p.section is ClassCount ==> p.map.classes == 0)
}

/// A line the reader skips: blank, or a comment.
pub open spec fn skipped_line(entry: Seq<Seq<char>>) -> bool {
    entry.len() == 0 || (entry[0].len() > 0 && entry[0][0] == '#')
}

proof fn lemma_reader_state_sound(source: Seq<char>, lines: Seq<Seq<char>>)
    requires
        read_lines(source, lines) is Ok,
    ensures
        reader_state_sound(source, read_lines(source, lines)->Ok_0),
    decreases lines.len(),
{
    if lines.len() > 0 {
        lemma_reader_state_sound(source, lines.drop_last());
    }
}

/// A map that was read keeps the source label it was given, and never holds
/// more class declarations than its header announced.
pub proof fn law_read_map_keeps_source_and_class_bound(contents: Seq<char>, source: Seq<char>)
    requires
        read_map(contents, source) is Ok,
    ensures
        read_map(contents, source)->Ok_0.source == source,
        0 <= read_map(contents, source)->Ok_0.classes <= read_map(contents, source)->Ok_0.declared,
{
    lemma_reader_state_sound(source, lines_of(contents));
}

/// Reading one more line: a line read where a permission of a class is
/// expected appends exactly one entry, made of that class, the line's first
/// word, the direction its second word names (whose code is that word) and
/// the weight its third word holds; a line read where a class declaration is
/// expected counts one more class; every other line changes neither the
/// entries nor the class count.
pub proof fn law_each_line_adds_at_most_one_entry(source: Seq<char>, lines: Seq<Seq<char>>, line: Seq<char>)
    requires
        read_lines(source, lines.push(line)) is Ok,
    ensures
        read_lines(source, lines) is Ok,
        ({
            let before = read_lines(source, lines)->Ok_0;
            let after = read_lines(source, lines.push(line))->Ok_0;
            let entry = words_of(line);
            &&& (!skipped_line(entry) && before.section is Permissions) ==> {
                &&& entry.len() >= 3
                &&& after.map.entries == before.map.entries.push(
                    (before.section->Permissions_0, entry[0], direction_named(entry[1])->Some_0,
                        i64_value(entry[2])->Some_0))
                &&& direction_code(after.map.entries.last().2) == entry[1]
                &&& 1 <= after.map.entries.last().3 <= 10
                &&& after.map.classes == before.map.classes
            }
            &&& (!skipped_line(entry) && before.section is Class) ==> {
                &&& after.map.entries == before.map.entries
                &&& after.map.classes == before.map.classes + 1
                &&& after.map.opened == before.map.opened.insert(entry[1], before.map.entries.len() as int)
            }
            &&& (skipped_line(entry) || before.section is ClassCount) ==> {
                &&& after.map.entries == before.map.entries
                &&& after.map.classes == before.map.classes
            }
        }),
{
    let all = lines.push(line);
    assert(all.drop_last() =~= lines);
    assert(all.last() == line);
}

/// Where the last match of a search lies: `Some(i)` is a match and no later
/// entry matches; `None` means no entry from `from` on matches.
proof fn lemma_last_entry_is_last(entries: Seq<MappingView>, from: int, class: Seq<char>, permission: Seq<char>)
    ensures
        match last_entry(entries, from, class, permission) {
            Some(i) => forall|j: int| i < j < entries.len() ==>
                !(#[trigger] entries[j].0 == class && entries[j].1 == permission),
            None => forall|j: int| from <= j < entries.len() && 0 <= j ==>
                !(#[trigger] entries[j].0 == class && entries[j].1 == permission),
        },
    decreases entries.len(),
{
    if entries.len() == 0 || entries.len() <= from {
    } else if entries.last().0 == class && entries.last().1 == permission {
    } else {
        let shorter = entries.drop_last();
        lemma_last_entry_is_last(shorter, from, class, permission);
        assert forall|j: int| 0 <= j < shorter.len() implies #[trigger] shorter[j] == entries[j] by {}
        let last = entries.len() - 1;
        assert(entries[last] == entries.last());
        assert(!(entries[last].0 == class && entries[last].1 == permission));
        assert(last_entry(entries, from, class, permission) == last_entry(shorter, from, class, permission));
        match last_entry(shorter, from, class, permission) {
            Some(i) => {
                lemma_last_entry_found(shorter, from, class, permission, i);
                assert forall|j: int| i < j < entries.len() implies
                    !(#[trigger] entries[j].0 == class && entries[j].1 == permission) by {
                    if j < last {
                        assert(shorter[j] == entries[j]);
                    }
                }
            },
            None => {
                assert forall|j: int| from <= j < entries.len() && 0 <= j implies
                    !(#[trigger] entries[j].0 == class && entries[j].1 == permission) by {
                    if j < last {
                        assert(shorter[j] == entries[j]);
                    }
                }
            },
        }
    }
}

/// A lookup finds an entry of the asked class and permission that lies at or
/// after the class's latest declaration, and no later entry matches; when it
/// finds none, either the class was never declared or no entry since its
/// latest declaration matches.
pub proof fn law_lookup_finds_the_latest_entry(map: MapView, class: Seq<char>, permission: Seq<char>)
    ensures
        match lookup(map, class, permission) {
            Some(i) => {
                &&& map.opened.dom().contains(class)
                &&& map.opened[class] <= i < map.entries.len()
                &&& 0 <= i
                &&& map.entries[i].0 == class
                &&& map.entries[i].1 == permission
                &&& forall|j: int| i < j < map.entries.len() ==>
                    !(#[trigger] map.entries[j].0 == class && map.entries[j].1 == permission)
            },
            None => !map.opened.dom().contains(class) || forall|j: int|
                map.opened[class] <= j < map.entries.len() && 0 <= j ==>
                    !(#[trigger] map.entries[j].0 == class && map.entries[j].1 == permission),
        },
{
    if map.opened.dom().contains(class) {
        let from = map.opened[class];
        lemma_last_entry_is_last(map.entries, from, class, permission);
        if let Some(i) = last_entry(map.entries, from, class, permission) {
            lemma_last_entry_found(map.entries, from, class, permission, i);
        }
    }
}

} // verus!
