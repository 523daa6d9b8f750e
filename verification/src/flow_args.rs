//! The command line of the information-flow tool: a source type, an optional
//! target, path, weight and output settings, Boolean assignments, and the
//! types to leave out of the graph.
use vstd::prelude::*;
use crate::text::{texts, owned, push_str, chars_of, string_of, same_text, slice_chars};
use crate::scan::{pieces, split_on, ascii_lowercase, lowercase_ascii, integer_value, i64_value, parse_i64};
use crate::keyed::{entry_map, entry_names, unique_keys, key_set, set_entry, sorted_entries};
use crate::arguments::text_view;

verus! {

/// The information-flow tool's settings.
#[derive(Debug)]
pub struct Options {
    /// The policy file; the running policy when absent.
    pub policy: Option<String>,
    /// The permission map file; the built-in map when absent.
    pub permission_map: Option<String>,
    /// The source type.
    pub source: Option<String>,
    /// The target type, if any.
    pub target: Option<String>,
    /// Whether to write JSON.
    pub json: bool,
    /// Whether to print the contributing rules.
    pub full: bool,
    /// Whether to print graph statistics.
    pub stats: bool,
    /// Whether to log informational messages.
    pub verbose: bool,
    /// Whether to log debugging messages.
    pub debug: bool,
    /// Whether to look for shortest paths.
    pub shortest_path: bool,
    /// The depth limit of an all-paths query.
    pub all_paths: Option<i32>,
    /// Whether flows run into the named type.
    pub reverse: bool,
    /// The lightest flow weight to keep.
    pub minimum_weight: i32,
    /// How many results to print; zero for all.
    pub limit_flows: i32,
    /// Boolean states to evaluate conditional rules with, by name.
    pub booleans: Option<Vec<(String, bool)>>,
    /// Where to write a graph drawing.
    pub output_file: Option<String>,
    /// Types to leave out of the graph.
    pub exclude: Vec<String>,
}

/// What the command line asks for.
#[derive(Debug)]
pub enum ParseAction {
    /// Run the query.
    Run(Options),
    /// Show the help text.
    Help,
    /// Show the version.
    Version,
}

/// The settings as plain values.
pub struct OptionsView {
    /// The policy file.
    pub policy: Option<Seq<char>>,
    /// The permission map file.
    pub permission_map: Option<Seq<char>>,
    /// The source type.
    pub source: Option<Seq<char>>,
    /// The target type.
    pub target: Option<Seq<char>>,
    /// Whether to write JSON.
    pub json: bool,
    /// Whether to print the contributing rules.
    pub full: bool,
    /// Whether to print graph statistics.
    pub stats: bool,
    /// Whether to log informational messages.
    pub verbose: bool,
    /// Whether to log debugging messages.
    pub debug: bool,
    /// Whether to look for shortest paths.
    pub shortest_path: bool,
    /// The depth limit of an all-paths query.
    pub all_paths: Option<int>,
    /// Whether flows run into the named type.
    pub reverse: bool,
    /// The lightest flow weight to keep.
    pub minimum_weight: int,
    /// How many results to print.
    pub limit_flows: int,
    /// Boolean states by name.
    pub booleans: Option<Map<Seq<char>, bool>>,
    /// Where to write a graph drawing.
    pub output_file: Option<Seq<char>>,
    /// Types to leave out.
    pub exclude: Seq<Seq<char>>,
}

/// Boolean states as plain values.
pub open spec fn booleans_view(booleans: Option<Vec<(String, bool)>>) -> Option<Map<Seq<char>, bool>> {
    match booleans {
        Some(entries) => Some(entry_map(entries@)),
        None => None,
    }
}

/// An optional integer as a plain value.
pub open spec fn int_view(value: Option<i32>) -> Option<int> {
    match value {
        Some(v) => Some(v as int),
        None => None,
    }
}

/// The plain values of the settings.
pub open spec fn options_view(options: Options) -> OptionsView {
    OptionsView {
        policy: text_view(options.policy),
        permission_map: text_view(options.permission_map),
        source: text_view(options.source),
        target: text_view(options.target),
        json: options.json,
        full: options.full,
        stats: options.stats,
        verbose: options.verbose,
        debug: options.debug,
        shortest_path: options.shortest_path,
        all_paths: int_view(options.all_paths),
        reverse: options.reverse,
        minimum_weight: options.minimum_weight as int,
        limit_flows: options.limit_flows as int,
        booleans: booleans_view(options.booleans),
        output_file: text_view(options.output_file),
        exclude: texts(options.exclude@),
    }
}

/// What the command line asks for, as plain values.
pub enum ActionView {
    /// Run the query.
    Run(OptionsView),
    /// Show the help text.
    Help,
    /// Show the version.
    Version,
}

/// The plain value of a parse result.
pub open spec fn parse_view(result: Result<ParseAction, String>) -> Result<ActionView, Seq<char>> {
    match result {
        Ok(ParseAction::Run(options)) => Ok(ActionView::Run(options_view(options))),
        Ok(ParseAction::Help) => Ok(ActionView::Help),
        Ok(ParseAction::Version) => Ok(ActionView::Version),
        Err(message) => Err(message@),
    }
}

/// The value of a decimal integer text that fits in an `i32`.
pub open spec fn int_value(value: Seq<char>) -> Option<int> {
    match integer_value(value) {
        Some(v) => if i32::MIN <= v <= i32::MAX { Some(v) } else { None },
        None => None,
    }
}

/// The message for a value that is not an integer.
pub open spec fn int_error(option: Seq<char>, value: Seq<char>) -> Seq<char> {
    "argument "@ + option + ": invalid int value: '"@ + value + "'"@
}

/// The message for an option given without its value.
pub open spec fn missing_value(option: Seq<char>) -> Seq<char> {
    "argument "@ + option + ": expected one argument"@
}

/// The message for an argument that is not understood.
pub open spec fn unrecognized(argument: Seq<char>) -> Seq<char> {
    "unrecognized arguments: "@ + argument
}

/// A text, unless it is empty.
pub open spec fn nonempty_text(value: Seq<char>) -> Option<Seq<char>> {
    if value.len() == 0 { None } else { Some(value) }
}

/// Reads an integer option value.
pub fn parse_int(option: &str, value: &str) -> (result: Result<i32, String>)
    ensures
        match int_value(value@) {
            Some(v) => result matches Ok(n) && n as int == v,
            None => result matches Err(message) && message@ == int_error(option@, value@),
        },
{
    let text = chars_of(value);
    match parse_i64(&text) {
        Some(v) => {
            if v >= -2147483648 && v <= 2147483647 {
                return Ok(v as i32);
            }
        },
        None => {},
    }
    let mut message = owned("argument ");
    push_str(&mut message, option);
    push_str(&mut message, ": invalid int value: '");
    push_str(&mut message, value);
    push_str(&mut message, "'");
    Err(message)
}

/// The Boolean states of `name:state` assignments, a later assignment to a
/// name replacing an earlier one; the first malformed assignment is the error.
pub open spec fn boolean_assignments(assignments: Seq<Seq<char>>) -> Result<Map<Seq<char>, bool>, Seq<char>>
    decreases assignments.len(),
{
    if assignments.len() == 0 {
        Ok(Map::empty())
    } else {
        match boolean_assignments(assignments.drop_last()) {
            Err(message) => Err(message),
            Ok(states) => {
                let parts = pieces(assignments.last(), ':');
                if parts.len() != 2 {
                    Err("Expected boolean format foo:true,bar:false"@)
                } else if ascii_lowercase(parts[1]) == "true"@ {
                    Ok(states.insert(parts[0], true))
                } else if ascii_lowercase(parts[1]) == "false"@ {
                    Ok(states.insert(parts[0], false))
                } else {
                    Err("Conditional value must be true or false."@)
                }
            },
        }
    }
}

/// The Boolean states a `--booleans` value asks for: none without one, the
/// policy defaults for `default`, otherwise comma-separated assignments.
pub open spec fn boolean_setting(value: Option<Seq<char>>) -> Result<Option<Map<Seq<char>, bool>>, Seq<char>> {
    match value {
        None => Ok(None),
        Some(v) => if v == "default"@ {
            Ok(Some(Map::empty()))
        } else {
            match boolean_assignments(pieces(v, ',')) {
                Ok(states) => Ok(Some(states)),
                Err(message) => Err(message),
            }
        },
    }
}

/// Reads Boolean assignments; the states come back ordered by name.
pub fn parse_booleans(value: Option<&str>) -> (result: Result<Option<Vec<(String, bool)>>, String>)
    ensures
        match boolean_setting(match value { Some(v) => Some(v@), None => None }) {
            Ok(None) => result matches Ok(None),
            Ok(Some(states)) => result matches Ok(Some(entries)) && entry_map(entries@) == states
                && unique_keys(entries@) && crate::text::strictly_sorted(entry_names(entries@)),
            Err(message) => result matches Err(m) && m@ == message,
        },
{
    let text = match value {
        None => {
            return Ok(None);
        },
        Some(v) => v,
    };
    if same_text(text, "default") {
        let empty: Vec<(String, bool)> = Vec::new();
        proof {
            assert(entry_map(empty@) =~= Map::<Seq<char>, bool>::empty());
        }
        return Ok(Some(empty));
    }
    let chars = chars_of(text);
    let assignments = split_on(&chars, ',');
    let ghost all = pieces(text@, ',');
    let mut states: Vec<(String, bool)> = Vec::new();
    let mut index: usize = 0;
    proof {
        assert(entry_map(states@) =~= Map::<Seq<char>, bool>::empty());
        assert(all.take(0) =~= Seq::<Seq<char>>::empty());
    }
    while index < assignments.len()
        invariant
            index <= assignments.len(),
            text@ != "default"@,
            value matches Some(v) && v@ == text@,
            all == pieces(text@, ','),
            assignments@.len() == all.len(),
            forall|i: int| 0 <= i < assignments@.len() ==> #[trigger] assignments@[i]@ == all[i],
            unique_keys(states@),
            boolean_assignments(all.take(index as int)) == Ok::<Map<Seq<char>, bool>, Seq<char>>(entry_map(states@)),
        decreases assignments.len() - index,
    {
        proof {
            assert(all.take(index + 1).drop_last() =~= all.take(index as int));
            assert(all.take(index + 1).last() == assignments@[index as int]@);
        }
        let parts = split_on(&assignments[index], ':');
        if parts.len() != 2 {
            proof {
                lemma_booleans_error_stays(all, index + 1);
            }
            return Err(owned("Expected boolean format foo:true,bar:false"));
        }
        let word = string_of(&lowercase_ascii(&parts[1]));
        let state = if same_text(word.as_str(), "true") {
            true
        } else if same_text(word.as_str(), "false") {
            false
        } else {
            proof {
                lemma_booleans_error_stays(all, index + 1);
            }
            return Err(owned("Conditional value must be true or false."));
        };
        let name = string_of(&parts[0]);
        let ghost before = states@;
        set_entry(&mut states, name, state);
        proof {
            assert(entry_map(states@) =~= entry_map(before).insert(parts@[0]@, state));
        }
        index = index + 1;
    }
    proof {
        assert(all.take(assignments.len() as int) =~= all);
    }
    let sorted = sorted_entries(&states);
    Ok(Some(sorted))
}

/// Once an assignment fails, the whole value fails with it.
proof fn lemma_booleans_error_stays(assignments: Seq<Seq<char>>, k: int)
    requires
        0 <= k <= assignments.len(),
        boolean_assignments(assignments.take(k)) is Err,
    ensures
        boolean_assignments(assignments) == boolean_assignments(assignments.take(k)),
    decreases assignments.len(),
{
    if assignments.len() > k {
        assert(assignments.drop_last().take(k) =~= assignments.take(k));
        lemma_booleans_error_stays(assignments.drop_last(), k);
    } else {
        assert(assignments.take(k) =~= assignments);
    }
}

/// The parser's state between arguments.
pub struct ParseState {
    /// The settings so far.
    pub options: OptionsView,
    /// Whether `--` has been seen.
    pub positional_only: bool,
    /// The `--booleans` value, read once all arguments are in.
    pub boolean_text: Option<Seq<char>>,
}

/// The state before any argument.
pub open spec fn initial_state() -> ParseState {
    ParseState {
        options: OptionsView {
            policy: None,
            permission_map: None,
            source: None,
            target: None,
            json: false,
            full: false,
            stats: false,
            verbose: false,
            debug: false,
            shortest_path: false,
            all_paths: None,
            reverse: false,
            minimum_weight: 3,
            limit_flows: 0,
            booleans: None,
            output_file: None,
            exclude: Seq::empty(),
        },
        positional_only: false,
        boolean_text: None,
    }
}

/// The long name of an option that takes a value, given either spelling.
pub open spec fn value_option(word: Seq<char>) -> Option<Seq<char>> {
    if word == "-p"@ || word == "--policy"@ { Some("--policy"@) }
    else if word == "-m"@ || word == "--map"@ { Some("--map"@) }
    else if word == "-s"@ || word == "--source"@ { Some("--source"@) }
    else if word == "-t"@ || word == "--target"@ { Some("--target"@) }
    else if word == "-A"@ || word == "--all_paths"@ { Some("--all_paths"@) }
    else if word == "-w"@ || word == "--min_weight"@ { Some("--min_weight"@) }
    else if word == "-l"@ || word == "--limit_flows"@ { Some("--limit_flows"@) }
    else if word == "-b"@ || word == "--booleans"@ { Some("--booleans"@) }
    else if word == "-o"@ || word == "--output_file"@ { Some("--output_file"@) }
    else { None }
}

/// Both spellings of an option that takes a value, as messages name it.
pub open spec fn option_label(name: Seq<char>) -> Seq<char> {
    if name == "--policy"@ { "-p/--policy"@ }
    else if name == "--map"@ { "-m/--map"@ }
    else if name == "--source"@ { "-s/--source"@ }
    else if name == "--target"@ { "-t/--target"@ }
    else if name == "--all_paths"@ { "-A/--all_paths"@ }
    else if name == "--min_weight"@ { "-w/--min_weight"@ }
    else if name == "--limit_flows"@ { "-l/--limit_flows"@ }
    else if name == "--booleans"@ { "-b/--booleans"@ }
    else { "-o/--output_file"@ }
}

/// Sets the option with long name `name` to `value`; `label` names the
/// option in the message for a bad integer.
pub open spec fn set_option(state: ParseState, name: Seq<char>, value: Seq<char>, label: Seq<char>) -> Result<ParseState, Seq<char>> {
    let o = state.options;
    if name == "--policy"@ {
        Ok(ParseState { options: OptionsView { policy: Some(value), ..o }, ..state })
    } else if name == "--map"@ {
        Ok(ParseState { options: OptionsView { permission_map: Some(value), ..o }, ..state })
    } else if name == "--source"@ {
        Ok(ParseState { options: OptionsView { source: Some(value), ..o }, ..state })
    } else if name == "--target"@ {
        Ok(ParseState { options: OptionsView { target: nonempty_text(value), ..o }, ..state })
    } else if name == "--all_paths"@ {
        match int_value(value) {
            Some(v) => Ok(ParseState { options: OptionsView { all_paths: Some(v), ..o }, ..state }),
            None => Err(int_error(label, value)),
        }
    } else if name == "--min_weight"@ {
        match int_value(value) {
            Some(v) => Ok(ParseState { options: OptionsView { minimum_weight: v, ..o }, ..state }),
            None => Err(int_error(label, value)),
        }
    } else if name == "--limit_flows"@ {
        match int_value(value) {
            Some(v) => Ok(ParseState { options: OptionsView { limit_flows: v, ..o }, ..state }),
            None => Err(int_error(label, value)),
        }
    } else if name == "--booleans"@ {
        Ok(ParseState { boolean_text: Some(value), ..state })
    } else {
        Ok(ParseState { options: OptionsView { output_file: Some(value), ..o }, ..state })
    }
}

/// The settings after a switch that takes no value, if `word` is one.
pub open spec fn set_flag(o: OptionsView, word: Seq<char>) -> Option<OptionsView> {
    if word == "--full"@ { Some(OptionsView { full: true, ..o }) }
    else if word == "--stats"@ { Some(OptionsView { stats: true, ..o }) }
    else if word == "--json"@ { Some(OptionsView { json: true, ..o }) }
    else if word == "-v"@ || word == "--verbose"@ { Some(OptionsView { verbose: true, ..o }) }
    else if word == "--debug"@ { Some(OptionsView { debug: true, ..o }) }
    else if word == "-S"@ || word == "--shortest_path"@ { Some(OptionsView { shortest_path: true, ..o }) }
    else if word == "-r"@ || word == "--reverse"@ { Some(OptionsView { reverse: true, ..o }) }
    else { None }
}

/// The position of the first `=` in an argument.
pub open spec fn equals_at(argument: Seq<char>) -> Option<int> {
    if exists|k: int| 0 <= k < argument.len() && argument[k] == '=' {
        Some(choose|k: int| 0 <= k < argument.len() && argument[k] == '='
            && forall|j: int| 0 <= j < k ==> argument[j] != '=')
    } else {
        None
    }
}

/// The state after an excluded type.
pub open spec fn excluded(state: ParseState, name: Seq<char>) -> ParseState {
    ParseState { options: OptionsView { exclude: state.options.exclude.push(name), ..state.options }, ..state }
}

/// What the arguments ask for once all are read.
pub open spec fn finish(state: ParseState) -> Result<ActionView, Seq<char>> {
    if state.options.source is None {
        Err("the following arguments are required: -s/--source"@)
    } else {
        match boolean_setting(state.boolean_text) {
            Ok(booleans) => Ok(ActionView::Run(OptionsView { booleans, ..state.options })),
            Err(message) => Err(message),
        }
    }
}

/// What the command line asks for, reading from argument `i` on.
pub open spec fn parse_from(arguments: Seq<Seq<char>>, i: int, state: ParseState) -> Result<ActionView, Seq<char>>
    decreases arguments.len() - i,
{
    if i < 0 || i >= arguments.len() {
        finish(state)
    } else {
        let a = arguments[i];
        if state.positional_only {
            parse_from(arguments, i + 1, excluded(state, a))
        } else if a == "--"@ {
            parse_from(arguments, i + 1, ParseState { positional_only: true, ..state })
        } else {
            match equals_at(a) {
                Some(k) => {
                    let name = a.take(k);
                    if value_option(name) == Some(name) {
                        match set_option(state, name, a.skip(k + 1), name) {
                            Ok(next) => parse_from(arguments, i + 1, next),
                            Err(message) => Err(message),
                        }
                    } else {
                        Err(unrecognized(a))
                    }
                },
                None => if a == "-h"@ || a == "--help"@ {
                    Ok(ActionView::Help)
                } else if a == "--version"@ {
                    Ok(ActionView::Version)
                } else {
                    match set_flag(state.options, a) {
                        Some(options) => parse_from(arguments, i + 1, ParseState { options, ..state }),
                        None => match value_option(a) {
                            Some(name) => if i + 1 < arguments.len() {
                                match set_option(state, name, arguments[i + 1], option_label(name)) {
                                    Ok(next) => parse_from(arguments, i + 2, next),
                                    Err(message) => Err(message),
                                }
                            } else {
                                Err(missing_value(option_label(name)))
                            },
                            None => if a.len() > 0 && a[0] == '-' {
                                Err(unrecognized(a))
                            } else {
                                parse_from(arguments, i + 1, excluded(state, a))
                            },
                        },
                    }
                },
            }
        }
    }
}

/// The exec parser state.
struct Parser {
    options: Options,
    positional_only: bool,
    boolean_text: Option<String>,
}

/// The plain values of the parser state.
spec fn parser_view(parser: Parser) -> ParseState {
    ParseState {
        options: options_view(parser.options),
        positional_only: parser.positional_only,
        boolean_text: text_view(parser.boolean_text),
    }
}

/// Splits an argument at its first `=`.
pub(crate) fn split_equals(argument: &str) -> (result: Option<(String, String)>)
    ensures
        match equals_at(argument@) {
            Some(k) => result matches Some((name, value)) && name@ == argument@.take(k) && value@ == argument@.skip(k + 1),
            None => result is None,
        },
{
    let text = chars_of(argument);
    let mut index: usize = 0;
    while index < text.len()
        invariant
            index <= text.len(),
            text@ == argument@,
            forall|j: int| 0 <= j < index ==> text@[j] != '=',
        decreases text.len() - index,
    {
        if text[index] == '=' {
            proof {
                let k = index as int;
                let c = choose|c: int| 0 <= c < text@.len() && text@[c] == '='
                    && forall|j: int| 0 <= j < c ==> text@[j] != '=';
                assert(c == k) by {
                    if c < k {
                        assert(text@[c] != '=');
                    }
                    if c > k {
                        assert(text@[k] != '=');
                    }
                }
            }
            let name = slice_chars(&text, 0, index);
            let value = slice_chars(&text, index + 1, text.len());
            assert(text@.subrange(0, index as int) =~= text@.take(index as int));
            assert(text@.subrange(index + 1, text@.len() as int) =~= text@.skip(index + 1));
            return Some((string_of(&name), string_of(&value)));
        }
        index = index + 1;
    }
    None
}

/// The long name of an option that takes a value, given either spelling.
fn canonical_option(word: &str) -> (result: Option<&'static str>)
    ensures
        match value_option(word@) {
            Some(name) => result matches Some(r) && r@ == name,
            None => result is None,
        },
{
    if same_text(word, "-p") || same_text(word, "--policy") { Some("--policy") }
    else if same_text(word, "-m") || same_text(word, "--map") { Some("--map") }
    else if same_text(word, "-s") || same_text(word, "--source") { Some("--source") }
    else if same_text(word, "-t") || same_text(word, "--target") { Some("--target") }
    else if same_text(word, "-A") || same_text(word, "--all_paths") { Some("--all_paths") }
    else if same_text(word, "-w") || same_text(word, "--min_weight") { Some("--min_weight") }
    else if same_text(word, "-l") || same_text(word, "--limit_flows") { Some("--limit_flows") }
    else if same_text(word, "-b") || same_text(word, "--booleans") { Some("--booleans") }
    else if same_text(word, "-o") || same_text(word, "--output_file") { Some("--output_file") }
    else { None }
}

/// Both spellings of an option that takes a value.
fn label_of(name: &str) -> (result: &'static str)
    ensures
        result@ == option_label(name@),
{
    if same_text(name, "--policy") { "-p/--policy" }
    else if same_text(name, "--map") { "-m/--map" }
    else if same_text(name, "--source") { "-s/--source" }
    else if same_text(name, "--target") { "-t/--target" }
    else if same_text(name, "--all_paths") { "-A/--all_paths" }
    else if same_text(name, "--min_weight") { "-w/--min_weight" }
    else if same_text(name, "--limit_flows") { "-l/--limit_flows" }
    else if same_text(name, "--booleans") { "-b/--booleans" }
    else { "-o/--output_file" }
}

/// Sets the option with long name `name` to `value`.
fn apply_option(parser: Parser, name: &str, value: &str, label: &str) -> (result: Result<Parser, String>)
    ensures
        match set_option(parser_view(parser), name@, value@, label@) {
            Ok(next) => result matches Ok(p) && parser_view(p) == next,
            Err(message) => result matches Err(m) && m@ == message,
        },
{
    let Parser { mut options, positional_only, mut boolean_text } = parser;
    if same_text(name, "--policy") {
        options.policy = Some(owned(value));
    } else if same_text(name, "--map") {
        options.permission_map = Some(owned(value));
    } else if same_text(name, "--source") {
        options.source = Some(owned(value));
    } else if same_text(name, "--target") {
        options.target = if value.unicode_len() == 0 { None } else { Some(owned(value)) };
    } else if same_text(name, "--all_paths") {
        match parse_int(label, value) {
            Ok(v) => {
                options.all_paths = Some(v);
            },
            Err(message) => {
                return Err(message);
            },
        }
    } else if same_text(name, "--min_weight") {
        match parse_int(label, value) {
            Ok(v) => {
                options.minimum_weight = v;
            },
            Err(message) => {
                return Err(message);
            },
        }
    } else if same_text(name, "--limit_flows") {
        match parse_int(label, value) {
            Ok(v) => {
                options.limit_flows = v;
            },
            Err(message) => {
                return Err(message);
            },
        }
    } else if same_text(name, "--booleans") {
        boolean_text = Some(owned(value));
    } else {
        options.output_file = Some(owned(value));
    }
    Ok(Parser { options, positional_only, boolean_text })
}

/// Sets a switch that takes no value; `false` if `word` is not one.
fn apply_flag(options: &mut Options, word: &str) -> (result: bool)
    ensures
        match set_flag(options_view(*old(options)), word@) {
            Some(next) => result && options_view(*final(options)) == next,
            None => !result && *final(options) == *old(options),
        },
{
    if same_text(word, "--full") {
        options.full = true;
    } else if same_text(word, "--stats") {
        options.stats = true;
    } else if same_text(word, "--json") {
        options.json = true;
    } else if same_text(word, "-v") || same_text(word, "--verbose") {
        options.verbose = true;
    } else if same_text(word, "--debug") {
        options.debug = true;
    } else if same_text(word, "-S") || same_text(word, "--shortest_path") {
        options.shortest_path = true;
    } else if same_text(word, "-r") || same_text(word, "--reverse") {
        options.reverse = true;
    } else {
        return false;
    }
    true
}

/// Reads the information-flow tool's command line.
pub fn parse(arguments: Vec<String>) -> (result: Result<ParseAction, String>)
    ensures
        parse_view(result) == parse_from(texts(arguments@), 0, initial_state()),
{
    let ghost args = texts(arguments@);
    let mut parser = Parser {
        options: Options {
            policy: None,
            permission_map: None,
            source: None,
            target: None,
            json: false,
            full: false,
            stats: false,
            verbose: false,
            debug: false,
            shortest_path: false,
            all_paths: None,
            reverse: false,
            minimum_weight: 3,
            limit_flows: 0,
            booleans: None,
            output_file: None,
            exclude: Vec::new(),
        },
        positional_only: false,
        boolean_text: None,
    };
    proof {
        assert(texts(parser.options.exclude@) =~= Seq::<Seq<char>>::empty());
        assert(parser_view(parser) == initial_state());
    }
    let mut index: usize = 0;
    while index < arguments.len()
        invariant
            args == texts(arguments@),
            index <= arguments.len(),
            parser.options.booleans is None,
            parse_from(args, 0, initial_state()) == parse_from(args, index as int, parser_view(parser)),
        decreases arguments.len() - index,
    {
        let argument = arguments[index].as_str();
        assert(args[index as int] == argument@);
        let ghost state = parser_view(parser);
        if parser.positional_only || same_text(argument, "--") {
            if parser.positional_only {
                let ghost before = texts(parser.options.exclude@);
                parser.options.exclude.push(owned(argument));
                assert(texts(parser.options.exclude@) =~= before.push(argument@));
                assert(parser_view(parser) == excluded(state, argument@));
            } else {
                parser.positional_only = true;
            }
            index = index + 1;
        } else {
            match split_equals(argument) {
                Some((name, value)) => {
                    let known = match canonical_option(name.as_str()) {
                        Some(long) => same_text(long, name.as_str()),
                        None => false,
                    };
                    if !known {
                        let mut message = owned("unrecognized arguments: ");
                        push_str(&mut message, argument);
                        return Err(message);
                    }
                    match apply_option(parser, name.as_str(), value.as_str(), name.as_str()) {
                        Ok(next) => {
                            parser = next;
                        },
                        Err(message) => {
                            return Err(message);
                        },
                    }
                    index = index + 1;
                },
                None => {
                    if same_text(argument, "-h") || same_text(argument, "--help") {
                        return Ok(ParseAction::Help);
                    }
                    if same_text(argument, "--version") {
                        return Ok(ParseAction::Version);
                    }
                    if apply_flag(&mut parser.options, argument) {
                        index = index + 1;
                    } else {
                        match canonical_option(argument) {
                            Some(name) => {
                                let label = label_of(name);
                                if index + 1 >= arguments.len() {
                                    let mut message = owned("argument ");
                                    push_str(&mut message, label);
                                    push_str(&mut message, ": expected one argument");
                                    return Err(message);
                                }
                                assert(args[index + 1] == arguments@[index + 1]@);
                                match apply_option(parser, name, arguments[index + 1].as_str(), label) {
                                    Ok(next) => {
                                        parser = next;
                                    },
                                    Err(message) => {
                                        return Err(message);
                                    },
                                }
                                index = index + 2;
                            },
                            None => {
                                let text = chars_of(argument);
                                if text.len() > 0 && text[0] == '-' {
                                    let mut message = owned("unrecognized arguments: ");
                                    push_str(&mut message, argument);
                                    return Err(message);
                                }
                                let ghost before = texts(parser.options.exclude@);
                                parser.options.exclude.push(owned(argument));
                                assert(texts(parser.options.exclude@) =~= before.push(argument@));
                                assert(parser_view(parser) == excluded(state, argument@));
                                index = index + 1;
                            },
                        }
                    }
                },
            }
        }
    }
    let Parser { mut options, positional_only, boolean_text } = parser;
    if options.source.is_none() {
        return Err(owned("the following arguments are required: -s/--source"));
    }
    let booleans = match &boolean_text {
        Some(text) => parse_booleans(Some(text.as_str())),
        None => parse_booleans(None),
    };
    match booleans {
        Ok(states) => {
            options.booleans = states;
            Ok(ParseAction::Run(options))
        },
        Err(message) => Err(message),
    }
}

/// Whether the options ask for a path query with a nonzero depth limit.
pub open spec fn has_all_paths(options: OptionsView) -> bool {
    options.all_paths matches Some(depth) && depth != 0
}

/// The usage error a set of options makes, if any: a path query needs a
/// target, a target needs a path query, the limit cannot be negative, and
/// JSON output cannot go with a graph drawing.
pub open spec fn usage_problem(options: OptionsView) -> Option<Seq<char>> {
    let path_query = options.shortest_path || has_all_paths(options);
    if options.target is None && path_query {
        Some("The target type must be specified to determine a path."@)
    } else if options.target is Some && !path_query {
        Some("A target type is not used for flows in/out of a type."@)
    } else if options.limit_flows < 0 {
        Some("Limit on information flows cannot be negative."@)
    } else if options.json && options.output_file is Some {
        Some("--json cannot be used with --output_file."@)
    } else {
        None
    }
}

/// Checks that the options make sense together.
pub fn check_usage(options: &Options) -> (result: Result<(), String>)
    ensures
        match usage_problem(options_view(*options)) {
            Some(message) => result matches Err(m) && m@ == message,
            None => result is Ok,
        },
{
    let all_paths = match options.all_paths {
        Some(depth) => depth != 0,
        None => false,
    };
    let path_query = options.shortest_path || all_paths;
    if options.target.is_none() && path_query {
        Err(owned("The target type must be specified to determine a path."))
    } else if options.target.is_some() && !path_query {
        Err(owned("A target type is not used for flows in/out of a type."))
    } else if options.limit_flows < 0 {
        Err(owned("Limit on information flows cannot be negative."))
    } else if options.json && options.output_file.is_some() {
        Err(owned("--json cannot be used with --output_file."))
    } else {
        Ok(())
    }
}

/// The analysis error the numeric settings make once the policy is loaded:
/// the weight must be 1 to 10 and a path depth positive.
pub open spec fn setting_problem(options: OptionsView) -> Option<Seq<char>> {
    if !(1 <= options.minimum_weight <= 10) {
        Some("Min information flow weight must be an integer 1-10."@)
    } else if has_all_paths(options) && options.all_paths.unwrap() < 1 {
        Some("Information flow max depth must be positive."@)
    } else {
        None
    }
}

/// Checks the weight and depth settings.
pub fn check_settings(options: &Options) -> (result: Result<(), String>)
    ensures
        match setting_problem(options_view(*options)) {
            Some(message) => result matches Err(m) && m@ == message,
            None => result is Ok,
        },
{
    if options.minimum_weight < 1 || options.minimum_weight > 10 {
        return Err(owned("Min information flow weight must be an integer 1-10."));
    }
    match options.all_paths {
        Some(depth) => {
            if depth != 0 && depth < 1 {
                return Err(owned("Information flow max depth must be positive."));
            }
        },
        None => {},
    }
    Ok(())
}

/// The query the options ask for.
pub open spec fn mode_name(options: OptionsView) -> Seq<char> {
    if options.shortest_path {
        "shortest_paths"@
    } else if has_all_paths(options) {
        "all_paths"@
    } else if options.reverse {
        "flows_in"@
    } else {
        "flows_out"@
    }
}

/// Names the query the options ask for.
pub fn query_mode(options: &Options) -> (result: &'static str)
    ensures
        result@ == mode_name(options_view(*options)),
{
    if options.shortest_path {
        "shortest_paths"
    } else if (match options.all_paths { Some(depth) => depth != 0, None => false }) {
        "all_paths"
    } else if options.reverse {
        "flows_in"
    } else {
        "flows_out"
    }
}

} // verus!
