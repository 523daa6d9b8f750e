//! The command line of the domain-transition tool: a source domain, an
//! optional target, path and output settings, and the types to leave out of
//! the graph.
use vstd::prelude::*;
use crate::text::{texts, owned, push_str, chars_of, same_text};
use crate::arguments::text_view;
use crate::flow_args::{int_value, int_error, missing_value, unrecognized, parse_int, int_view, equals_at, split_equals};

verus! {

/// The domain-transition tool's settings.
#[derive(Debug)]
pub struct Options {
    /// The policy file; the running policy when absent.
    pub policy: Option<String>,
    /// The source domain.
    pub source: Option<String>,
    /// The target domain, if any.
    pub target: Option<String>,
    /// Whether to print the rules behind each transition.
    pub full: bool,
    /// Whether to print graph statistics.
    pub stats: bool,
    /// Whether to log informational messages.
    pub verbose: bool,
    /// Whether to log debugging messages.
    pub debug: bool,
    /// Whether to look for shortest paths.
    pub shortest_path: bool,
    /// The depth limit of an all-paths query.
    pub all_paths: Option<i32>,
    /// Whether transitions run into the named domain.
    pub reverse: bool,
    /// How many results to print; zero for all.
    pub limit_trans: i32,
    /// Where to write a graph drawing.
    pub output_file: Option<String>,
    /// Types to leave out of the graph.
    pub exclude: Vec<String>,
}

/// What the command line asks for.
#[derive(Debug)]
pub enum ParseAction {
    /// Run the query.
    Run(Options),
    /// Show the help text.
    Help,
    /// Show the version.
    Version,
}

/// The settings as plain values.
pub struct OptionsView {
    /// The policy file.
    pub policy: Option<Seq<char>>,
    /// The source domain.
    pub source: Option<Seq<char>>,
    /// The target domain.
    pub target: Option<Seq<char>>,
    /// Whether to print the rules.
    pub full: bool,
    /// Whether to print graph statistics.
    pub stats: bool,
    /// Whether to log informational messages.
    pub verbose: bool,
    /// Whether to log debugging messages.
    pub debug: bool,
    /// Whether to look for shortest paths.
    pub shortest_path: bool,
    /// The depth limit of an all-paths query.
    pub all_paths: Option<int>,
    /// Whether transitions run into the named domain.
    pub reverse: bool,
    /// How many results to print.
    pub limit_trans: int,
    /// Where to write a graph drawing.
    pub output_file: Option<Seq<char>>,
    /// Types to leave out.
    pub exclude: Seq<Seq<char>>,
}

/// The plain values of the settings.
pub open spec fn options_view(options: Options) -> OptionsView {
    OptionsView {
        policy: text_view(options.policy),
        source: text_view(options.source),
        target: text_view(options.target),
        full: options.full,
        stats: options.stats,
        verbose: options.verbose,
        debug: options.debug,
        shortest_path: options.shortest_path,
        all_paths: int_view(options.all_paths),
        reverse: options.reverse,
        limit_trans: options.limit_trans as int,
        output_file: text_view(options.output_file),
        exclude: texts(options.exclude@),
    }
}

/// What the command line asks for, as plain values.
pub enum ActionView {
    /// Run the query.
    Run(OptionsView),
    /// Show the help text.
    Help,
    /// Show the version.
    Version,
}

/// The plain value of a parse result.
pub open spec fn parse_view(result: Result<ParseAction, String>) -> Result<ActionView, Seq<char>> {
    match result {
        Ok(ParseAction::Run(options)) => Ok(ActionView::Run(options_view(options))),
        Ok(ParseAction::Help) => Ok(ActionView::Help),
        Ok(ParseAction::Version) => Ok(ActionView::Version),
        Err(message) => Err(message@),
    }
}

/// The parser's state between arguments.
pub struct ParseState {
    /// The settings so far.
    pub options: OptionsView,
    /// Whether `--` has been seen.
    pub positional_only: bool,
}

/// The state before any argument.
pub open spec fn initial_state() -> ParseState {
    ParseState {
        options: OptionsView {
            policy: None,
            source: None,
            target: None,
            full: false,
            stats: false,
            verbose: false,
            debug: false,
            shortest_path: false,
            all_paths: None,
            reverse: false,
            limit_trans: 0,
            output_file: None,
            exclude: Seq::empty(),
        },
        positional_only: false,
    }
}

/// The long name of an option that takes a value, given either spelling.
pub open spec fn value_option(word: Seq<char>) -> Option<Seq<char>> {
    if word == "-p"@ || word == "--policy"@ { Some("--policy"@) }
    else if word == "-s"@ || word == "--source"@ { Some("--source"@) }
    else if word == "-t"@ || word == "--target"@ { Some("--target"@) }
    else if word == "-A"@ || word == "--all_paths"@ { Some("--all_paths"@) }
    else if word == "-l"@ || word == "--limit_trans"@ { Some("--limit_trans"@) }
    else if word == "-o"@ || word == "--output_file"@ { Some("--output_file"@) }
    else { None }
}

/// Both spellings of an option that takes a value, as messages name it.
pub open spec fn option_label(name: Seq<char>) -> Seq<char> {
    if name == "--policy"@ { "-p/--policy"@ }
    else if name == "--source"@ { "-s/--source"@ }
    else if name == "--target"@ { "-t/--target"@ }
    else if name == "--all_paths"@ { "-A/--all_paths"@ }
    else if name == "--limit_trans"@ { "-l/--limit_trans"@ }
    else { "-o/--output_file"@ }
}

/// Sets the option with long name `name` to `value`; `label` names the
/// option in the message for a bad integer.
pub open spec fn set_option(options: OptionsView, name: Seq<char>, value: Seq<char>, label: Seq<char>) -> Result<OptionsView, Seq<char>> {
    if name == "--policy"@ {
        Ok(OptionsView { policy: Some(value), ..options })
    } else if name == "--source"@ {
        Ok(OptionsView { source: Some(value), ..options })
    } else if name == "--target"@ {
        Ok(OptionsView { target: Some(value), ..options })
    } else if name == "--all_paths"@ {
        match int_value(value) {
            Some(v) => Ok(OptionsView { all_paths: Some(v), ..options }),
            None => Err(int_error(label, value)),
        }
    } else if name == "--limit_trans"@ {
        match int_value(value) {
            Some(v) => Ok(OptionsView { limit_trans: v, ..options }),
            None => Err(int_error(label, value)),
        }
    } else {
        Ok(OptionsView { output_file: Some(value), ..options })
    }
}

/// The settings after a switch that takes no value, if `word` is one.
pub open spec fn set_flag(o: OptionsView, word: Seq<char>) -> Option<OptionsView> {
    if word == "--full"@ { Some(OptionsView { full: true, ..o }) }
    else if word == "--stats"@ { Some(OptionsView { stats: true, ..o }) }
    else if word == "-v"@ || word == "--verbose"@ { Some(OptionsView { verbose: true, ..o }) }
    else if word == "--debug"@ { Some(OptionsView { debug: true, ..o }) }
    else if word == "-S"@ || word == "--shortest_path"@ { Some(OptionsView { shortest_path: true, ..o }) }
    else if word == "-r"@ || word == "--reverse"@ { Some(OptionsView { reverse: true, ..o }) }
    else { None }
}

/// The state after an excluded type.
pub open spec fn excluded(state: ParseState, name: Seq<char>) -> ParseState {
    ParseState { options: OptionsView { exclude: state.options.exclude.push(name), ..state.options }, ..state }
}

/// The state with new settings.
pub open spec fn with_options(state: ParseState, options: OptionsView) -> ParseState {
    ParseState { options, ..state }
}

/// What the command line asks for, reading from argument `i` on.
pub open spec fn parse_from(arguments: Seq<Seq<char>>, i: int, state: ParseState) -> Result<ActionView, Seq<char>>
    decreases arguments.len() - i,
{
    if i < 0 || i >= arguments.len() {
        if state.options.source is None {
            Err("the following arguments are required: -s/--source"@)
        } else {
            Ok(ActionView::Run(state.options))
        }
    } else {
        let a = arguments[i];
        if state.positional_only {
            parse_from(arguments, i + 1, excluded(state, a))
        } else if a == "--"@ {
            parse_from(arguments, i + 1, ParseState { positional_only: true, ..state })
        } else {
            match equals_at(a) {
                Some(k) => {
                    let name = a.take(k);
                    if value_option(name) == Some(name) {
                        match set_option(state.options, name, a.skip(k + 1), name) {
                            Ok(options) => parse_from(arguments, i + 1, with_options(state, options)),
                            Err(message) => Err(message),
                        }
                    } else {
                        Err(unrecognized(a))
                    }
                },
                None => if a == "-h"@ || a == "--help"@ {
                    Ok(ActionView::Help)
                } else if a == "--version"@ {
                    Ok(ActionView::Version)
                } else {
                    match set_flag(state.options, a) {
                        Some(options) => parse_from(arguments, i + 1, with_options(state, options)),
                        None => match value_option(a) {
                            Some(name) => if i + 1 < arguments.len() {
                                match set_option(state.options, name, arguments[i + 1], option_label(name)) {
                                    Ok(options) => parse_from(arguments, i + 2, with_options(state, options)),
                                    Err(message) => Err(message),
                                }
                            } else {
                                Err(missing_value(option_label(name)))
                            },
                            None => if a.len() > 0 && a[0] == '-' {
                                Err(unrecognized(a))
                            } else {
                                parse_from(arguments, i + 1, excluded(state, a))
                            },
                        },
                    }
                },
            }
        }
    }
}

/// The long name of an option that takes a value, given either spelling.
fn canonical_option(word: &str) -> (result: Option<&'static str>)
    ensures
        match value_option(word@) {
            Some(name) => result matches Some(r) && r@ == name,
            None => result is None,
        },
{
    if same_text(word, "-p") || same_text(word, "--policy") { Some("--policy") }
    else if same_text(word, "-s") || same_text(word, "--source") { Some("--source") }
    else if same_text(word, "-t") || same_text(word, "--target") { Some("--target") }
    else if same_text(word, "-A") || same_text(word, "--all_paths") { Some("--all_paths") }
    else if same_text(word, "-l") || same_text(word, "--limit_trans") { Some("--limit_trans") }
    else if same_text(word, "-o") || same_text(word, "--output_file") { Some("--output_file") }
    else { None }
}

/// Both spellings of an option that takes a value.
fn label_of(name: &str) -> (result: &'static str)
    ensures
        result@ == option_label(name@),
{
    if same_text(name, "--policy") { "-p/--policy" }
    else if same_text(name, "--source") { "-s/--source" }
    else if same_text(name, "--target") { "-t/--target" }
    else if same_text(name, "--all_paths") { "-A/--all_paths" }
    else if same_text(name, "--limit_trans") { "-l/--limit_trans" }
    else { "-o/--output_file" }
}

/// Sets the option with long name `name` to `value`.
fn apply_option(options: Options, name: &str, value: &str, label: &str) -> (result: Result<Options, String>)
    ensures
        match set_option(options_view(options), name@, value@, label@) {
            Ok(next) => result matches Ok(o) && options_view(o) == next,
            Err(message) => result matches Err(m) && m@ == message,
        },
{
    let mut options = options;
    if same_text(name, "--policy") {
        options.policy = Some(owned(value));
    } else if same_text(name, "--source") {
        options.source = Some(owned(value));
    } else if same_text(name, "--target") {
        options.target = Some(owned(value));
    } else if same_text(name, "--all_paths") {
        match parse_int(label, value) {
            Ok(v) => {
                options.all_paths = Some(v);
            },
            Err(message) => {
                return Err(message);
            },
        }
    } else if same_text(name, "--limit_trans") {
        match parse_int(label, value) {
            Ok(v) => {
                options.limit_trans = v;
            },
            Err(message) => {
                return Err(message);
            },
        }
    } else {
        options.output_file = Some(owned(value));
    }
    Ok(options)
}

/// Sets a switch that takes no value; `false` if `word` is not one.
fn apply_flag(options: &mut Options, word: &str) -> (result: bool)
    ensures
        match set_flag(options_view(*old(options)), word@) {
            Some(next) => result && options_view(*final(options)) == next,
            None => !result && *final(options) == *old(options),
        },
{
    if same_text(word, "--full") {
        options.full = true;
    } else if same_text(word, "--stats") {
        options.stats = true;
    } else if same_text(word, "-v") || same_text(word, "--verbose") {
        options.verbose = true;
    } else if same_text(word, "--debug") {
        options.debug = true;
    } else if same_text(word, "-S") || same_text(word, "--shortest_path") {
        options.shortest_path = true;
    } else if same_text(word, "-r") || same_text(word, "--reverse") {
        options.reverse = true;
    } else {
        return false;
    }
    true
}

/// Reads the domain-transition tool's command line.
pub fn parse(arguments: Vec<String>) -> (result: Result<ParseAction, String>)
    ensures
        parse_view(result) == parse_from(texts(arguments@), 0, initial_state()),
{
    let ghost args = texts(arguments@);
    let mut options = Options {
        policy: None,
        source: None,
        target: None,
        full: false,
        stats: false,
        verbose: false,
        debug: false,
        shortest_path: false,
        all_paths: None,
        reverse: false,
        limit_trans: 0,
        output_file: None,
        exclude: Vec::new(),
    };
    let mut positional_only = false;
    proof {
        assert(texts(options.exclude@) =~= Seq::<Seq<char>>::empty());
        assert(options_view(options) == initial_state().options);
    }
    let mut index: usize = 0;
    while index < arguments.len()
        invariant
            args == texts(arguments@),
            index <= arguments.len(),
            parse_from(args, 0, initial_state()) == parse_from(args, index as int,
                ParseState { options: options_view(options), positional_only }),
        decreases arguments.len() - index,
    {
        let argument = arguments[index].as_str();
        assert(args[index as int] == argument@);
        let ghost state = ParseState { options: options_view(options), positional_only };
        if positional_only || same_text(argument, "--") {
            if positional_only {
                let ghost before = texts(options.exclude@);
                options.exclude.push(owned(argument));
                assert(texts(options.exclude@) =~= before.push(argument@));
                assert(options_view(options) == excluded(state, argument@).options);
            } else {
                positional_only = true;
            }
            index = index + 1;
        } else {
            match split_equals(argument) {
                Some((name, value)) => {
                    let known = match canonical_option(name.as_str()) {
                        Some(long) => same_text(long, name.as_str()),
                        None => false,
                    };
                    if !known {
                        let mut message = owned("unrecognized arguments: ");
                        push_str(&mut message, argument);
                        return Err(message);
                    }
                    match apply_option(options, name.as_str(), value.as_str(), name.as_str()) {
                        Ok(next) => {
                            options = next;
                        },
                        Err(message) => {
                            return Err(message);
                        },
                    }
                    index = index + 1;
                },
                None => {
                    if same_text(argument, "-h") || same_text(argument, "--help") {
                        return Ok(ParseAction::Help);
                    }
                    if same_text(argument, "--version") {
                        return Ok(ParseAction::Version);
                    }
                    if apply_flag(&mut options, argument) {
                        index = index + 1;
                    } else {
                        match canonical_option(argument) {
                            Some(name) => {
                                let label = label_of(name);
                                if index + 1 >= arguments.len() {
                                    let mut message = owned("argument ");
                                    push_str(&mut message, label);
                                    push_str(&mut message, ": expected one argument");
                                    return Err(message);
                                }
                                assert(args[index + 1] == arguments@[index + 1]@);
                                match apply_option(options, name, arguments[index + 1].as_str(), label) {
                                    Ok(next) => {
                                        options = next;
                                    },
                                    Err(message) => {
                                        return Err(message);
                                    },
                                }
                                index = index + 2;
                            },
                            None => {
                                let text = chars_of(argument);
                                if text.len() > 0 && text[0] == '-' {
                                    let mut message = owned("unrecognized arguments: ");
                                    push_str(&mut message, argument);
                                    return Err(message);
                                }
                                let ghost before = texts(options.exclude@);
                                options.exclude.push(owned(argument));
                                assert(texts(options.exclude@) =~= before.push(argument@));
                                assert(options_view(options) == excluded(state, argument@).options);
                                index = index + 1;
                            },
                        }
                    }
                },
            }
        }
    }
    if options.source.is_none() {
        return Err(owned("the following arguments are required: -s/--source"));
    }
    Ok(ParseAction::Run(options))
}

/// Whether the options ask for a path query with a nonzero depth limit.
pub open spec fn has_all_paths(options: OptionsView) -> bool {
    options.all_paths matches Some(depth) && depth != 0
}

/// The usage error a set of options makes, if any: a path query needs a
/// target and a target needs a path query.
pub open spec fn usage_problem(options: OptionsView) -> Option<Seq<char>> {
    let path_query = options.shortest_path || has_all_paths(options);
    if options.target is None && path_query {
        Some("The target type must be specified to determine a path."@)
    } else if options.target is Some && !path_query {
        Some("An algorithm must be specified to determine a path."@)
    } else {
        None
    }
}

/// Checks that the options make sense together.
pub fn check_usage(options: &Options) -> (result: Result<(), String>)
    ensures
        match usage_problem(options_view(*options)) {
            Some(message) => result matches Err(m) && m@ == message,
            None => result is Ok,
        },
{
    let all_paths = match options.all_paths {
        Some(depth) => depth != 0,
        None => false,
    };
    let path_query = options.shortest_path || all_paths;
    if options.target.is_none() && path_query {
        Err(owned("The target type must be specified to determine a path."))
    } else if options.target.is_some() && !path_query {
        Err(owned("An algorithm must be specified to determine a path."))
    } else {
        Ok(())
    }
}

/// Whether a path query runs backwards.
pub open spec fn reverse_query(options: OptionsView) -> bool {
    (options.shortest_path || has_all_paths(options)) && options.reverse
}

/// Returns whether a path query runs backwards.
pub fn query_reverse(options: &Options) -> (result: bool)
    ensures
        result == reverse_query(options_view(*options)),
{
    let all_paths = match options.all_paths {
        Some(depth) => depth != 0,
        None => false,
    };
    (options.shortest_path || all_paths) && options.reverse
}

} // verus!
