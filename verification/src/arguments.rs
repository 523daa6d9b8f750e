//! The command line of the policy checker: a configuration file, an
//! optional policy, and a few switches.
use vstd::prelude::*;
use crate::text::{same_text, owned, push_str, push_char, chars_of, string_of};

verus! {

/// The checker's settings.
#[derive(Debug)]
pub struct Options {
    /// The checker configuration file.
    pub config: Option<String>,
    /// The policy file; the running policy when absent.
    pub policy: Option<String>,
    /// Where to write the report; standard output when absent.
    pub output_file: Option<String>,
    /// Whether to write JSON.
    pub json: bool,
    /// Whether to log informational messages.
    pub verbose: bool,
    /// Whether to log debugging messages.
    pub debug: bool,
}

/// What the command line asks for.
#[derive(Debug)]
pub enum ParseAction {
    /// Run the checks.
    Run(Options),
    /// Show the help text.
    Help,
    /// Show the version.
    Version,
}

/// The settings as plain values.
pub struct OptionsView {
    /// The checker configuration file.
    pub config: Option<Seq<char>>,
    /// The policy file.
    pub policy: Option<Seq<char>>,
    /// The report file.
    pub output_file: Option<Seq<char>>,
    /// Whether to write JSON.
    pub json: bool,
    /// Whether to log informational messages.
    pub verbose: bool,
    /// Whether to log debugging messages.
    pub debug: bool,
}

/// An optional text as plain values.
pub open spec fn text_view(value: Option<String>) -> Option<Seq<char>> {
    match value {
        Some(s) => Some(s@),
        None => None,
    }
}

/// The plain values of the settings.
pub open spec fn options_view(options: Options) -> OptionsView {
    OptionsView {
        config: text_view(options.config),
        policy: text_view(options.policy),
        output_file: text_view(options.output_file),
        json: options.json,
        verbose: options.verbose,
        debug: options.debug,
    }
}

/// What the command line asks for, as plain values.
pub enum ActionView {
    /// Run the checks.
    Run(OptionsView),
    /// Show the help text.
    Help,
    /// Show the version.
    Version,
}

/// The plain values of an action.
pub open spec fn action_view(action: ParseAction) -> ActionView {
    match action {
        ParseAction::Run(options) => ActionView::Run(options_view(options)),
        ParseAction::Help => ActionView::Help,
        ParseAction::Version => ActionView::Version,
    }
}

/// The parser's state between arguments.
pub struct ParseState {
    /// The settings so far.
    pub options: OptionsView,
    /// Whether `--` has been seen.
    pub positional_only: bool,
    /// Options that were not recognized, in order.
    pub unrecognized: Seq<Seq<char>>,
}

/// The words joined by single spaces.
pub open spec fn joined(words: Seq<Seq<char>>) -> Seq<char>
    decreases words.len(),
{
    if words.len() == 0 {
        Seq::empty()
    } else if words.len() == 1 {
        words[0]
    } else {
        joined(words.drop_last()) + seq![' '] + words.last()
    }
}

/// A positional argument names the configuration, then the policy; a third
/// is refused.
pub open spec fn positional(state: ParseState, value: Seq<char>) -> Result<ParseState, Seq<char>> {
    if state.options.config is None {
        Ok(ParseState { options: OptionsView { config: Some(value), ..state.options }, ..state })
    } else if state.options.policy is None {
        Ok(ParseState { options: OptionsView { policy: Some(value), ..state.options }, ..state })
    } else {
        Err("unrecognized arguments: "@ + value)
    }
}

/// The message for an output-file option without a value.
pub open spec fn missing_output() -> Seq<char> {
    "argument -o/--output_file: expected one argument"@
}

/// The prefix of the joined output-file option.
pub open spec fn output_prefix() -> Seq<char> {
    "--output_file="@
}

/// What the command line asks for, reading from argument `i` on in the
/// given state.
pub open spec fn parse_from(arguments: Seq<Seq<char>>, i: int, state: ParseState) -> Result<ActionView, Seq<char>>
    decreases arguments.len() - i,
{
    if i < 0 || i >= arguments.len() {
        if state.options.config is None {
            Err("the following arguments are required: config"@)
        } else if state.unrecognized.len() > 0 {
            Err("unrecognized arguments: "@ + joined(state.unrecognized))
        } else {
            Ok(ActionView::Run(state.options))
        }
    } else {
        let a = arguments[i];
        if state.positional_only {
            match positional(state, a) {
                Ok(next) => parse_from(arguments, i + 1, next),
                Err(message) => Err(message),
            }
        } else if a == "--"@ {
            parse_from(arguments, i + 1, ParseState { positional_only: true, ..state })
        } else if a == "-h"@ || a == "--help"@ {
            Ok(ActionView::Help)
        } else if a == "--version"@ {
            Ok(ActionView::Version)
        } else if a == "--json"@ {
            parse_from(arguments, i + 1, ParseState { options: OptionsView { json: true, ..state.options }, ..state })
        } else if a == "-v"@ || a == "--verbose"@ {
            parse_from(arguments, i + 1, ParseState { options: OptionsView { verbose: true, ..state.options }, ..state })
        } else if a == "--debug"@ {
            parse_from(arguments, i + 1, ParseState { options: OptionsView { debug: true, ..state.options }, ..state })
        } else if a == "-o"@ || a == "--output_file"@ {
            if i + 1 < arguments.len() {
                parse_from(arguments, i + 2, ParseState {
                    options: OptionsView { output_file: Some(arguments[i + 1]), ..state.options },
                    ..state
                })
            } else {
                Err(missing_output())
            }
        } else if a.len() >= output_prefix().len() && a.take(output_prefix().len() as int) == output_prefix() {
            let value = a.skip(output_prefix().len() as int);
            if value.len() == 0 {
                Err(missing_output())
            } else {
                parse_from(arguments, i + 1, ParseState {
                    options: OptionsView { output_file: Some(value), ..state.options },
                    ..state
                })
            }
        } else if a.len() > 0 && a[0] == '-' {
            parse_from(arguments, i + 1, ParseState { unrecognized: state.unrecognized.push(a), ..state })
        } else {
            match positional(state, a) {
                Ok(next) => parse_from(arguments, i + 1, next),
                Err(message) => Err(message),
            }
        }
    }
}

/// The state before any argument.
pub open spec fn initial_state() -> ParseState {
    ParseState {
        options: OptionsView { config: None, policy: None, output_file: None, json: false, verbose: false, debug: false },
        positional_only: false,
        unrecognized: Seq::empty(),
    }
}

/// The plain value of a parse result.
pub open spec fn parse_view(result: Result<ParseAction, String>) -> Result<ActionView, Seq<char>> {
    match result {
        Ok(action) => Ok(action_view(action)),
        Err(message) => Err(message@),
    }
}

/// Joins words with single spaces.
fn join_words(words: &Vec<String>) -> (result: String)
    ensures
        result@ == joined(crate::text::texts(words@)),
{
    let ghost all = crate::text::texts(words@);
    let mut result = String::new();
    let mut index: usize = 0;
    assert(all.take(0) =~= Seq::<Seq<char>>::empty());
    while index < words.len()
        invariant
            all == crate::text::texts(words@),
            index <= words.len(),
            result@ == joined(all.take(index as int)),
        decreases words.len() - index,
    {
        if index > 0 {
            push_char(&mut result, ' ');
        }
        push_str(&mut result, words[index].as_str());
        proof {
            let next = all.take(index + 1);
            assert(next.drop_last() =~= all.take(index as int));
            assert(next.last() == words@[index as int]@);
            if index == 0 {
                assert(result@ =~= joined(next));
            } else {
                assert(result@ =~= joined(next));
            }
        }
        index = index + 1;
    }
    assert(all.take(words.len() as int) =~= all);
    result
}

/// Copies an optional text.
pub(crate) fn copy_text(value: &Option<String>) -> (result: Option<String>)
    ensures
        text_view(result) == text_view(*value),
{
    match value {
        Some(s) => Some(owned(s.as_str())),
        None => None,
    }
}

/// Whether a text begins with a prefix, and what follows it.
fn after_prefix(text: &str, prefix: &str) -> (result: Option<String>)
    ensures
        match result {
            Some(rest) => text@.len() >= prefix@.len() && text@.take(prefix@.len() as int) == prefix@
                && rest@ == text@.skip(prefix@.len() as int),
            None => !(text@.len() >= prefix@.len() && text@.take(prefix@.len() as int) == prefix@),
        },
{
    let t = chars_of(text);
    let p = chars_of(prefix);
    if t.len() < p.len() {
        return None;
    }
    let mut index: usize = 0;
    while index < p.len()
        invariant
            t@ == text@,
            p@ == prefix@,
            p.len() <= t.len(),
            index <= p.len(),
            forall|k: int| 0 <= k < index ==> t@[k] == p@[k],
        decreases p.len() - index,
    {
        if t[index] != p[index] {
            assert(text@.take(prefix@.len() as int)[index as int] != prefix@[index as int]);
            return None;
        }
        index = index + 1;
    }
    assert(text@.take(prefix@.len() as int) =~= prefix@);
    let mut rest: Vec<char> = Vec::new();
    let mut k: usize = p.len();
    while k < t.len()
        invariant
            t@ == text@,
            p.len() <= k <= t.len(),
            rest@ == t@.subrange(p.len() as int, k as int),
        decreases t.len() - k,
    {
        rest.push(t[k]);
        k = k + 1;
        assert(rest@ =~= t@.subrange(p.len() as int, k as int));
    }
    assert(rest@ =~= text@.skip(prefix@.len() as int));
    Some(string_of(&rest))
}

/// Reads the checker's command line.
pub fn parse(arguments: Vec<String>) -> (result: Result<ParseAction, String>)
    ensures
        parse_view(result) == parse_from(crate::text::texts(arguments@), 0, initial_state()),
{
    let ghost args = crate::text::texts(arguments@);
    let mut options = Options { config: None, policy: None, output_file: None, json: false, verbose: false, debug: false };
    let mut positional_only = false;
    let mut unrecognized: Vec<String> = Vec::new();
    let mut index: usize = 0;
    assert(crate::text::texts(unrecognized@) =~= Seq::<Seq<char>>::empty());
    assert(options_view(options) == initial_state().options);
    while index < arguments.len()
        invariant
            args == crate::text::texts(arguments@),
            index <= arguments.len(),
            parse_from(args, 0, initial_state()) == parse_from(args, index as int, ParseState {
                options: options_view(options),
                positional_only,
                unrecognized: crate::text::texts(unrecognized@),
            }),
        decreases arguments.len() - index,
    {
        let ghost state = ParseState {
            options: options_view(options),
            positional_only,
            unrecognized: crate::text::texts(unrecognized@),
        };
        let argument = arguments[index].as_str();
        assert(args[index as int] == argument@);
        let mut step: usize = 1;
        if positional_only {
            if options.config.is_none() {
                options.config = Some(owned(argument));
            } else if options.policy.is_none() {
                options.policy = Some(owned(argument));
            } else {
                let mut message = owned("unrecognized arguments: ");
                push_str(&mut message, argument);
                return Err(message);
            }
        } else if same_text(argument, "--") {
            positional_only = true;
        } else if same_text(argument, "-h") || same_text(argument, "--help") {
            return Ok(ParseAction::Help);
        } else if same_text(argument, "--version") {
            return Ok(ParseAction::Version);
        } else if same_text(argument, "--json") {
            options.json = true;
        } else if same_text(argument, "-v") || same_text(argument, "--verbose") {
            options.verbose = true;
        } else if same_text(argument, "--debug") {
            options.debug = true;
        } else if same_text(argument, "-o") || same_text(argument, "--output_file") {
            if index + 1 < arguments.len() {
                assert(args[index + 1] == arguments@[index + 1]@);
                options.output_file = Some(owned(arguments[index + 1].as_str()));
                step = 2;
            } else {
                return Err(owned("argument -o/--output_file: expected one argument"));
            }
        } else {
            match after_prefix(argument, "--output_file=") {
                Some(value) => {
                    if value.unicode_len() == 0 {
                        return Err(owned("argument -o/--output_file: expected one argument"));
                    }
                    options.output_file = Some(value);
                },
                None => {
                    let text = chars_of(argument);
                    if text.len() > 0 && text[0] == '-' {
                        let ghost before = crate::text::texts(unrecognized@);
                        unrecognized.push(owned(argument));
                        assert(crate::text::texts(unrecognized@) =~= before.push(argument@));
                    } else if options.config.is_none() {
                        options.config = Some(owned(argument));
                    } else if options.policy.is_none() {
                        options.policy = Some(owned(argument));
                    } else {
                        let mut message = owned("unrecognized arguments: ");
                        push_str(&mut message, argument);
                        return Err(message);
                    }
                },
            }
        }
        index = index + step;
    }
    if options.config.is_none() {
        return Err(owned("the following arguments are required: config"));
    }
    if unrecognized.len() > 0 {
        let mut message = owned("unrecognized arguments: ");
        let words = join_words(&unrecognized);
        push_str(&mut message, words.as_str());
        return Err(message);
    }
    Ok(ParseAction::Run(options))
}

} // verus!
