//! The compiled matcher that recognises sensor input files by name.

use crate::scan::{input_file, input_file_name};
use regex::Regex;
use vstd::prelude::*;
use vstd::string::*;

verus! {

/// A compiled expression of the `regex` crate. Nothing inside it is seen
/// here: it is carried from `compile` to `capture_group`.
#[verifier::external_type_specification]
#[verifier::external_body]
pub struct ExRegex(Regex);

/// Why the `regex` crate did not compile an expression. Nothing inside it
/// is seen here.
#[verifier::external_type_specification]
#[verifier::external_body]
pub struct ExRegexError(regex::Error);

/// The expression text that a matcher keeps: what `regex::Regex::as_str`
/// gives back of it. A builder's options change what a matcher captures and
/// leave this text as it was, so the text alone does not say what a matcher
/// captures.
pub uninterp spec fn compiled_from(matcher: Regex) -> Seq<char>;

/// What `matcher` itself captures in `haystack`: the text of capture group
/// `group` in the leftmost match, and `None` where nothing matches or the
/// group takes no part in the match.
pub uninterp spec fn captured(matcher: Regex, haystack: Seq<char>, group: nat) -> Option<
    Seq<char>,
>;

/// Whether `regex::Regex::new` accepts `pattern`: it is a valid expression
/// and what it compiles to stays within the size that the crate allows.
pub uninterp spec fn compiles(pattern: Seq<char>) -> bool;

/// What a matcher that `regex::Regex::new` compiled from `pattern` captures
/// in `haystack`: the text of capture group `group` in the leftmost match,
/// and `None` where nothing matches or the group takes no part in the match.
/// It depends on the expression and the haystack alone.
pub uninterp spec fn group_text(pattern: Seq<char>, haystack: Seq<char>, group: nat) -> Option<
    Seq<char>,
>;

/// `regex::Regex::new`: compiles `pattern`. Whether it succeeds depends on
/// the pattern alone and goes by the name `compiles`; which patterns those
/// are is not stated. Where it succeeds, the matcher keeps the text of
/// `pattern`, and it is by this call that a matcher captures what
/// `group_text` says of `pattern`.
#[verifier::external_body]
fn compile(pattern: &str) -> (r: Result<Regex, regex::Error>)
    ensures
        r is Ok <==> compiles(pattern@),
        r matches Ok(matcher) ==> compiled_from(matcher) == pattern@,
        r matches Ok(matcher) ==> forall|haystack: Seq<char>, group: nat|
            #[trigger] captured(matcher, haystack, group) == group_text(pattern@, haystack, group),
{
    Regex::new(pattern)
}

/// `regex::Regex::captures`, then `Captures::get` and `Match::as_str`: the
/// text of one capture group in the leftmost match of the matcher in
/// `haystack`. The claim is that this text depends on the matcher, the
/// haystack and the group alone, and so is what the name `captured` stands
/// for; what a matcher matches is not stated.
#[verifier::external_body]
fn capture_group(matcher: &Regex, haystack: &str, group: usize) -> (r: Option<String>)
    ensures
        r.deep_view() == captured(*matcher, haystack@, group as nat),
{
    match matcher.captures(haystack) {
        Some(found) => match found.get(group) {
            Some(part) => Some(part.as_str().to_string()),
            None => None,
        },
        None => None,
    }
}

/// `matcher` captures, in every haystack and for every group, what a matcher
/// that `regex::Regex::new` compiled from `pattern` captures there.
pub open spec fn captures_as(matcher: Regex, pattern: Seq<char>) -> bool {
    forall|haystack: Seq<char>, group: nat|
        #[trigger] captured(matcher, haystack, group) == group_text(pattern, haystack, group)
}

/// The expression for the name of a sensor input file: from its first
/// character to its last the name is `temp`, the sensor index in decimal
/// digits, `_input`.
pub open spec fn sensor_expression() -> Seq<char> {
    "^temp(\\d+)_input$"@
}

/// A matcher compiled once from the sensor expression.
pub struct SensorPattern {
    matcher: Regex,
}

impl SensorPattern {
    /// The matcher was compiled from the sensor expression.
    #[verifier::type_invariant]
    spec fn holds_sensor_expression(&self) -> bool {
        compiled_from(self.matcher) == sensor_expression() && captures_as(
            self.matcher,
            sensor_expression(),
        )
    }

    /// The sensor index that `file_name` holds: what the sensor expression
    /// captures in it, as long as `temp`, that index and `_input` spell the
    /// whole name; `None` for any other name.
    pub open spec fn index_of(file_name: Seq<char>) -> Option<Seq<char>> {
        match group_text(sensor_expression(), file_name, 1) {
            Some(index) => if input_file(index) == file_name {
                Some(index)
            } else {
                None
            },
            None => None,
        }
    }

    /// Compiles the sensor expression and keeps the matcher. There is a
    /// pattern exactly where the `regex` crate accepts the expression, and
    /// it matches by the sensor expression.
    pub fn new() -> (r: Option<SensorPattern>)
        ensures
            r is Some <==> compiles(sensor_expression()),
            r matches Some(pattern) ==> pattern.expression() == sensor_expression(),
    {
        Self::from_compiled(compile("^temp(\\d+)_input$"))
    }

    /// The expression that the pattern's matcher was compiled from.
    pub closed spec fn expression(&self) -> Seq<char> {
        compiled_from(self.matcher)
    }

    /// The pattern holds `matcher`.
    pub closed spec fn holds(&self, matcher: Regex) -> bool {
        self.matcher == matcher
    }

    /// Makes the pattern of what compiling the sensor expression gave: the
    /// pattern that holds the matcher where it gave one, `None` where it gave
    /// an error. The caller owes a matcher that keeps the sensor expression
    /// and captures as one that `regex::Regex::new` compiled from it.
    pub fn from_compiled(outcome: Result<Regex, regex::Error>) -> (r: Option<SensorPattern>)
        requires
            outcome matches Ok(matcher) ==> compiled_from(matcher) == sensor_expression()
                && captures_as(matcher, sensor_expression()),
        ensures
            r is Some <==> outcome is Ok,
            r matches Some(pattern) ==> pattern.holds(outcome->Ok_0) && pattern.expression()
                == sensor_expression(),
    {
        match outcome {
            Ok(matcher) => Some(SensorPattern { matcher }),
            Err(_) => None,
        }
    }

    /// The sensor index that `file_name` holds, if it names a sensor input.
    /// What the matcher captures is taken as the index only where `temp`,
    /// that index and `_input` spell the whole of `file_name`.
    pub fn sensor_index(&self, file_name: &str) -> (r: Option<String>)
        ensures
            r.deep_view() == Self::index_of(file_name@),
    {
        proof {
            use_type_invariant(self);
        }
        match capture_group(&self.matcher, file_name, 1) {
            Some(index) => {
                let spelled = input_file_name(index.as_str());
                let given = String::from_str(file_name);
                if spelled == given {
                    Some(index)
                } else {
                    None
                }
            },
            None => None,
        }
    }
}

} // verus!
