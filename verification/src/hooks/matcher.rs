//! The patterns by which hooks pick what they run for.

use vstd::prelude::*;
use crate::hooks::model::HookEventName;
use crate::text::{opt_str, opt_text, same_text};

verus! {

/// What is wrong with a regular expression: the text of the error that
/// `regex::Regex::new` gives, none where it accepts the pattern.
pub uninterp spec fn regex_error(pattern: Seq<char>) -> Option<Seq<char>>;

/// Whether `regex::Regex::is_match` finds the pattern somewhere in the input.
pub uninterp spec fn regex_finds(pattern: Seq<char>, input: Seq<char>) -> bool;

/// Calls `regex::Regex::new`. The result is the text of its error; that the
/// same pattern always gives the same result is all that is claimed.
#[verifier::external_body]
fn pattern_error(pattern: &str) -> (result: Option<String>)
    ensures
        opt_text(result) == regex_error(pattern@),
{
    match regex::Regex::new(pattern) {
        Ok(_) => None,
        Err(error) => Some(error.to_string()),
    }
}

/// Calls `regex::Regex::is_match` for a pattern that compiles. That the same
/// pattern and input always give the same result is all that is claimed.
#[verifier::external_body]
fn compiled_is_match(pattern: &str, input: &str) -> (result: bool)
    requires
        regex_error(pattern@) is None,
    ensures
        result == regex_finds(pattern@, input@),
{
    match regex::Regex::new(pattern) {
        Ok(regex) => regex.is_match(input),
        Err(_) => false,
    }
}

/// A matcher that is no pattern and admits everything: none, an empty one, or
/// a star.
pub open spec fn admits_all(matcher: Option<Seq<char>>) -> bool {
    match matcher {
        Some(matcher) => matcher.len() == 0 || matcher == "*"@,
        None => true,
    }
}

/// A matcher admits an input. Without an input only the matchers that admit
/// everything do.
pub open spec fn admits(matcher: Option<Seq<char>>, input: Option<Seq<char>>) -> bool {
    ||| admits_all(matcher)
    ||| input is Some && regex_error(matcher->0) is None && regex_finds(matcher->0, input->0)
}

/// What is wrong with a matcher: what is wrong with its pattern, if it is one.
pub open spec fn matcher_error(matcher: Seq<char>) -> Option<Seq<char>> {
    if admits_all(Some(matcher)) {
        None
    } else {
        regex_error(matcher)
    }
}

/// Whether a matcher is no pattern and admits everything.
pub fn is_match_all(matcher: Option<&str>) -> (result: bool)
    ensures
        result == admits_all(opt_str(matcher)),
{
    match matcher {
        Some(matcher) => matcher.unicode_len() == 0 || same_text(matcher, "*"),
        None => true,
    }
}

/// What is wrong with a matcher, if anything is.
pub fn validate_matcher_pattern(matcher: &str) -> (result: Result<(), String>)
    ensures
        result is Ok <==> matcher_error(matcher@) is None,
        result matches Err(error) ==> matcher_error(matcher@) == Some(error@),
{
    if is_match_all(Some(matcher)) {
        return Ok(());
    }
    match pattern_error(matcher) {
        Some(error) => Err(error),
        None => Ok(()),
    }
}

/// Whether a matcher admits an input, given whether its pattern compiles and
/// is found in the input.
pub fn admits_given(
    matcher: Option<&str>,
    input: Option<&str>,
    compiles: bool,
    found: bool,
) -> (result: bool)
    ensures
        result == (admits_all(opt_str(matcher)) || (input is Some && compiles && found)),
{
    is_match_all(matcher) || (input.is_some() && compiles && found)
}

/// Whether a matcher admits an input.
pub fn matches_matcher(matcher: Option<&str>, input: Option<&str>) -> (result: bool)
    ensures
        result == admits(opt_str(matcher), opt_str(input)),
{
    match (matcher, input) {
        (Some(pattern), Some(text)) => {
            let compiles = pattern_error(pattern).is_none();
            let found = if compiles {
                compiled_is_match(pattern, text)
            } else {
                false
            };
            admits_given(matcher, input, compiles, found)
        },
        _ => admits_given(matcher, input, false, false),
    }
}

/// The events whose hooks are picked by a matcher.
pub open spec fn uses_matcher(event: HookEventName) -> bool {
    !(event is UserPromptSubmit || event is Stop)
}

/// The matcher that counts for an event: none for events that do not use one.
pub fn matcher_pattern_for_event(event_name: HookEventName, matcher: Option<&str>) -> (result:
    Option<&str>)
    ensures
        result == (if uses_matcher(event_name) {
            matcher
        } else {
            None
        }),
{
    match event_name {
        HookEventName::UserPromptSubmit | HookEventName::Stop => None,
        _ => matcher,
    }
}

/// Without a matcher, or with an empty one or a star, everything is admitted,
/// with or without an input. Any other matcher admits an input exactly where
/// it compiles and is found there, and never the absence of input.
pub proof fn lemma_what_matchers_admit(pattern: Seq<char>, input: Seq<char>)
    ensures
        admits(None, None) && admits(None, Some(input)),
        pattern.len() == 0 || pattern == "*"@ ==> admits(Some(pattern), None) && admits(
            Some(pattern),
            Some(input),
        ),
        pattern.len() > 0 && pattern != "*"@ ==> {
            &&& !admits(Some(pattern), None)
            &&& admits(Some(pattern), Some(input)) <==> regex_error(pattern) is None
                && regex_finds(pattern, input)
        },
{
}

/// A matcher is broken exactly where it is a pattern that does not compile,
/// and what is wrong with it is what is wrong with the pattern. A broken
/// matcher admits nothing.
pub proof fn lemma_broken_matchers(pattern: Seq<char>, input: Option<Seq<char>>)
    ensures
        pattern.len() == 0 || pattern == "*"@ ==> matcher_error(pattern) is None,
        pattern.len() > 0 && pattern != "*"@ ==> matcher_error(pattern) == regex_error(pattern),
        matcher_error(pattern) is Some ==> !admits(Some(pattern), input),
{
}

/// Matchers count for every event but the prompt of a user and the end of a
/// turn.
pub proof fn lemma_events_with_matchers(event: HookEventName)
    ensures
        event is PreToolUse || event is PermissionRequest || event is PostToolUse
            || event is SessionStart || event is PreCompact || event is PostCompact
            || event is AfterCompaction ==> uses_matcher(event),
        event is UserPromptSubmit || event is Stop ==> !uses_matcher(event),
{
}

} // verus!
