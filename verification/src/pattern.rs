//! Regular expressions, evaluated by the `regex` crate.
//!
//! What a regular expression matches in general is not modelled here: the
//! results of the `regex` crate are named by the uninterpreted functions
//! below, as functions of the pattern text and the searched text. For the
//! fixed patterns that read and strip CX-Manager's own part of a profile, the
//! wrappers state what the regex syntax documentation implies on the texts
//! CX-Manager writes.

use vstd::prelude::*;
use crate::profile::{
    after_line_break, function_header, function_pattern, helper_names, is_ascii_alnum,
    legacy_proxy_line, legacy_roots_text, line_breaks_only, lone_roots_array, line_start, lone_block_text, plain_quoted_value, marked_block_pattern, proxy_assignment,
    proxy_variable, roots_assignment, roots_variable,
    LEGACY_PROXY_PATTERN, LEGACY_ROOTS_PATTERN, MANAGED_BLOCK_END, MANAGED_BLOCK_START,
    PROXY_BLOCK_PATTERN, ROOTS_BLOCK_PATTERN,
};
use crate::text::{contains, is_blank, matches_at, trim_start_either};

verus! {

/// `regex::Regex`, carried opaquely.
#[verifier::external_type_specification]
#[verifier::external_body]
pub struct ExRegex(regex::Regex);

/// Whether `regex::Regex::new(pattern)` succeeds.
pub uninterp spec fn regex_compiles(pattern: Seq<char>) -> bool;

/// What `Regex::is_match` answers for the regex compiled from `pattern`.
pub uninterp spec fn regex_is_match(pattern: Seq<char>, haystack: Seq<char>) -> bool;

/// What `Regex::replace_all` gives for the regex compiled from `pattern`.
pub uninterp spec fn regex_replace_all(
    pattern: Seq<char>,
    haystack: Seq<char>,
    replacement: Seq<char>,
) -> Seq<char>;

/// The text of capture group `group` in the first match of the regex
/// compiled from `pattern`, if there is a match and the group took part in it.
pub uninterp spec fn regex_capture(pattern: Seq<char>, haystack: Seq<char>, group: usize) -> Option<
    Seq<char>,
>;

/// A compiled regular expression together with the pattern it came from.
pub struct CompiledPattern {
    regex: regex::Regex,
    source: Ghost<Seq<char>>,
}

impl View for CompiledPattern {
    type V = Seq<char>;

    closed spec fn view(&self) -> Seq<char> {
        self.source@
    }
}

/// Characters that `regex_syntax::is_meta_character` reports.
pub open spec fn is_regex_meta(c: char) -> bool {
    c == '\\' || c == '.' || c == '+' || c == '*' || c == '?' || c == '(' || c == ')' || c == '|'
        || c == '[' || c == ']' || c == '{' || c == '}' || c == '^' || c == '$' || c == '#' || c
        == '&' || c == '-' || c == '~'
}

/// `regex::escape`: each meta character preceded by a backslash.
pub open spec fn regex_escaped(s: Seq<char>) -> Seq<char>
    decreases s.len(),
{
    if s.len() == 0 {
        seq![]
    } else {
        let c = s.last();
        let head = regex_escaped(s.drop_last());
        if is_regex_meta(c) {
            head.push('\\').push(c)
        } else {
            head.push(c)
        }
    }
}

/// `regex::Regex::new`: `None` when the pattern is rejected. The fixed
/// patterns of the profile, and the function patterns of the terminal
/// helpers, are valid regex syntax well under the size limits, so they are
/// accepted.
#[verifier::external_body]
pub(crate) fn compile_pattern(pattern: &str) -> (r: Option<CompiledPattern>)
    ensures
        r is Some <==> regex_compiles(pattern@),
        pattern@ == marked_block_pattern() || pattern@ == LEGACY_PROXY_PATTERN@ || pattern@
            == LEGACY_ROOTS_PATTERN@ || pattern@ == PROXY_BLOCK_PATTERN@ || pattern@ == ROOTS_BLOCK_PATTERN@
            ==> r is Some,
        forall|name: Seq<char>|
            #![trigger function_pattern(name)]
            helper_names().contains(name) && pattern@ == function_pattern(name) ==> r is Some,
        r matches Some(p) ==> p@ == pattern@,
{
    match regex::Regex::new(pattern) {
        Ok(regex) => Some(CompiledPattern { regex, source: Ghost(pattern@) }),
        Err(_) => None,
    }
}

/// `Regex::is_match`: whether the regex matches anywhere in the haystack.
///
/// What that means for the fixed patterns of the profile (regex syntax
/// documentation: `(?m)^` matches at the start and after each line feed,
/// `\s` matches white space, `(?i)` ignores case, `\b` is a boundary
/// between a word character and a non-word character):
/// - a function pattern `(?im)^\s*function\s+NAME\b` begins every match
///   at a line start with white space and the letter `f`, so replacing the
///   leading carriage returns and line feeds of the haystack by any others
///   does not change the answer, and a match in a suffix that starts a line,
///   with line breaks put before it, is a match in the haystack;
/// - it matches `function NAME ` at a line start when NAME ends in an ASCII
///   letter or digit;
/// - every match holds the letters of `function`, so it never matches a
///   text made of white space only;
/// - the proxy pattern matches the proxy assignment at a line start, and the
///   roots pattern matches the roots assignment followed later by `)`.
#[verifier::external_body]
pub(crate) fn pattern_is_match(pattern: &CompiledPattern, haystack: &str) -> (r: bool)
    ensures
        r == regex_is_match(pattern@, haystack@),
        forall|name: Seq<char>, lead: Seq<char>|
            #![trigger function_pattern(name), line_breaks_only(lead)]
            pattern@ == function_pattern(name) && line_breaks_only(lead) ==> (r == regex_is_match(
                pattern@,
                lead + trim_start_either(haystack@, '\r', '\n'),
            )),
        forall|name: Seq<char>, lead: Seq<char>, k: int|
            #![trigger function_pattern(name), line_breaks_only(lead), haystack@.skip(k)]
            pattern@ == function_pattern(name) && line_breaks_only(lead) && line_start(haystack@, k)
                && regex_is_match(pattern@, lead + haystack@.skip(k)) ==> r,
        forall|name: Seq<char>|
            #![trigger function_pattern(name)]
            pattern@ == function_pattern(name) && is_blank(haystack@) ==> !r,
        forall|name: Seq<char>, i: int|
            #![trigger function_pattern(name), matches_at(haystack@, function_header(name), i)]
            pattern@ == function_pattern(name) && name.len() > 0 && is_ascii_alnum(name.last())
                && line_start(haystack@, i) && matches_at(haystack@, function_header(name), i) ==> r,
        pattern@ == PROXY_BLOCK_PATTERN@ && (exists|i: int|
            line_start(haystack@, i) && matches_at(haystack@, proxy_assignment(), i)) ==> r,
        pattern@ == ROOTS_BLOCK_PATTERN@ && (exists|i: int, k: int|
            matches_at(haystack@, roots_assignment(), i) && i + roots_assignment().len() <= k
                < haystack@.len() && haystack@[k] == ')') ==> r,
{
    pattern.regex.is_match(haystack)
}

/// `Regex::replace_all`, with `replacement` read as a replacement template.
///
/// Its documentation: matches are found leftmost-first and do not overlap,
/// and when there is no match the haystack is returned unchanged. What that
/// means for the fixed patterns of the profile (regex syntax documentation:
/// `(?s)` lets `.` match a line feed, `*?` takes as few as it can, `?` as
/// many as it can):
/// - every match of the legacy proxy and roots patterns contains the
///   variable name they start with, and every match of the marked block
///   pattern contains its start marker; without it there is no match;
/// - in a text that starts with a proxy assignment line
///   `$CX_MANAGER_PROXY_URL = "value"` and a line feed, the value holding
///   no double quote and no backtick, the legacy proxy pattern's first match
///   is that whole line (`\s*` and the quoted alternative, tried first, fit
///   it, and `(?:\r?\n)?` takes the line feed); when the rest holds no
///   proxy variable, there is no other match;
/// - in a text with a project roots array `$CX_MANAGER_PROJECT_ROOTS = @(`
///   ... `)` on lines of its own, its elements holding no `)`, the text
///   before it not ending with a carriage return and neither that text nor
///   the rest naming the roots variable, the legacy roots pattern's only
///   match is the array with the line feed before it (the earliest start)
///   and the one after it (`.*?` stops at the first `)`, and `(?:\r?\n)?`
///   takes the line feed);
/// - in a text made of the start marker, a line feed, a body in which the
///   end marker never follows a line feed, a line feed, the end marker and a
///   rest without the start marker, the only match runs from the start to
///   the end marker and one line break after it, if there is one.
#[verifier::external_body]
pub(crate) fn pattern_replace_all(pattern: &CompiledPattern, haystack: &str, replacement: &str) -> (r:
    String)
    ensures
        r@ == regex_replace_all(pattern@, haystack@, replacement@),
        !regex_is_match(pattern@, haystack@) ==> r@ == haystack@,
        forall|body: Seq<char>, rest: Seq<char>|
            #![trigger lone_block_text(body, rest)]
            pattern@ == marked_block_pattern() && replacement@ == "\n"@ && haystack@ == lone_block_text(
                body,
                rest,
            ) && !contains(body, "\n"@ + MANAGED_BLOCK_END@) && !contains(rest, MANAGED_BLOCK_START@)
                ==> r@ == "\n"@ + after_line_break(rest),
        (pattern@ == marked_block_pattern() && !contains(haystack@, MANAGED_BLOCK_START@)) || (pattern@
            == LEGACY_PROXY_PATTERN@ && !contains(haystack@, proxy_variable())) || (pattern@
            == LEGACY_ROOTS_PATTERN@ && !contains(haystack@, roots_variable())) ==> r@ == haystack@,
        forall|value: Seq<char>, rest: Seq<char>|
            #![trigger legacy_proxy_line(value), contains(rest, proxy_variable())]
            pattern@ == LEGACY_PROXY_PATTERN@ && replacement@ == ""@ && plain_quoted_value(value)
                && haystack@ == legacy_proxy_line(value) + rest && !contains(rest, proxy_variable()) ==> r@
                == rest,
        forall|before: Seq<char>, items: Seq<char>, rest: Seq<char>|
            #![trigger legacy_roots_text(before, items, rest)]
            pattern@ == LEGACY_ROOTS_PATTERN@ && replacement@ == "\n"@ && haystack@ == legacy_roots_text(
                before,
                items,
                rest,
            ) && lone_roots_array(before, items, rest) ==> r@ == before + "\n"@ + rest,
{
    pattern.regex.replace_all(haystack, replacement).into_owned()
}

/// `Regex::captures` followed by `Captures::get(group)`. Its documentation:
/// `captures` finds something exactly when there is a match, and group 0,
/// the whole match, is always present in what it finds.
#[verifier::external_body]
pub(crate) fn pattern_capture(pattern: &CompiledPattern, haystack: &str, group: usize) -> (r: Option<
    String,
>)
    ensures
        match r {
            Some(s) => regex_capture(pattern@, haystack@, group) == Some(s@),
            None => regex_capture(pattern@, haystack@, group) is None,
        },
        group == 0 ==> (r is Some <==> regex_is_match(pattern@, haystack@)),
{
    match pattern.regex.captures(haystack) {
        Some(captures) => match captures.get(group) {
            Some(found) => Some(found.as_str().to_string()),
            None => None,
        },
        None => None,
    }
}

/// `regex::escape`.
#[verifier::external_body]
pub(crate) fn escape_pattern(text: &str) -> (r: String)
    ensures
        r@ == regex_escaped(text@),
{
    regex::escape(text)
}

} // verus!
