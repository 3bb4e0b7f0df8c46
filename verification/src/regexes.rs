//! Regular-expression support.
//!
//! Compilation and matching are done by the outside regex engine.  What the
//! engine decides is given names (`regex_valid`, `regex_matches`, ...) that
//! the filter and template contracts are stated over; a `CompiledRegex`
//! value always carries the pattern it was compiled from, so those names can
//! be applied to it.

use vstd::prelude::*;

verus! {

#[verifier::external_type_specification]
#[verifier::external_body]
pub struct ExRegex(regex::Regex);

/// Whether the outside regex engine accepts the pattern.
pub uninterp spec fn regex_valid(pattern: Seq<char>) -> bool;

/// Whether the pattern matches anywhere in the text, as the engine decides
/// it.  A function of pattern and text alone.
pub uninterp spec fn regex_matches(pattern: Seq<char>, text: Seq<char>) -> bool;

/// The text of the capture group with the given index in the leftmost match,
/// if the pattern matches and the group participates.
pub uninterp spec fn regex_capture_of(pattern: Seq<char>, text: Seq<char>, group: int) -> Option<
    Seq<char>,
>;

/// The text with every non-overlapping match replaced by the replacement
/// (which may name capture groups).
pub uninterp spec fn regex_replaced(
    pattern: Seq<char>,
    text: Seq<char>,
    replacement: Seq<char>,
) -> Seq<char>;

/// A compiled regular expression together with the pattern it came from.
/// Values are only ever built by [`regex_compile`], so the compiled engine
/// state always belongs to the stored pattern.
#[derive(Debug)]
pub struct CompiledRegex {
    pattern: String,
    compiled: regex::Regex,
}

impl CompiledRegex {
    /// The pattern this value was compiled from.
    pub closed spec fn pattern_view(self) -> Seq<char> {
        self.pattern@
    }
}

/// Relies on regex::Regex::new: compilation succeeds exactly when the engine
/// accepts the pattern; the error text is not interpreted.
#[verifier::external_body]
pub fn regex_compile(pattern: &str) -> (r: Result<CompiledRegex, String>)
    ensures
        r is Ok <==> regex_valid(pattern@),
        (r matches Ok(c) ==> c.pattern_view() == pattern@),
{
    match regex::Regex::new(pattern) {
        Ok(compiled) => Ok(CompiledRegex { pattern: pattern.to_string(), compiled }),
        Err(e) => Err(e.to_string()),
    }
}

/// Relies on regex::Regex::is_match: reports whether the pattern matches
/// anywhere in the text.
#[verifier::external_body]
pub fn regex_is_match(re: &CompiledRegex, text: &str) -> (r: bool)
    ensures
        r == regex_matches(re.pattern_view(), text@),
{
    re.compiled.is_match(text)
}

/// Relies on regex::Regex::captures and Captures::get: the text of the
/// requested capture group in the leftmost match, if any.
#[verifier::external_body]
pub fn regex_capture_group(re: &CompiledRegex, text: &str, group: usize) -> (r: Option<String>)
    ensures
        (r matches Some(s) ==> regex_capture_of(re.pattern_view(), text@, group as int) == Some(
            s@,
        )),
        r is None ==> regex_capture_of(re.pattern_view(), text@, group as int) is None,
{
    re.compiled.captures(text).and_then(|caps| caps.get(group)).map(|m| m.as_str().to_string())
}

/// Relies on regex::Regex::replace_all: every non-overlapping match replaced
/// by the replacement, with `$n` naming capture groups.
#[verifier::external_body]
pub fn regex_replace_all(re: &CompiledRegex, text: &str, replacement: &str) -> (r: String)
    ensures
        r@ == regex_replaced(re.pattern_view(), text@, replacement@),
{
    re.compiled.replace_all(text, replacement).to_string()
}

/// Compile the pattern and test the value against it, as the template test
/// `matches` does.
pub fn match_str(value: &str, pattern: &str) -> (r: Result<bool, String>)
    ensures
        r is Ok <==> regex_valid(pattern@),
        (r matches Ok(b) ==> b == regex_matches(pattern@, value@)),
{
    match regex_compile(pattern) {
        Ok(re) => Ok(regex_is_match(&re, value)),
        Err(e) => Err(e),
    }
}

/// Compile the pattern and extract a capture group, as the template filter
/// `capture` does; the group index defaults to the whole match.
pub fn capture_str(value: &str, pattern: &str, group: Option<usize>) -> (r: Result<
    Option<String>,
    String,
>)
    ensures
        r is Ok <==> regex_valid(pattern@),
        (r matches Ok(c) ==> {
            let g = group.unwrap_or(0) as int;
            match c {
                Option::Some(s) => regex_capture_of(pattern@, value@, g) == Some(s@),
                Option::None => regex_capture_of(pattern@, value@, g) is None,
            }
        }),
{
    match regex_compile(pattern) {
        Ok(re) => {
            let g = match group {
                Option::Some(i) => i,
                Option::None => 0,
            };
            Ok(regex_capture_group(&re, value, g))
        },
        Err(e) => Err(e),
    }
}

/// Compile the pattern and replace every match, as the template filter
/// `regex_replace` does.
pub fn replace_str(value: &str, pattern: &str, replacement: &str) -> (r: Result<String, String>)
    ensures
        r is Ok <==> regex_valid(pattern@),
        (r matches Ok(s) ==> s@ == regex_replaced(pattern@, value@, replacement@)),
{
    match regex_compile(pattern) {
        Ok(re) => Ok(regex_replace_all(&re, value, replacement)),
        Err(e) => Err(e),
    }
}

} // verus!
