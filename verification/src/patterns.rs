//! Compiled patterns. Compiling a pattern and searching a text with it is
//! the work of the `regex` crate; the results are named here, so that the
//! contracts of the library can speak of them.
use vstd::prelude::*;

verus! {

/// `regex::Regex`: a compiled pattern.
#[verifier::external_type_specification]
#[verifier::external_body]
pub struct ExRegex(regex::Regex);

/// The pattern text that a `Regex` was compiled from: what `Regex::as_str`
/// returns.
pub uninterp spec fn regex_source(regex: regex::Regex) -> Seq<char>;

/// Whether `Regex::new` accepts a pattern text.
pub uninterp spec fn pattern_compiles(pattern: Seq<char>) -> bool;

/// Whether the regex that `Regex::new` compiles from `pattern` finds a match
/// anywhere in `text`: what `Regex::is_match` returns.
pub uninterp spec fn pattern_matches(pattern: Seq<char>, text: Seq<char>) -> bool;

/// For each match that the regex compiled by `Regex::new` from `pattern`
/// finds in `text`, going from left to right without overlap, the text that
/// the group `group` captured, if the group took part in the match: what
/// `Regex::captures_iter` yields, each item read with `Captures::get`.
pub uninterp spec fn pattern_captures(pattern: Seq<char>, text: Seq<char>, group: nat) -> Seq<
    Option<Seq<char>>,
>;

/// The characters that mean something in a pattern.
pub open spec fn is_meta_character(c: char) -> bool {
    c == '\\' || c == '.' || c == '+' || c == '*' || c == '?' || c == '(' || c == ')' || c == '|'
        || c == '[' || c == ']' || c == '{' || c == '}' || c == '^' || c == '$' || c == '#' || c
        == '&' || c == '-' || c == '~'
}

/// A text with a backslash put before each of its meta characters, so that
/// as a pattern it matches the text itself.
pub open spec fn escaped_text(text: Seq<char>) -> Seq<char>
    decreases text.len(),
{
    if text.len() == 0 {
        Seq::empty()
    } else if is_meta_character(text.last()) {
        escaped_text(text.drop_last()).push('\\').push(text.last())
    } else {
        escaped_text(text.drop_last()).push(text.last())
    }
}

/// The texts of a list of optional strings.
pub open spec fn optional_texts(found: Seq<Option<String>>) -> Seq<Option<Seq<char>>> {
    Seq::new(
        found.len(),
        |i: int|
            match found[i] {
                Some(text) => Some(text@),
                None => None,
            },
    )
}

/// A pattern that compiled. The only way to one is `CompiledPattern::compile`,
/// so every value of this type holds a regex that `Regex::new` made.
pub struct CompiledPattern {
    regex: regex::Regex,
}

/// `Regex::new`. It accepts the pattern exactly when `pattern_compiles` says
/// so, and the regex then remembers the pattern text.
#[verifier::external_body]
fn compile_regex(pattern: &str) -> (compiled: Result<regex::Regex, regex::Error>)
    ensures
        compiled is Ok <==> pattern_compiles(pattern@),
        compiled is Ok ==> regex_source(compiled->Ok_0) == pattern@,
{
    regex::Regex::new(pattern)
}

/// `Regex::as_str`: the pattern text that the regex was compiled from.
#[verifier::external_body]
fn regex_text(pattern: &CompiledPattern) -> (text: String)
    ensures
        text@ == pattern.source(),
{
    pattern.regex.as_str().to_string()
}

/// `Regex::is_match`, on a regex that `Regex::new` made: whether the pattern
/// matches anywhere in the text.
#[verifier::external_body]
fn regex_is_match(pattern: &CompiledPattern, text: &str) -> (found: bool)
    ensures
        found == pattern_matches(pattern.source(), text@),
{
    pattern.regex.is_match(text)
}

/// `Regex::captures_iter`, on a regex that `Regex::new` made, each item read
/// with `Captures::get`: what the group captured in each match, from left to
/// right.
#[verifier::external_body]
fn regex_captures(pattern: &CompiledPattern, text: &str, group: usize) -> (found: Vec<
    Option<String>,
>)
    ensures
        optional_texts(found@) == pattern_captures(pattern.source(), text@, group as nat),
{
    pattern.regex.captures_iter(text).map(|c| c.get(group).map(|m| m.as_str().to_string())).collect()
}

/// `regex::escape`: it puts a backslash before each meta character and
/// leaves the other characters as they are.
#[verifier::external_body]
fn regex_escape(text: &str) -> (escaped: String)
    ensures
        escaped@ == escaped_text(text@),
{
    regex::escape(text)
}

impl CompiledPattern {
    /// The pattern text that this pattern was compiled from.
    pub closed spec fn source(&self) -> Seq<char> {
        regex_source(self.regex)
    }

    /// Compiles a pattern text.
    pub fn compile(pattern: &str) -> (compiled: Result<CompiledPattern, regex::Error>)
        ensures
            compiled is Ok <==> pattern_compiles(pattern@),
            compiled is Ok ==> compiled->Ok_0.source() == pattern@,
    {
        match compile_regex(pattern) {
            Ok(regex) => Ok(CompiledPattern { regex }),
            Err(error) => Err(error),
        }
    }

    /// The pattern text that this pattern was compiled from.
    pub fn as_str(&self) -> (text: String)
        ensures
            text@ == self.source(),
    {
        regex_text(self)
    }

    /// Whether the pattern matches anywhere in the text.
    pub fn is_match(&self, text: &str) -> (found: bool)
        ensures
            found == pattern_matches(self.source(), text@),
    {
        regex_is_match(self, text)
    }

    /// What the group captured in each match of the pattern in the text,
    /// from left to right.
    pub fn captures(&self, text: &str, group: usize) -> (found: Vec<Option<String>>)
        ensures
            optional_texts(found@) == pattern_captures(self.source(), text@, group as nat),
    {
        regex_captures(self, text, group)
    }
}

/// The text as a pattern that matches the text itself.
pub fn escape(text: &str) -> (escaped: String)
    ensures
        escaped@ == escaped_text(text@),
{
    regex_escape(text)
}

} // verus!
