//! Filling the placeholders of a page template.
//!
//! A placeholder is `{{ $name }}`, with any white space, or none, inside the
//! braces. The search and the replacement are done by the `regex` crate.

use vstd::prelude::*;
use vstd::string::StringExecFns;
use crate::text::chars_of;

verus! {

/// Whether `Regex::new` of the `regex` crate takes the pattern.
pub uninterp spec fn regex_compiles(pattern: Seq<char>) -> bool;

/// What `Regex::replace_all` of the `regex` crate returns for the regex of
/// the pattern, a text to search and a replacement text.
pub uninterp spec fn regex_replaced(
    pattern: Seq<char>,
    haystack: Seq<char>,
    replacement: Seq<char>,
) -> Seq<char>;

/// The error of the `regex` crate for a pattern that it does not take.
#[verifier::external_type_specification]
#[verifier::external_body]
pub struct ExRegexError(regex::Error);

/// Compiles `pattern` with `Regex::new` and, where that succeeds, replaces
/// with `Regex::replace_all` every match in `haystack` by `replacement`, in
/// which `$` has the meaning that the `regex` crate gives it. Where the
/// pattern is not taken, the result is the error of `Regex::new`.
///
/// Believed of the crate, not proved: whether the pattern is taken depends
/// on the pattern alone, and the text that comes back on the pattern, the
/// text to search and the replacement alone.
#[verifier::external_body]
fn replace_all(pattern: &str, haystack: &str, replacement: &str) -> (replaced: Result<
    String,
    regex::Error,
>)
    ensures
        replaced is Ok <==> regex_compiles(pattern@),
        replaced matches Ok(text) ==> text@ == regex_replaced(pattern@, haystack@, replacement@),
{
    match regex::Regex::new(pattern) {
        Ok(re) => Ok(re.replace_all(haystack, replacement).into_owned()),
        Err(error) => Err(error),
    }
}

/// Why a placeholder was not filled.
#[derive(Debug, PartialEq, Eq, Clone, Copy)]
pub enum CompactError {
    /// The name makes no pattern that the `regex` crate takes.
    Name,
}

impl CompactError {
    /// The words for this error.
    pub fn message(&self) -> (text: &'static str)
        ensures
            text@ == "the name of the placeholder makes no pattern"@,
    {
        "the name of the placeholder makes no pattern"
    }
}

/// The pattern that finds the placeholder of a name: two opening braces,
/// white space, `$` and the name, white space, two closing braces.
pub open spec fn placeholder(name: Seq<char>) -> Seq<char> {
    "\\{\\{\\s*\\$"@ + name + "\\s*\\}\\}"@
}

/// What is written for one character of a value: `$$` for `$`, so that the
/// replacement gives `$` itself, and the character for any other.
pub open spec fn escaped_char(c: char) -> Seq<char> {
    if c == '$' {
        seq!['$', '$']
    } else {
        seq![c]
    }
}

/// A value with each `$` doubled.
pub open spec fn escaped(value: Seq<char>) -> Seq<char>
    decreases value.len(),
{
    if value.len() == 0 {
        Seq::empty()
    } else {
        escaped(value.drop_last()) + escaped_char(value.last())
    }
}

/// The pattern that finds the placeholder of `name`.
pub fn placeholder_pattern(name: &str) -> (pattern: String)
    ensures
        pattern@ == placeholder(name@),
{
    let mut pattern = String::from_str("\\{\\{\\s*\\$");
    pattern.append(name);
    pattern.append("\\s*\\}\\}");
    pattern
}

/// Doubles each `$` of a value.
pub fn escape_dollars(value: &str) -> (text: String)
    ensures
        text@ == escaped(value@),
{
    let chars = chars_of(value);
    let mut text = String::new();
    let mut i: usize = 0;
    while i < chars.len()
        invariant
            i <= chars.len(),
            chars@ == value@,
            text@ == escaped(value@.take(i as int)),
        decreases chars.len() - i,
    {
        proof {
            assert(value@.take(i + 1).drop_last() =~= value@.take(i as int));
        }
        let ghost before = text@;
        if chars[i] == '$' {
            text.push('$');
            text.push('$');
            assert(text@ =~= before + seq!['$', '$']);
        } else {
            text.push(chars[i]);
            assert(text@ =~= before + seq![chars@[i as int]]);
        }
        i += 1;
    }
    assert(value@.take(chars.len() as int) =~= value@);
    text
}

/// Fills the placeholders of `name` in `content` with `value`.
///
/// Every `{{ $name }}` is replaced by the value as it is: each `$` of the
/// value is doubled first, so that the replacement takes it for itself. A
/// name that makes no pattern which the `regex` crate takes is an error.
pub fn compact(content: &str, name: &str, value: &str) -> (filled: Result<String, CompactError>)
    ensures
        filled is Ok <==> regex_compiles(placeholder(name@)),
        filled matches Ok(text) ==> text@ == regex_replaced(
            placeholder(name@),
            content@,
            escaped(value@),
        ),
{
    let pattern = placeholder_pattern(name);
    let replacement = escape_dollars(value);
    match replace_all(pattern.as_str(), content, replacement.as_str()) {
        Ok(text) => Ok(text),
        Err(_) => Err(CompactError::Name),
    }
}

} // verus!
