//! Regular expressions, run by the `regex` crate.
use vstd::prelude::*;

use crate::text;

verus! {

/// A compiled regular expression, `regex::Regex`.
#[verifier::external_type_specification]
#[verifier::external_body]
pub struct ExRegex(regex::Regex);

/// What `regex::Regex::new` makes of a pattern; nothing for a pattern that it
/// refuses.
pub uninterp spec fn regex_compiled(pattern: Seq<char>) -> Option<regex::Regex>;

/// The byte at which the first match begins that `regex::Regex::find` sees in
/// a text.
pub uninterp spec fn regex_match_start(re: regex::Regex, line: Seq<char>) -> Option<nat>;

/// `regex::Regex::new`: the compiled pattern, or nothing where it is no valid
/// pattern or too large. The outcome depends on the pattern alone.
#[verifier::external_body]
pub(crate) fn compile(pattern: &str) -> (r: Option<regex::Regex>)
    ensures
        r == regex_compiled(pattern@),
{
    regex::Regex::new(pattern).ok()
}

/// `regex::Regex::find`: the byte at which the first match in the text begins,
/// which always stands between two characters or at an end. The outcome
/// depends on the compiled pattern and the text alone.
#[verifier::external_body]
pub(crate) fn match_start(re: &regex::Regex, line: &str) -> (r: Option<usize>)
    ensures
        match r {
            Some(b) => regex_match_start(*re, line@) == Some(b as nat) && text::at_boundary(
                line@,
                b as int,
            ),
            None => regex_match_start(*re, line@) is None,
        },
{
    re.find(line).map(|m| m.start())
}

/// A character with a meaning of its own in a pattern.
pub open spec fn is_meta(c: char) -> bool {
    c == '\\' || c == '.' || c == '+' || c == '*' || c == '?' || c == '(' || c == ')' || c == '|'
        || c == '[' || c == ']' || c == '{' || c == '}' || c == '^' || c == '$' || c == '#' || c
        == '&' || c == '-' || c == '~'
}

/// A text with a backslash before every character that has a meaning of its
/// own in a pattern.
pub open spec fn escaped(s: Seq<char>) -> Seq<char>
    decreases s.len(),
{
    if s.len() == 0 {
        Seq::empty()
    } else {
        let before = escaped(s.drop_last());
        if is_meta(s.last()) {
            before.push('\\').push(s.last())
        } else {
            before.push(s.last())
        }
    }
}

/// `regex::escape`: the text with a backslash before every character that has
/// a meaning of its own in a pattern.
#[verifier::external_body]
pub(crate) fn escape(s: &str) -> (r: String)
    ensures
        r@ == escaped(s@),
{
    regex::escape(s)
}

/// Escaping goes character by character: it puts a backslash before one that has
/// a meaning of its own in a pattern, and leaves letters, digits, spaces and all
/// else as they are.
pub proof fn law_escape(s: Seq<char>, c: char)
    ensures
        escaped(Seq::empty()) == Seq::<char>::empty(),
        c == '.' || c == '*' || c == '+' || c == '?' || c == '(' || c == ')' || c == '[' || c == ']'
            || c == '{' || c == '}' || c == '|' || c == '^' || c == '$' || c == '\\' ==> escaped(
            s.push(c),
        ) == escaped(s) + seq!['\\', c],
        c == ' ' || c == '_' || c == ':' || c == '<' || c == '>' || c == '=' || 'a' <= c <= 'z' || 'A'
            <= c <= 'Z' || '0' <= c <= '9' ==> escaped(s.push(c)) == escaped(s) + seq![c],
{
    assert(s.push(c).drop_last() =~= s);
    assert(escaped(s) + seq!['\\', c] =~= escaped(s).push('\\').push(c));
    assert(escaped(s) + seq![c] =~= escaped(s).push(c));
}

} // verus!
