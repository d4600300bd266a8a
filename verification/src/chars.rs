//! Unicode classes of characters and lower case, from the standard library. Of
//! the ASCII characters they are written out here.
use vstd::prelude::*;

verus! {

/// An ASCII letter or digit.
pub open spec fn ascii_alphanumeric(c: char) -> bool {
    ('a' <= c && c <= 'z') || ('A' <= c && c <= 'Z') || ('0' <= c && c <= '9')
}

/// An ASCII character in lower case.
pub open spec fn ascii_lower(c: char) -> char {
    if 'A' <= c && c <= 'Z' {
        ((c as u32) + 32) as char
    } else {
        c
    }
}

/// What `char::is_alphanumeric` says of a character.
pub uninterp spec fn unicode_alphanumeric(c: char) -> bool;

/// What `char::is_uppercase` says of a character.
pub uninterp spec fn unicode_uppercase(c: char) -> bool;

/// What `char::is_lowercase` says of a character.
pub uninterp spec fn unicode_lowercase(c: char) -> bool;

/// What `str::to_lowercase` makes of a string.
pub uninterp spec fn lowercase_of(s: Seq<char>) -> Seq<char>;

/// `char::is_alphanumeric`: the Unicode class, which among the ASCII
/// characters holds of the letters and the digits.
#[verifier::external_body]
fn char_is_alphanumeric(c: char) -> (r: bool)
    ensures
        r == unicode_alphanumeric(c),
        (c as u32) < 0x80 ==> r == ascii_alphanumeric(c),
{
    c.is_alphanumeric()
}

/// `char::is_uppercase`: the Unicode property, which among the ASCII
/// characters holds of `A` to `Z`.
#[verifier::external_body]
fn char_is_uppercase(c: char) -> (r: bool)
    ensures
        r == unicode_uppercase(c),
        (c as u32) < 0x80 ==> r == ('A' <= c && c <= 'Z'),
{
    c.is_uppercase()
}

/// `char::is_lowercase`: the Unicode property, which among the ASCII
/// characters holds of `a` to `z`.
#[verifier::external_body]
fn char_is_lowercase(c: char) -> (r: bool)
    ensures
        r == unicode_lowercase(c),
        (c as u32) < 0x80 ==> r == ('a' <= c && c <= 'z'),
{
    c.is_lowercase()
}

/// `str::to_lowercase`: the Unicode mapping, which on an ASCII string changes
/// `A` to `Z` one for one and leaves the rest.
#[verifier::external_body]
fn str_to_lowercase(s: &str) -> (r: String)
    ensures
        r@ == lowercase_of(s@),
        vstd::utf8::is_ascii_chars(s@) ==> r@ == Seq::new(s@.len(), |i: int| ascii_lower(s@[i])),
{
    s.to_lowercase()
}

/// The character is a letter or a digit.
pub open spec fn alphanumeric(c: char) -> bool {
    if (c as u32) < 0x80 {
        ascii_alphanumeric(c)
    } else {
        unicode_alphanumeric(c)
    }
}

/// The character is an upper-case letter.
pub open spec fn upper_case(c: char) -> bool {
    if (c as u32) < 0x80 {
        'A' <= c && c <= 'Z'
    } else {
        unicode_uppercase(c)
    }
}

/// The character is a lower-case letter.
pub open spec fn lower_case(c: char) -> bool {
    if (c as u32) < 0x80 {
        'a' <= c && c <= 'z'
    } else {
        unicode_lowercase(c)
    }
}

/// The text in lower case.
pub open spec fn in_lower_case(s: Seq<char>) -> Seq<char> {
    if vstd::utf8::is_ascii_chars(s) {
        Seq::new(s.len(), |i: int| ascii_lower(s[i]))
    } else {
        lowercase_of(s)
    }
}

/// Whether the character is a letter or a digit.
pub fn is_alphanumeric(c: char) -> (r: bool)
    ensures
        r == alphanumeric(c),
{
    char_is_alphanumeric(c)
}

/// Whether the character is an upper-case letter.
pub fn is_uppercase(c: char) -> (r: bool)
    ensures
        r == upper_case(c),
{
    char_is_uppercase(c)
}

/// Whether the character is a lower-case letter.
pub fn is_lowercase(c: char) -> (r: bool)
    ensures
        r == lower_case(c),
{
    char_is_lowercase(c)
}

/// The text in lower case.
pub fn to_lowercase(s: &str) -> (r: String)
    ensures
        r@ == in_lower_case(s@),
{
    str_to_lowercase(s)
}

/// Among the ASCII characters `A` to `Z` are upper case, `a` to `z` lower case,
/// and both of them and the digits letters or digits. In lower case `A` to `Z`
/// become `a` to `z`, and everything else stays.
pub proof fn law_ascii(s: Seq<char>, i: int)
    requires
        0 <= i < s.len(),
        vstd::utf8::is_ascii_chars(s),
    ensures
        upper_case(s[i]) <==> 'A' <= s[i] <= 'Z',
        lower_case(s[i]) <==> 'a' <= s[i] <= 'z',
        alphanumeric(s[i]) <==> 'A' <= s[i] <= 'Z' || 'a' <= s[i] <= 'z' || '0' <= s[i] <= '9',
        in_lower_case(s).len() == s.len(),
        !('A' <= s[i] <= 'Z') ==> in_lower_case(s)[i] == s[i],
        'A' <= s[i] <= 'Z' ==> in_lower_case(s)[i] as u32 == s[i] as u32 + 32,
{
    assert(s[i] as u32 <= 0x7f);
}

} // verus!
