//! The forms of a name.
use crate::utils::text::{chars_of, extend_range, extend_str, string_of};
use vstd::prelude::*;

verus! {

/// What `char::to_uppercase` of the standard library yields for `c`: the
/// characters of its upper-case mapping in Unicode, one or more.
pub uninterp spec fn char_uppercase(c: char) -> Seq<char>;

/// What `str::to_uppercase` of the standard library gives for `s`.
pub uninterp spec fn str_uppercase(s: Seq<char>) -> Seq<char>;

/// `char::to_uppercase` of the standard library, its characters collected
/// in order.
#[verifier::external_body]
fn upper_of_char(c: char) -> (r: Vec<char>)
    ensures
        r@ == char_uppercase(c),
{
    c.to_uppercase().collect()
}

/// `str::to_uppercase` of the standard library.
#[verifier::external_body]
fn upper_of_str(s: &str) -> (r: String)
    ensures
        r@ == str_uppercase(s@),
{
    s.to_uppercase()
}

/// `s` with `initial` in the place of its first character; the empty
/// sequence stays empty.
pub open spec fn with_initial(s: Seq<char>, initial: Seq<char>) -> Seq<char> {
    if s.len() == 0 {
        s
    } else {
        initial + s.skip(1)
    }
}

/// `s` with its first character upper-cased and the rest as it is.
pub open spec fn capitalized(s: Seq<char>) -> Seq<char> {
    if s.len() == 0 {
        s
    } else {
        with_initial(s, char_uppercase(s[0]))
    }
}

/// The collection form of `s`: `s` and the letter `s`.
pub open spec fn pluralized(s: Seq<char>) -> Seq<char> {
    s.push('s')
}

/// Puts `initial` in the place of the first character of `s`. Nothing is
/// put before an empty `s`.
pub fn replace_initial(s: &str, initial: &Vec<char>) -> (r: String)
    ensures
        r@ == with_initial(s@, initial@),
{
    let chars = chars_of(s);
    if chars.len() == 0 {
        return string_of(&chars);
    }
    let mut out: Vec<char> = Vec::new();
    extend_range(&mut out, initial, 0, initial.len());
    extend_range(&mut out, &chars, 1, chars.len());
    assert(out@ =~= with_initial(s@, initial@));
    string_of(&out)
}

/// Upper-cases the first character of `s` and leaves the rest unchanged.
/// No locale is consulted.
pub fn capitalize(s: &str) -> (r: String)
    ensures
        r@ == capitalized(s@),
        s@.len() == 0 ==> r@.len() == 0,
{
    let chars = chars_of(s);
    if chars.len() == 0 {
        return string_of(&chars);
    }
    let initial = upper_of_char(chars[0]);
    replace_initial(s, &initial)
}

/// Upper-cases all of `s`.
pub fn uppercase(s: &str) -> (r: String)
    ensures
        r@ == str_uppercase(s@),
{
    upper_of_str(s)
}

/// The collection form of `s`.
pub fn pluralize(s: &str) -> (r: String)
    ensures
        r@ == pluralized(s@),
{
    let mut out: Vec<char> = Vec::new();
    extend_str(&mut out, s);
    out.push('s');
    string_of(&out)
}

/// The canonical forms of one name.
pub struct Names {
    /// The name as it was given.
    pub identifier: String,
    /// The name with its first character upper-cased.
    pub capitalized: String,
    /// The collection form of the name.
    pub plural: String,
}

/// Derives the canonical forms of `raw`. The name is taken as it is:
/// whether it is an identifier of the generated language is not looked at.
pub fn resolve(raw: &str) -> (names: Names)
    ensures
        names.identifier@ == raw@,
        names.capitalized@ == capitalized(raw@),
        names.plural@ == pluralized(raw@),
{
    Names { identifier: raw.to_owned(), capitalized: capitalize(raw), plural: pluralize(raw) }
}

} // verus!
