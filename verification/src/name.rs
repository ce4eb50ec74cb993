//! Display-name validation for the join handshake.
//!
//! A proposed name is accepted when it is non-empty, every character is
//! alphanumeric, and at least one character is alphabetic; a name made of
//! digits alone, or holding punctuation, spaces or symbols, is rejected.

use vstd::prelude::*;

verus! {

/// Whether `char::is_alphabetic` accepts the character.
pub uninterp spec fn is_alpha(c: char) -> bool;

/// Whether `char::is_alphanumeric` accepts the character.
pub uninterp spec fn is_alnum(c: char) -> bool;

/// Relies on char::is_alphabetic: the result depends on the character alone.
#[verifier::external_body]
fn char_alphabetic(c: char) -> (r: bool)
    ensures
        r == is_alpha(c),
{
    c.is_alphabetic()
}

/// Relies on char::is_alphanumeric: the result depends on the character alone.
#[verifier::external_body]
fn char_alphanumeric(c: char) -> (r: bool)
    ensures
        r == is_alnum(c),
{
    c.is_alphanumeric()
}

/// A name is valid when it is non-empty, all of its characters are
/// alphanumeric, and at least one of them is alphabetic.
pub open spec fn valid_name(s: Seq<char>) -> bool {
    &&& s.len() > 0
    &&& forall|i: int| 0 <= i < s.len() ==> is_alnum(#[trigger] s[i])
    &&& exists|i: int| 0 <= i < s.len() && is_alpha(#[trigger] s[i])
}

/// Decides whether a proposed display name may join the room.
pub fn username_valid(input: &String) -> (r: bool)
    ensures
        r == valid_name(input@),
{
    let s = input.as_str();
    let n = s.unicode_len();
    let mut all_alphanumeric = true;
    let mut any_alphabetic = false;
    let mut i: usize = 0;
    while i < n
        invariant
            n == input@.len(),
            0 <= i <= n,
            s@ == input@,
            all_alphanumeric == forall|j: int| 0 <= j < i ==> is_alnum(#[trigger] input@[j]),
            any_alphabetic == exists|j: int| 0 <= j < i && is_alpha(#[trigger] input@[j]),
        decreases n - i,
    {
        let c = s.get_char(i);
        if !char_alphanumeric(c) {
            all_alphanumeric = false;
        }
        if char_alphabetic(c) {
            any_alphabetic = true;
        }
        i = i + 1;
    }
    n > 0 && all_alphanumeric && any_alphabetic
}

} // verus!
