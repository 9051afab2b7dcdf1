//! What this library takes from the standard library without a proof: the
//! Unicode classification and case mapping of characters, and two plain
//! operations on strings.

use vstd::prelude::*;

verus! {

/// Whether `c` is white space in the sense of `char::is_whitespace`, that is,
/// whether Unicode classes it as `White_Space`.
pub uninterp spec fn is_white_space(c: char) -> bool;

/// The upper-case form of the text `s` in the sense of `str::to_uppercase`.
/// The result may differ from `s` in length.
pub uninterp spec fn uppercase(s: Seq<char>) -> Seq<char>;

/// `char::is_whitespace`. Trusted: the answer depends on the character alone
/// and is the one that [`is_white_space`] names.
pub assume_specification[ char::is_whitespace ](c: char) -> (b: bool)
    ensures
        b == is_white_space(c),
;

/// `str::to_uppercase`. Trusted: the new string depends on the characters of
/// `s` alone and is the one that [`uppercase`] names.
pub assume_specification[ str::to_uppercase ](s: &str) -> (r: String)
    ensures
        r@ == uppercase(s@),
;

/// `String::push`. Trusted: the character is appended at the end and nothing
/// else changes.
pub assume_specification[ String::push ](s: &mut String, c: char)
    ensures
        final(s)@ == old(s)@.push(c),
;

/// Equality of string slices. Trusted: two slices are equal exactly when they
/// hold the same characters in the same order.
pub assume_specification[ <str as PartialEq>::eq ](a: &str, b: &str) -> (r: bool)
    ensures
        r == (a@ == b@),
;

} // verus!
