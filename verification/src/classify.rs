//! Character classification, and the character tests the grammar uses.
//!
//! The Unicode character classes come from the standard library; their exact
//! extent is named by uninterpreted spec functions rather than restated.

use vstd::prelude::*;
use crate::parse::Predicate;

verus! {

/// What `char::is_alphabetic` returns: the result depends on the character alone.
pub uninterp spec fn alphabetic(c: char) -> bool;

/// What `char::is_alphanumeric` returns: the result depends on the character alone.
pub uninterp spec fn alphanumeric(c: char) -> bool;

/// What `char::is_whitespace` returns: the result depends on the character alone.
pub uninterp spec fn whitespace(c: char) -> bool;

/// Relies on `char::is_alphabetic`: true exactly for the Unicode alphabetic characters.
pub assume_specification[ char::is_alphabetic ](c: char) -> (r: bool)
    ensures
        r == alphabetic(c),
;

/// Relies on `char::is_alphanumeric`: true exactly for the Unicode alphanumeric characters.
pub assume_specification[ char::is_alphanumeric ](c: char) -> (r: bool)
    ensures
        r == alphanumeric(c),
;

/// Relies on `char::is_whitespace`: true exactly for the Unicode whitespace characters.
pub assume_specification[ char::is_whitespace ](c: char) -> (r: bool)
    ensures
        r == whitespace(c),
;

/// Accepts exactly the whitespace characters.
pub struct IsWhitespace;

impl Predicate<char> for IsWhitespace {
    open spec fn spec_test(&self, v: char) -> bool {
        whitespace(v)
    }

    fn test(&self, v: &char) -> (r: bool) {
        v.is_whitespace()
    }
}

/// Accepts the characters an identifier may continue with: alphanumeric
/// characters and the hyphen.
pub struct IdentifierChar;

impl Predicate<char> for IdentifierChar {
    open spec fn spec_test(&self, v: char) -> bool {
        alphanumeric(v) || v == '-'
    }

    fn test(&self, v: &char) -> (r: bool) {
        v.is_alphanumeric() || *v == '-'
    }
}

/// Accepts exactly one expected character.
pub struct CharEquals {
    pub expected: char,
}

impl Predicate<char> for CharEquals {
    open spec fn spec_test(&self, v: char) -> bool {
        v == self.expected
    }

    fn test(&self, v: &char) -> (r: bool) {
        *v == self.expected
    }
}

/// Accepts every character but one forbidden one.
pub struct CharDiffers {
    pub forbidden: char,
}

impl Predicate<char> for CharDiffers {
    open spec fn spec_test(&self, v: char) -> bool {
        v != self.forbidden
    }

    fn test(&self, v: &char) -> (r: bool) {
        *v != self.forbidden
    }
}

} // verus!
