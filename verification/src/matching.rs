//! Regular-expression matching, done by the `regex` crate, and what the two
//! expressions of the scanner accept.
use vstd::prelude::*;
use crate::text::{all_digits, digits_value};

verus! {

/// What compiling `pattern` with `regex::Regex::new` and asking
/// `Regex::is_match` about `haystack` gives: `None` when the pattern does
/// not compile, else whether the expression matches somewhere in `haystack`.
pub uninterp spec fn regex_matches(pattern: Seq<char>, haystack: Seq<char>) -> Option<bool>;

/// The expression a port must match: one or more digits, nothing else.
pub open spec fn digits_pattern() -> Seq<char> {
    "^\\d+$"@
}

/// The expression an address must match: four dot-separated numbers from
/// 0 to 255.
pub open spec fn dotted_quad_pattern() -> Seq<char> {
    "^(25[0-5]|2[0-4][0-9]|[01]?[0-9][0-9]?)\\.(25[0-5]|2[0-4][0-9]|[01]?[0-9][0-9]?)\\.(25[0-5]|2[0-4][0-9]|[01]?[0-9][0-9]?)\\.(25[0-5]|2[0-4][0-9]|[01]?[0-9][0-9]?)$"@
}

/// One part of a dotted address: one to three ASCII digits whose value is
/// at most 255. These are exactly the texts that
/// `25[0-5]|2[0-4][0-9]|[01]?[0-9][0-9]?` matches as a whole.
pub open spec fn octet_text(g: Seq<char>) -> bool {
    &&& 1 <= g.len() <= 3
    &&& all_digits(g)
    &&& digits_value(g) <= 255
}

/// `s` is four parts of a dotted address joined by dots.
#[verifier::opaque]
pub open spec fn dotted_quad(s: Seq<char>) -> bool {
    exists|a: Seq<char>, b: Seq<char>, c: Seq<char>, d: Seq<char>|
        #![trigger octet_text(a), octet_text(b), octet_text(c), octet_text(d)]
        octet_text(a) && octet_text(b) && octet_text(c) && octet_text(d) && s == a + seq!['.'] + b
            + seq!['.'] + c + seq!['.'] + d
}

/// Compiles `pattern` with `regex::Regex::new` and, when that succeeds,
/// asks `Regex::is_match` whether it matches `haystack`.
///
/// In general the answer is only named (`regex_matches`): what a regular
/// expression matches is the `regex` crate's own definition. For the two
/// expressions of the scanner the contract states what the crate's syntax
/// documentation gives: both compile; `^` and `$` anchor at the start and
/// the end of the text; `\d` is a Unicode decimal digit, so it takes every
/// ASCII digit and never `+`; `[0-9]` is an ASCII digit and `\.` a dot.
/// For `^\d+$` it is left unsaid which non-ASCII characters count as digits.
#[verifier::external_body]
pub(crate) fn regex_is_match(pattern: &str, haystack: &str) -> (r: Option<bool>)
    ensures
        r == regex_matches(pattern@, haystack@),
        pattern@ == digits_pattern() ==> r is Some,
        pattern@ == digits_pattern() && haystack@.len() > 0 && all_digits(haystack@) ==> r
            == Some(true),
        pattern@ == digits_pattern() && r == Some(true) ==> haystack@.len() > 0
            && !haystack@.contains('+'),
        pattern@ == dotted_quad_pattern() ==> r == Some(dotted_quad(haystack@)),
{
    match regex::Regex::new(pattern) {
        Ok(re) => Some(re.is_match(haystack)),
        Err(_) => None,
    }
}

} // verus!
