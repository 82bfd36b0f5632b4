//! The order in which navigation entries are listed: an alphanumeric
//! comparison in which runs of digits compare by their numeric value, so
//! that `"2"` comes before `"11"`.

use vstd::prelude::*;

verus! {

/// The alphanumeric order: `alphanum_le(a, b)` says that `a` sorts at or
/// before `b`. The order itself is computed by an outside crate; the
/// library relies on it only through `alphanum_le_cmp`.
pub uninterp spec fn alphanum_le(a: Seq<char>, b: Seq<char>) -> bool;

/// Relies on alphanumeric_sort::compare_str: a total comparison of two
/// strings, ordering runs of ASCII digits by numeric value, that depends on
/// the two strings alone. Totality of the comparison gives the second
/// clause, and equal strings compare equal.
#[verifier::external_body]
pub fn alphanum_le_cmp(a: &str, b: &str) -> (r: bool)
    ensures
        r == alphanum_le(a@, b@),
        r || alphanum_le(b@, a@),
        a@ == b@ ==> r,
{
    alphanumeric_sort::compare_str(a, b) != core::cmp::Ordering::Greater
}

} // verus!
