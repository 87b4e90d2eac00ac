//! Calls into the platform that the ledger needs: the clock, the
//! random generator that draws code characters, and two string
//! operations that vstd leaves unspecified.

use vstd::prelude::*;
use rand::Rng;
use crate::db::Timestamp;

verus! {

/// Relies on std::time::SystemTime::now: the current time, returned as
/// whole seconds since the Unix epoch, or 0 should the clock report a
/// moment before the epoch. Nothing is promised of the value: it
/// depends on the machine's clock.
#[verifier::external_body]
pub(crate) fn timestamp_now() -> Timestamp {
    std::time::SystemTime::now().duration_since(std::time::SystemTime::UNIX_EPOCH).map(
        |d| d.as_secs(),
    ).unwrap_or(0)
}

/// Relies on rand::thread_rng and rand::Rng::gen_range: a char drawn
/// from the half-open range '0'..'Z', that is with a code point of at
/// least 0x30 and below 0x5A. The range is never empty, so the call
/// does not panic; which char comes back is random, so no more is
/// promised.
#[verifier::external_body]
pub(crate) fn random_code_char() -> (c: char)
    ensures
        0x30 <= c as u32,
        (c as u32) < 0x5A,
{
    rand::thread_rng().gen_range('0'..'Z')
}

/// Relies on String::push: appends exactly the given char.
#[verifier::external_body]
pub(crate) fn push_char(s: &mut String, c: char)
    ensures
        final(s)@ == old(s)@.push(c),
{
    s.push(c)
}

/// Relies on the PartialEq impl of str: two string slices compare
/// equal exactly when their characters do.
#[verifier::external_body]
pub(crate) fn str_eq(a: &str, b: &str) -> (r: bool)
    ensures
        r == (a@ == b@),
{
    a == b
}

} // verus!
