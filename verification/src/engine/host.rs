//! The identity of the user the process runs as, read from `id -u`.
use vstd::prelude::*;

use crate::text::{parse_u32, parse_unsigned, str_eq, trim, trimmed};

verus! {

/// The user id that `id -u` printed, or 501 (the first user on macOS) when the output
/// is not a number.
pub open spec fn uid_of(output: Seq<char>) -> nat {
    match parse_unsigned(trim(output), u32::MAX as nat) {
        Some(n) => n,
        None => 501,
    }
}

/// The user id in the output of `id -u`.
pub fn uid_from_output(output: &str) -> (r: u32)
    ensures
        r == uid_of(output@),
{
    let t = trimmed(output);
    match parse_u32(t.as_str()) {
        Some(n) => n,
        None => 501,
    }
}

/// Whether the output of `id -u` names the superuser.
pub fn root_from_output(output: &str) -> (r: bool)
    ensures
        r == (trim(output@) == "0"@),
{
    let t = trimmed(output);
    str_eq(t.as_str(), "0")
}

} // verus!
