//! Entry names and string payloads as terminator-free byte strings.

use cstr_argument::CStrArgument;
use vstd::prelude::*;

verus! {

/// True when no byte of `b` is the terminator byte.
pub open spec fn no_nul(b: Seq<u8>) -> bool {
    forall|i: int| 0 <= i < b.len() ==> b[i] != 0u8
}

/// The text that a byte string stands for: the bytes themselves, less one
/// trailing terminator; nothing where a terminator stands before the last byte.
pub open spec fn text_of(b: Seq<u8>) -> Option<Seq<u8>> {
    if no_nul(b) {
        Some(b)
    } else if no_nul(b.drop_last()) {
        Some(b.drop_last())
    } else {
        None
    }
}

/// Calls `cstr_argument::CStrArgument::try_into_cstr` on a byte slice and copies
/// out the bytes in front of the terminator. That function looks for the first
/// zero byte: with none it keeps every byte, with the first one in the last
/// place it keeps all but that one, and otherwise it reports an error.
#[verifier::external_body]
fn terminated(bytes: &[u8]) -> (r: Option<Vec<u8>>)
    ensures
        r is Some == text_of(bytes@) is Some,
        r is Some ==> r->0@ == text_of(bytes@)->0,
{
    match bytes.try_into_cstr() {
        Ok(c) => Some(c.to_bytes().to_vec()),
        Err(_) => None,
    }
}

/// Checks a name and returns its bytes without terminator.
pub fn checked_text(bytes: &[u8]) -> (r: Option<Vec<u8>>)
    ensures
        r is Some == text_of(bytes@) is Some,
        r is Some ==> r->0@ == text_of(bytes@)->0 && no_nul(r->0@),
{
    terminated(bytes)
}

} // verus!
