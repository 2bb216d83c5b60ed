//! Session and lease identifiers, which the `uuid` crate makes and reads.
use vstd::prelude::*;

verus! {

/// The canonical text of the thread id that `text` spells, or `None` where `text` is no id:
/// what `uuid::Uuid::parse_str` followed by `to_string` gives.
pub uninterp spec fn canonical_thread_id(text: Seq<char>) -> Option<Seq<char>>;

/// Reads a thread id and writes it back in canonical form.
///
/// Trusted: calls `uuid::Uuid::parse_str`, which accepts the simple, hyphenated, URN and braced
/// forms of a UUID, and writes the result with `to_string` (lower-case hyphenated). The result is
/// claimed to be a function of `text` alone, named by `canonical_thread_id`.
#[verifier::external_body]
pub(crate) fn parse_thread_id(text: &str) -> (res: Option<String>)
    ensures
        match res {
            Some(s) => canonical_thread_id(text@) == Some(s@),
            None => canonical_thread_id(text@) is None,
        },
{
    uuid::Uuid::parse_str(text).ok().map(|id| id.to_string())
}

/// A fresh lease for a runtime that opens a mailbox.
///
/// Trusted: calls `uuid::Uuid::now_v7` and writes the id with `to_string`. The id depends on the
/// clock and on random bits, so nothing is claimed of it.
#[verifier::external_body]
pub(crate) fn new_lease() -> (res: String) {
    uuid::Uuid::now_v7().to_string()
}

} // verus!
