//! The resident-set field of Linux's `/proc/self/statm`.
use vstd::prelude::*;
use crate::text::{words, parse_u64, chars_of, split_words, parse_u64_chars};

verus! {

/// The resident pages a `statm` line reports: its second white-space
/// separated field, read as a `u64`; `None` when it is missing or malformed.
pub open spec fn spec_resident_pages(line: Seq<char>) -> Option<u64> {
    let w = words(line);
    if w.len() >= 2 {
        parse_u64(w[1])
    } else {
        None
    }
}

/// The resident pages a `statm` line reports (see [`spec_resident_pages`]).
pub fn resident_pages(line: &str) -> (r: Option<u64>)
    ensures
        r == spec_resident_pages(line@),
{
    let s = chars_of(line);
    let w = split_words(s.as_slice());
    if w.len() >= 2 {
        parse_u64_chars(w[1].as_slice())
    } else {
        None
    }
}

} // verus!
