//! Decisions about raw input lines: the sentinel that ends the interactive
//! read loop, and which batch-file lines give rise to a lookup.

use vstd::prelude::*;

use crate::text::{eq_ignore_ascii_case, eq_ignore_case, trim_of, trimmed};

verus! {

/// Whether an interactive entry, trimmed, is the sentinel that ends the
/// read loop, compared without regard to ASCII letter case.
pub fn is_done_token(entry: &str) -> (r: bool)
    ensures
        r == eq_ignore_case(trim_of(entry@), "done"@),
{
    let t = trimmed(entry);
    eq_ignore_ascii_case(t, "done")
}

/// Prepares one line of batch input: trimmed of surrounding whitespace, and
/// dropped entirely when nothing remains, so blank and whitespace-only
/// lines give rise to no lookup.
pub fn prepare_batch_line(line: &str) -> (r: Option<String>)
    ensures
        match r {
            Some(p) => p@ == trim_of(line@) && p@.len() > 0,
            None => trim_of(line@).len() == 0,
        },
{
    let t = trimmed(line);
    if t.unicode_len() == 0 {
        None
    } else {
        Some(t.to_owned())
    }
}

} // verus!
