//! Reporting: the one human-readable line a lookup produces, with the
//! candidate either shown literally or replaced by a fixed placeholder.

use vstd::prelude::*;

use crate::numbers::{format_grouped, grouped_decimal_of};

verus! {

/// The label a report shows for a candidate: the candidate itself only when
/// revealing was asked for, otherwise a fixed placeholder.
pub open spec fn label_of(candidate: Seq<char>, show: bool) -> Seq<char> {
    if show {
        candidate
    } else {
        "Password"@
    }
}

/// The report line for a resolved count: found, with the count grouped for
/// reading, or not found at all.
pub open spec fn report_of(label: Seq<char>, count: int) -> Seq<char> {
    if count == 0 {
        label + " was NOT found in any known breaches."@
    } else {
        label + " was found in data breaches "@ + grouped_decimal_of(count) + " times."@
    }
}

/// Composes the report line for one candidate's resolved count.
pub fn report_line(candidate: &str, show: bool, count: i32) -> (r: String)
    ensures
        r@ == report_of(label_of(candidate@, show), count as int),
{
    let mut line = if show {
        candidate.to_owned()
    } else {
        "Password".to_owned()
    };
    if count == 0 {
        line.append(" was NOT found in any known breaches.");
    } else {
        line.append(" was found in data breaches ");
        let grouped = format_grouped(count);
        line.append(grouped.as_str());
        line.append(" times.");
    }
    line
}

/// With revealing off the report is the same whatever the candidate was, so
/// the literal input never shows through; with revealing on the label is the
/// candidate itself.
pub proof fn lemma_hidden_label_reveals_nothing(a: Seq<char>, b: Seq<char>, count: int)
    ensures
        report_of(label_of(a, false), count) == report_of(label_of(b, false), count),
        label_of(a, true) == a,
{
}

} // verus!
