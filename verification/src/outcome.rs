//! The verdict of one invocation: the records to display, the trailing
//! length note, and the exit status they map to.

use crate::engine::{
    MismatchRecord, compare_files, compare_files_single, records_model, spec_compare_all,
    spec_compare_first,
};
use vstd::prelude::*;

verus! {

/// Exit status for sources that compared as identical.
pub const DIFF_OK: i32 = 0;

/// Exit status when at least one differing byte was found.
pub const DIFF_FAIL: i32 = 1;

/// Exit status when a source could not be located or opened.
pub const DIFF_FILE_NOT_FOUND: i32 = 2;

/// Exit status when the sources differ in length but agree on their
/// common prefix.
pub const DIFF_FILE_LEN_DIFF: i32 = 3;

/// Exit status when the configuration itself was invalid.
pub const DIFF_INVALID_ARGUMENT: i32 = 4;

/// How mismatches are displayed; fixed for the whole invocation.
#[derive(Clone, Copy, Debug, PartialEq, Eq, Structural)]
pub enum Mode {
    /// List every difference, bytes shown in hexadecimal.
    Hex,
    /// List every difference, bytes shown as display glyphs.
    Char,
    /// List every difference, bytes shown in decimal.
    Byte,
    /// Report only the first difference.
    Single,
}

/// Which of the two sources a verdict speaks of.
#[derive(Clone, Copy, Debug, PartialEq, Eq, Structural)]
pub enum SourceId {
    /// The first source.
    Primary,
    /// The second source.
    Secondary,
}

/// Identifies the shorter source together with its length: the address at
/// which it ran out while the other source still had bytes. `None` when
/// the lengths agree.
pub fn length_verdict(len_a: usize, len_b: usize) -> (r: Option<(SourceId, usize)>)
    ensures
        len_a == len_b ==> r is None,
        len_a < len_b ==> r == Some((SourceId::Primary, len_a)),
        len_b < len_a ==> r == Some((SourceId::Secondary, len_b)),
{
    if len_a < len_b {
        Some((SourceId::Primary, len_a))
    } else if len_b < len_a {
        Some((SourceId::Secondary, len_b))
    } else {
        None
    }
}

/// The exit status a comparison outcome maps to: a found difference
/// dominates every other condition; a length difference counts only in
/// the list modes, since first-difference mode never reports a pure
/// length difference; otherwise the sources compared as identical.
pub open spec fn spec_exit_status(
    mode: Mode,
    found_difference: bool,
    len_a: int,
    len_b: int,
) -> int {
    if found_difference {
        DIFF_FAIL as int
    } else if !(mode is Single) && len_a != len_b {
        DIFF_FILE_LEN_DIFF as int
    } else {
        DIFF_OK as int
    }
}

/// Derives the exit status from what the comparison found and the two
/// source lengths.
pub fn comparison_exit_status(
    mode: Mode,
    found_difference: bool,
    len_a: usize,
    len_b: usize,
) -> (r: i32)
    ensures
        r == spec_exit_status(mode, found_difference, len_a as int, len_b as int),
{
    if found_difference {
        DIFF_FAIL
    } else if !matches!(mode, Mode::Single) && len_a != len_b {
        DIFF_FILE_LEN_DIFF
    } else {
        DIFF_OK
    }
}

/// Identical sources exit with the success status in every mode: they
/// yield no mismatch, their lengths agree, and so nothing raises the
/// status above success.
pub proof fn lemma_identical_sources_exit_ok(a: Seq<u8>, skip: int, mode: Mode)
    ensures
        spec_exit_status(
            mode,
            spec_compare_first(a, a, skip) is Some,
            a.len() as int,
            a.len() as int,
        ) == DIFF_OK,
{
    crate::engine::lemma_identical_sources(a, skip);
}

/// Everything one comparison run decides: the records to display, the
/// length note for the trailing line, and the exit status.
pub struct ComparisonOutcome {
    /// The mismatch records, in ascending address order; at most one in
    /// first-difference mode.
    pub records: Vec<MismatchRecord>,
    /// The shorter source and its length, for the trailing note of the
    /// list modes; `None` in first-difference mode or when the lengths
    /// agree.
    pub length_note: Option<(SourceId, usize)>,
    /// The process exit status the outcome maps to.
    pub status: i32,
}

/// Runs the whole comparison: pairs the sources after the skip offset,
/// collects the records the chosen mode asks for, reconciles the lengths
/// in the list modes, and derives the exit status.
pub fn compare_sources(a: &[u8], b: &[u8], skip: usize, mode: Mode) -> (out: ComparisonOutcome)
    ensures
        mode is Single ==> {
            &&& records_model(out.records@) == match spec_compare_first(a@, b@, skip as int) {
                None => Seq::<(int, u8, u8)>::empty(),
                Some(t) => seq![t],
            }
            &&& out.length_note is None
        },
        !(mode is Single) ==> {
            &&& records_model(out.records@) == spec_compare_all(a@, b@, skip as int)
            &&& (a@.len() == b@.len() ==> out.length_note is None)
            &&& (a@.len() < b@.len() ==> out.length_note == Some((SourceId::Primary, a.len())))
            &&& (b@.len() < a@.len() ==> out.length_note == Some((SourceId::Secondary, b.len())))
        },
        out.status == spec_exit_status(
            mode,
            spec_compare_first(a@, b@, skip as int) is Some,
            a@.len() as int,
            b@.len() as int,
        ),
{
    if matches!(mode, Mode::Single) {
        let mut records: Vec<MismatchRecord> = Vec::new();
        let mut found = false;
        match compare_files_single(a, b, skip) {
            Some(rec) => {
                proof {
                    assert(records_model(records@.push(rec)) =~= seq![rec@]);
                }
                records.push(rec);
                found = true;
            },
            None => {
                proof {
                    assert(records_model(records@) =~= Seq::<(int, u8, u8)>::empty());
                }
            },
        }
        let status = comparison_exit_status(mode, found, a.len(), b.len());
        ComparisonOutcome { records, length_note: None, status }
    } else {
        let (records, _final_address) = compare_files(a, b, skip);
        let found = records.len() > 0;
        proof {
            assert(records_model(records@).len() == records@.len());
        }
        let length_note = length_verdict(a.len(), b.len());
        let status = comparison_exit_status(mode, found, a.len(), b.len());
        ComparisonOutcome { records, length_note, status }
    }
}

} // verus!
