use cmpr::engine::{MismatchRecord, compare_files, compare_files_single};
use cmpr::outcome::{
    ComparisonOutcome, DIFF_FAIL, DIFF_FILE_LEN_DIFF, DIFF_FILE_NOT_FOUND, DIFF_INVALID_ARGUMENT,
    DIFF_OK, Mode, SourceId, compare_sources, comparison_exit_status, length_verdict,
};

fn record(address: usize, byte_a: u8, byte_b: u8) -> MismatchRecord {
    MismatchRecord { address, byte_a, byte_b }
}

#[test]
fn identical_sources_report_nothing() {
    let data = b"hello world";
    assert_eq!(compare_files_single(data, data, 0), None);
    let (records, final_address) = compare_files(data, data, 0);
    assert!(records.is_empty());
    assert_eq!(final_address, data.len());
    assert_eq!(comparison_exit_status(Mode::Byte, false, data.len(), data.len()), DIFF_OK);
}

#[test]
fn first_difference_address_counts_from_skip() {
    // Post-skip the sources agree on one pair and differ on the second:
    // the record's address is skip + 2.
    let a = b"aaXbb";
    let b = b"aaXcb";
    assert_eq!(compare_files_single(a, b, 2), Some(record(4, b'b', b'c')));
}

#[test]
fn all_differences_in_ascending_address_order() {
    let a = b"abcdef";
    let b = b"axcxex";
    let (records, final_address) = compare_files(a, b, 0);
    assert_eq!(
        records,
        vec![record(2, b'b', b'x'), record(4, b'd', b'x'), record(6, b'f', b'x')]
    );
    for pair in records.windows(2) {
        assert!(pair[0].address < pair[1].address);
    }
    assert_eq!(final_address, 6);
}

#[test]
fn repeated_runs_yield_identical_results() {
    let a = b"some bytes";
    let b = b"sane bytes";
    assert_eq!(compare_files(a, b, 0), compare_files(a, b, 0));
    assert_eq!(compare_files_single(a, b, 0), compare_files_single(a, b, 0));
}

#[test]
fn raising_skip_only_drops_records() {
    let a = b"XbXdX";
    let b = b"YbYdY";
    let (all, _) = compare_files(a, b, 0);
    let (later, _) = compare_files(a, b, 2);
    assert_eq!(all, vec![record(1, b'X', b'Y'), record(3, b'X', b'Y'), record(5, b'X', b'Y')]);
    assert_eq!(later, vec![record(3, b'X', b'Y'), record(5, b'X', b'Y')]);
    for rec in &later {
        assert!(rec.address > 2);
        assert!(all.contains(rec));
    }
}

#[test]
fn pure_length_difference_is_not_a_mismatch() {
    assert_eq!(compare_files_single(b"ab", b"abcd", 0), None);
}

#[test]
fn final_address_follows_the_shorter_source() {
    assert_eq!(compare_files(b"ab", b"abcd", 0).1, 2);
    assert_eq!(compare_files(b"abcd", b"ab", 0).1, 2);
    assert_eq!(compare_files(b"", b"", 0).1, 0);
}

#[test]
fn skip_past_both_sources_compares_nothing() {
    let (records, final_address) = compare_files(b"ab", b"ab", 5);
    assert!(records.is_empty());
    assert_eq!(final_address, 5);
    assert_eq!(compare_files_single(b"ab", b"cd", 5), None);
}

#[test]
fn scenario_first_difference_mode() {
    let out: ComparisonOutcome = compare_sources(b"abc", b"abd", 0, Mode::Single);
    assert_eq!(out.records, vec![record(3, b'c', b'd')]);
    assert_eq!(out.length_note, None);
    assert_eq!(out.status, DIFF_FAIL);
}

#[test]
fn scenario_length_mismatch_in_list_mode() {
    let out = compare_sources(b"ab", b"abcd", 0, Mode::Hex);
    assert!(out.records.is_empty());
    assert_eq!(out.length_note, Some((SourceId::Primary, 2)));
    assert_eq!(out.status, DIFF_FILE_LEN_DIFF);
}

#[test]
fn scenario_skip_hides_differing_prefix() {
    let out = compare_sources(b"XXab", b"YYab", 2, Mode::Single);
    assert!(out.records.is_empty());
    assert_eq!(out.status, DIFF_OK);
    let listed = compare_sources(b"XXab", b"YYab", 2, Mode::Byte);
    assert!(listed.records.is_empty());
    assert_eq!(listed.status, DIFF_OK);
}

#[test]
fn difference_dominates_length_mismatch() {
    let out = compare_sources(b"xb", b"ybcd", 0, Mode::Hex);
    assert_eq!(out.records, vec![record(1, b'x', b'y')]);
    assert_eq!(out.length_note, Some((SourceId::Primary, 2)));
    assert_eq!(out.status, DIFF_FAIL);
}

#[test]
fn first_difference_mode_ignores_lengths() {
    let out = compare_sources(b"ab", b"abcd", 0, Mode::Single);
    assert!(out.records.is_empty());
    assert_eq!(out.length_note, None);
    assert_eq!(out.status, DIFF_OK);
}

#[test]
fn exit_status_taxonomy() {
    assert_eq!(DIFF_OK, 0);
    assert_eq!(DIFF_FAIL, 1);
    assert_eq!(DIFF_FILE_NOT_FOUND, 2);
    assert_eq!(DIFF_FILE_LEN_DIFF, 3);
    assert_eq!(DIFF_INVALID_ARGUMENT, 4);
    assert_eq!(comparison_exit_status(Mode::Hex, true, 2, 4), DIFF_FAIL);
    assert_eq!(comparison_exit_status(Mode::Hex, false, 2, 4), DIFF_FILE_LEN_DIFF);
    assert_eq!(comparison_exit_status(Mode::Single, false, 2, 4), DIFF_OK);
    assert_eq!(comparison_exit_status(Mode::Byte, false, 3, 3), DIFF_OK);
}

#[test]
fn length_verdict_names_the_shorter_source() {
    assert_eq!(length_verdict(2, 4), Some((SourceId::Primary, 2)));
    assert_eq!(length_verdict(4, 2), Some((SourceId::Secondary, 2)));
    assert_eq!(length_verdict(3, 3), None);
}
