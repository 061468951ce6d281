//! Diffs.
use nota_bene::diff_utils::{apply_diff, compute_diff, reconstruct_original};

// --- compute_diff ---

#[test]
fn compute_diff_identical_returns_none() {
    assert_eq!(compute_diff("hello\n", "hello\n"), None);
}

#[test]
fn compute_diff_both_empty_returns_none() {
    assert_eq!(compute_diff("", ""), None);
}

#[test]
fn compute_diff_different_returns_some() {
    assert!(compute_diff("x = 1\n", "x = 2\n").is_some());
}

// --- apply_diff round-trip ---

#[test]
fn apply_diff_round_trip_single_line() {
    let original = "x = 1\n";
    let patched = "x = 2\n";
    let diff = compute_diff(original, patched).unwrap();
    assert_eq!(apply_diff(original, &diff).unwrap(), patched);
}

#[test]
fn apply_diff_round_trip_multi_line() {
    let original = "def foo():\n    return 1\n";
    let patched = "def foo():\n    x = 42\n    return x\n";
    let diff = compute_diff(original, patched).unwrap();
    assert_eq!(apply_diff(original, &diff).unwrap(), patched);
}

#[test]
fn apply_diff_from_empty_original() {
    let original = "";
    let patched = "hello\n";
    let diff = compute_diff(original, patched).unwrap();
    assert_eq!(apply_diff(original, &diff).unwrap(), patched);
}

#[test]
fn apply_diff_malformed_input_returns_original_unchanged() {
    // diffy is permissive: a string with no hunk markers is treated as a
    // zero-change patch and the original is returned unmodified.
    let result = apply_diff("hello\n", "this is not a diff").unwrap();
    assert_eq!(result, "hello\n");
}

// --- reconstruct_original round-trip ---

#[test]
fn reconstruct_original_single_line_change() {
    let original = "x = 1\n";
    let patched = "x = 99\n";
    let diff = compute_diff(original, patched).unwrap();
    assert_eq!(reconstruct_original(patched, &diff).unwrap(), original);
}

#[test]
fn reconstruct_original_multi_line_change() {
    let original = "a\nb\nc\n";
    let patched = "a\nB\nc\n";
    let diff = compute_diff(original, patched).unwrap();
    assert_eq!(reconstruct_original(patched, &diff).unwrap(), original);
}

#[test]
fn reconstruct_original_multi_hunk() {
    // Changes far apart produce multiple hunks.
    let original = "a\nb\nc\nd\ne\nf\ng\nh\ni\nj\n";
    let patched = "a\nB\nc\nd\ne\nf\ng\nh\nI\nj\n";
    let diff = compute_diff(original, patched).unwrap();
    assert_eq!(reconstruct_original(patched, &diff).unwrap(), original);
}

#[test]
fn reconstruct_original_malformed_diff_returns_original_unchanged() {
    // Same permissive behaviour as apply_diff.
    let result = reconstruct_original("hello\n", "not a diff").unwrap();
    assert_eq!(result, "hello\n");
}

// --- apply then reconstruct is identity ---

#[test]
fn apply_then_reconstruct_is_identity() {
    let original = "def foo(x):\n    return x + 1\n";
    let patched = "def foo(x):\n    result = x + 1\n    return result\n";
    let diff = compute_diff(original, patched).unwrap();
    let applied = apply_diff(original, &diff).unwrap();
    let recovered = reconstruct_original(&applied, &diff).unwrap();
    assert_eq!(applied, patched);
    assert_eq!(recovered, original);
}
