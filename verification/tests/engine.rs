//! Tests of the diff/patch engine: round trip, idempotent re-application,
//! drift rejection, and the patch text codec.

use dna_store::apply::apply_patch;
use dna_store::codec::make_patch;
use dna_store::codec::parse_patch;
use dna_store::codec::PatchParseError;
use dna_store::diff::diff;
use dna_store::diff::DiffOp;

fn round_trip(a: &str, b: &str) {
    let ops = diff(a, b);
    let patch_txt = make_patch(&ops);
    let patch = parse_patch(&patch_txt).expect("patch text must parse back");
    let (result, flags) = apply_patch(&patch, a);
    assert_eq!(result, b);
    assert!(flags.iter().all(|&f| f), "all hunks must apply on the source text");
}

fn reapply_noop(a: &str, b: &str) {
    let ops = diff(a, b);
    let patch_txt = make_patch(&ops);
    let patch = parse_patch(&patch_txt).expect("patch text must parse back");
    let (result, flags) = apply_patch(&patch, b);
    assert_eq!(result, b, "re-applying to the result must not change it");
    assert!(flags.iter().all(|&f| f), "re-application is a recognized no-op");
}

#[test]
fn diff_apply_round_trip_basic() {
    round_trip("TACG", "TCCG");
}

#[test]
fn diff_apply_round_trip_cases() {
    round_trip("", "");
    round_trip("", "TACG");
    round_trip("TACG", "");
    round_trip("A", "AB");
    round_trip("AB", "A");
    round_trip("TACG", "TACG");
    round_trip("GATTACA", "GACCATA");
    round_trip("h\u{e9}llo", "h\u{eb}llo");
    round_trip("line one\nline two\n", "line one\nline 2\n");
    round_trip("AAAA", "AAAAAAAA");
}

#[test]
fn reapply_is_noop() {
    reapply_noop("TACG", "TCCG");
    reapply_noop("", "TACG");
    reapply_noop("TACG", "");
    reapply_noop("A", "AB");
    reapply_noop("AB", "A");
    reapply_noop("TACG", "TACG");
    reapply_noop("GATTACA", "GACCATA");
}

#[test]
fn diff_shape_is_trimmed_middle() {
    let ops = diff("TACG", "TCCG");
    assert_eq!(ops.len(), 4);
    match &ops[0] {
        DiffOp::Equal(t) => assert_eq!(t, "T"),
        _ => panic!("expected leading equal run"),
    }
    match &ops[1] {
        DiffOp::Delete(t) => assert_eq!(t, "A"),
        _ => panic!("expected delete run"),
    }
    match &ops[2] {
        DiffOp::Insert(t) => assert_eq!(t, "C"),
        _ => panic!("expected insert run"),
    }
    match &ops[3] {
        DiffOp::Equal(t) => assert_eq!(t, "CG"),
        _ => panic!("expected trailing equal run"),
    }
}

#[test]
fn diff_of_equal_texts_is_one_equal_run() {
    let ops = diff("TACG", "TACG");
    assert_eq!(ops.len(), 1);
    match &ops[0] {
        DiffOp::Equal(t) => assert_eq!(t, "TACG"),
        _ => panic!("expected a single equal run"),
    }
}

#[test]
fn manual_ops_apply() {
    let ops = vec![
        DiffOp::Equal(String::from("AB")),
        DiffOp::Delete(String::from("C")),
        DiffOp::Insert(String::from("D")),
        DiffOp::Equal(String::from("EF")),
    ];
    let patch_txt = make_patch(&ops);
    let patch = parse_patch(&patch_txt).expect("patch text must parse back");
    let (result, flags) = apply_patch(&patch, "ABCEF");
    assert_eq!(result, "ABDEF");
    assert_eq!(flags, vec![true]);
}

#[test]
fn drifted_base_same_length_fails() {
    let ops = diff("TACG", "TCCG");
    let patch_txt = make_patch(&ops);
    let patch = parse_patch(&patch_txt).expect("patch text must parse back");
    // Same length as the source, but the context does not match.
    let (result, flags) = apply_patch(&patch, "GGGG");
    assert_eq!(result, "GGGG", "a failed hunk leaves the text unchanged");
    assert_eq!(flags, vec![false]);
}

#[test]
fn drifted_base_other_length_fails() {
    let ops = diff("TACG", "TCCG");
    let patch_txt = make_patch(&ops);
    let patch = parse_patch(&patch_txt).expect("patch text must parse back");
    let (result, flags) = apply_patch(&patch, "TAG");
    assert_eq!(result, "TAG");
    assert_eq!(flags, vec![false]);
}

#[test]
fn patch_text_is_stable_encoding() {
    let ops = diff("TACG", "TCCG");
    let patch_txt = make_patch(&ops);
    // src 4, tgt 4; one hunk at 1: one char of leading context, delete
    // "A", insert "C", two chars of trailing context.
    assert_eq!(patch_txt, "P4:4@1:1:1:1:2:TACCG");
}

#[test]
fn malformed_patch_texts_are_rejected() {
    assert_eq!(parse_patch("").unwrap_err(), PatchParseError::MalformedPatch);
    assert_eq!(parse_patch("garbage").unwrap_err(), PatchParseError::MalformedPatch);
    assert_eq!(parse_patch("P4:4@").unwrap_err(), PatchParseError::MalformedPatch);
    assert_eq!(parse_patch("P4:4@1:1:1:1:2:TA").unwrap_err(), PatchParseError::MalformedPatch);
    assert_eq!(parse_patch("P99999999999999999999999:4").unwrap_err(), PatchParseError::MalformedPatch);
    // Trailing bytes after the counted fields must belong to another hunk.
    assert_eq!(parse_patch("P4:4@1:1:1:1:2:TACCGx").unwrap_err(), PatchParseError::MalformedPatch);
}

#[test]
fn parse_inverts_make_patch() {
    let ops = diff("GATTACA", "GACCATA");
    let patch_txt = make_patch(&ops);
    let patch = parse_patch(&patch_txt).expect("patch text must parse back");
    let reencoded = {
        // Parsing and re-applying must agree with the patch as made.
        let (result, flags) = apply_patch(&patch, "GATTACA");
        assert!(flags.iter().all(|&f| f));
        result
    };
    assert_eq!(reencoded, "GACCATA");
}

#[test]
fn empty_patch_applies_to_anything() {
    let ops = diff("TACG", "TACG");
    let patch_txt = make_patch(&ops);
    let patch = parse_patch(&patch_txt).expect("patch text must parse back");
    let (result, flags) = apply_patch(&patch, "TOTALLY DIFFERENT");
    assert_eq!(result, "TOTALLY DIFFERENT");
    assert!(flags.is_empty());
}
