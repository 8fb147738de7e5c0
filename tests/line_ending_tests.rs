use line_ending::{LineEnding, LineEndingScores};

#[test]
fn line_ending_tests_detects_lf_correctly() {
    let sample = "first line\nsecond line\nthird line";
    assert_eq!(LineEnding::from(sample), LineEnding::LF);
}

#[test]
fn line_ending_tests_detects_crlf_correctly() {
    let sample = "first line\r\nsecond line\r\nthird line";
    assert_eq!(LineEnding::from(sample), LineEnding::CRLF);
}

#[test]
fn line_ending_tests_detects_cr_correctly() {
    let sample = "first line\rsecond line\rthird line";
    assert_eq!(LineEnding::from(sample), LineEnding::CR);
}

#[test]
fn line_ending_tests_normalize_converts_all_to_lf() {
    let crlf = "first\r\nsecond\r\nthird";
    let cr = "first\rsecond\rthird";
    let lf = "first\nsecond\nthird";

    assert_eq!(LineEnding::normalize(crlf), lf);
    assert_eq!(LineEnding::normalize(cr), lf);
    assert_eq!(LineEnding::normalize(lf), lf);
}

#[test]
fn line_ending_tests_restore_correctly_applies_line_endings() {
    let text = "first\nsecond\nthird";
    let crlf_restored = LineEnding::CRLF.denormalize(text);
    let cr_restored = LineEnding::CR.denormalize(text);
    let lf_restored = LineEnding::LF.denormalize(text);

    assert_eq!(crlf_restored, "first\r\nsecond\r\nthird");
    assert_eq!(cr_restored, "first\rsecond\rthird");
    assert_eq!(lf_restored, "first\nsecond\nthird");
}

#[test]
fn line_ending_tests_applies_correct_line_endings() {
    let lines = vec![
        "first".to_string(),
        "second".to_string(),
        "third".to_string(),
    ];

    assert_eq!(
        LineEnding::CRLF.join(lines.clone()),
        "first\r\nsecond\r\nthird"
    );
    assert_eq!(LineEnding::CR.join(lines.clone()), "first\rsecond\rthird");
    assert_eq!(LineEnding::LF.join(lines.clone()), "first\nsecond\nthird");
}

#[test]
fn line_ending_tests_apply_correctly_applies_line_endings() {
    let mixed_text = "first line\r\nsecond line\rthird line\nfourth line\n";

    assert_eq!(
        LineEnding::CRLF.apply(mixed_text),
        "first line\r\nsecond line\r\nthird line\r\nfourth line\r\n"
    );
    assert_eq!(
        LineEnding::CR.apply(mixed_text),
        "first line\rsecond line\rthird line\rfourth line\r"
    );
    assert_eq!(
        LineEnding::LF.apply(mixed_text),
        "first line\nsecond line\nthird line\nfourth line\n"
    );
}

#[test]
fn handles_mixed_line_endings() {
    // Some CRLF and CR, but LF dominates.
    let mostly_lf = "line1\nline2\r\nline3\rline4\nline5\nline6\n";
    assert_eq!(LineEnding::from(mostly_lf), LineEnding::LF);
    assert_eq!(
        LineEnding::score_mixed_types(mostly_lf),
        LineEndingScores { crlf: 1, cr: 1, lf: 4 }
    );

    // Some LF and CR, but CRLF dominates.
    let mostly_crlf = "line1\r\nline2\r\nline3\nline4\rline5\r\nline6\r\n";
    assert_eq!(LineEnding::from(mostly_crlf), LineEnding::CRLF);
    assert_eq!(
        LineEnding::score_mixed_types(mostly_crlf),
        LineEndingScores { crlf: 4, cr: 1, lf: 1 }
    );

    // Some LF and CRLF, but CR dominates.
    let mostly_cr = "line1\rline2\r\nline3\rline4\nline5\rline6\r";
    assert_eq!(LineEnding::from(mostly_cr), LineEnding::CR);
    assert_eq!(
        LineEnding::score_mixed_types(mostly_cr),
        LineEndingScores { crlf: 1, cr: 4, lf: 1 }
    );
}

#[test]
fn handles_mixed_line_edge_cases() {
    // One kind clearly dominates.
    let mostly_crlf = "line1\r\nline2\r\nline3\nline4\r\nline5\r\n";
    assert_eq!(LineEnding::from(mostly_crlf), LineEnding::CRLF);

    // All kinds appear equally often: CRLF wins the tie.
    let equal_mixed = "line1\r\nline2\nline3\rline4\r\nline5\nline6\r";
    assert_eq!(LineEnding::from(equal_mixed), LineEnding::CRLF);

    // CRLF appears the most overall.
    let mixed_on_one_line = "line1\r\nline2\rline3\r\nline4\r\nline5\r";
    assert_eq!(LineEnding::from(mixed_on_one_line), LineEnding::CRLF);

    // Empty input gives CRLF.
    let empty_text = "";
    assert_eq!(LineEnding::from(empty_text), LineEnding::CRLF);
}

#[test]
fn line_ending_tests_ignores_escaped_line_endings_in_split() {
    let input_lf = "First\\nSecond\\nThird";
    let input_crlf = "First\\r\\nSecond\\r\\nThird";
    let input_cr = "First\\rSecond\\rThird";

    // Escaped sequences are text: nothing is split.
    assert_eq!(LineEnding::split(input_lf), vec!["First\\nSecond\\nThird"]);
    assert_eq!(
        LineEnding::split(input_crlf),
        vec!["First\\r\\nSecond\\r\\nThird"]
    );
    assert_eq!(LineEnding::split(input_cr), vec!["First\\rSecond\\rThird"]);
}

#[test]
fn line_ending_tests_split_does_not_split_on_escaped_line_endings() {
    let input_lf = "First\\nSecond\\nThird";
    let input_crlf = "First\\r\\nSecond\\r\\nThird";
    let input_cr = "First\\rSecond\\rThird";

    // All inputs remain a single, unsplit string.
    assert_eq!(LineEnding::split(input_lf), vec!["First\\nSecond\\nThird"]);
    assert_eq!(
        LineEnding::split(input_crlf),
        vec!["First\\r\\nSecond\\r\\nThird"]
    );
    assert_eq!(LineEnding::split(input_cr), vec!["First\\rSecond\\rThird"]);
}

#[test]
fn line_ending_tests_split_correctly_splits_on_actual_line_endings() {
    let input_lf = "First\nSecond\nThird";
    let input_crlf = "First\r\nSecond\r\nThird";
    let input_cr = "First\rSecond\rThird";

    assert_eq!(
        LineEnding::split(input_lf),
        vec!["First", "Second", "Third"]
    );
    assert_eq!(
        LineEnding::split(input_crlf),
        vec!["First", "Second", "Third"]
    );
    assert_eq!(
        LineEnding::split(input_cr),
        vec!["First", "Second", "Third"]
    );
}

#[test]
fn line_ending_tests_split_detects_mixed_escaped_and_actual_line_endings() {
    // An escaped `\\n` does not split, an actual `\n` does.
    let input_lf = "First\\nSecond\nThird";
    assert_eq!(LineEnding::split(input_lf), vec!["First\\nSecond", "Third"]);

    // An escaped `\\r\\n` does not split, an actual `\r\n` does.
    let input_crlf = "First\\r\\nSecond\r\nThird";
    assert_eq!(
        LineEnding::split(input_crlf),
        vec!["First\\r\\nSecond", "Third"]
    );

    // An escaped `\\r` does not split, an actual `\r` does.
    let input_cr = "First\\rSecond\rThird";
    assert_eq!(LineEnding::split(input_cr), vec!["First\\rSecond", "Third"]);
}

#[test]
fn test_as_char_returns_single_char_for_lf_and_cr() {
    assert_eq!(LineEnding::LF.as_char(), Ok('\n'));
    assert_eq!(LineEnding::CR.as_char(), Ok('\r'));
}

#[test]
#[should_panic(expected = "CRLF cannot be represented as a single character")]
fn test_as_char_panics_for_crlf() {
    // CRLF has two characters, so there is no single one to give.
    let _ = LineEnding::CRLF.as_char().unwrap();
}
