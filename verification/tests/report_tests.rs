use hibp_check::input::{is_done_token, prepare_batch_line};
use hibp_check::report::report_line;

#[test]
fn found_report_groups_the_count() {
    let line = report_line("password", true, 21303723);
    assert_eq!(line, "password was found in data breaches 21,303,723 times.");
}

#[test]
fn small_count_report_has_no_separator() {
    let line = report_line("password", true, 7);
    assert_eq!(line, "password was found in data breaches 7 times.");
}

#[test]
fn zero_count_reports_not_found() {
    let line = report_line("password", true, 0);
    assert_eq!(line, "password was NOT found in any known breaches.");
}

#[test]
fn hidden_candidate_never_appears() {
    let line = report_line("hunter2", false, 3);
    assert!(!line.contains("hunter2"));
    assert_eq!(line, "Password was found in data breaches 3 times.");
    let other = report_line("correct horse", false, 3);
    assert_eq!(line, other);
}

#[test]
fn revealed_candidate_always_appears() {
    let line = report_line("hunter2", true, 3);
    assert!(line.contains("hunter2"));
    assert_eq!(line, "hunter2 was found in data breaches 3 times.");
}

#[test]
fn done_sentinel_ends_the_loop() {
    assert!(is_done_token("done"));
    assert!(is_done_token("DONE"));
    assert!(is_done_token("  Done \n"));
    assert!(!is_done_token("done!"));
    assert!(!is_done_token("password"));
}

#[test]
fn batch_skips_blank_and_whitespace_lines() {
    let file_lines = ["", "   \t", "password"];
    let mut lookups: usize = 0;
    let mut surviving = Vec::new();
    for line in file_lines {
        if let Some(candidate) = prepare_batch_line(line) {
            lookups += 1;
            surviving.push(candidate);
        }
    }
    assert_eq!(lookups, 1);
    assert_eq!(surviving, vec!["password".to_string()]);
}

#[test]
fn batch_lines_are_trimmed() {
    assert_eq!(prepare_batch_line("  hunter2  ").unwrap(), "hunter2");
    assert_eq!(prepare_batch_line("\t"), None);
}
