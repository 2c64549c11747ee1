use nexterm::fs_secure::{
    best_effort_harden_with_result_for_test, harden_outcome, is_unsupported, is_unsupported_code, is_unsupported_pub_for_test,
    tmp_path_for, BestEffortOutcome,
};
use std::io;

#[test]
fn tmp_path_for_derives_correct_path() {
    let input = "/tmp/nexterm-test-dir/bar.json";
    let expected = "/tmp/nexterm-test-dir/bar.json.tmp";
    assert_eq!(tmp_path_for(input), expected);
    assert_eq!(tmp_path_for("/foo/bar.json"), "/foo/bar.json.tmp");
}

#[test]
fn is_unsupported_returns_true_for_unsupported_errors() {
    let e1 = io::Error::from(io::ErrorKind::Unsupported);
    assert!(is_unsupported_pub_for_test(&e1), "ErrorKind::Unsupported must be classified as unsupported");
    let e2 = io::Error::from_raw_os_error(1);
    assert!(is_unsupported_pub_for_test(&e2), "OS error 1 (ERROR_INVALID_FUNCTION) must be classified as unsupported");
    let e3 = io::Error::from_raw_os_error(50);
    assert!(is_unsupported_pub_for_test(&e3), "OS error 50 (ERROR_NOT_SUPPORTED) must be classified as unsupported");
    let e4 = io::Error::from_raw_os_error(5);
    assert!(!is_unsupported_pub_for_test(&e4), "OS error 5 (ERROR_ACCESS_DENIED) must NOT be classified as unsupported");
}

#[test]
fn best_effort_harden_returns_skipped_unsupported_for_os_error_50() {
    let outcome = best_effort_harden_with_result_for_test(Err(io::Error::from_raw_os_error(50)));
    assert!(
        matches!(outcome, BestEffortOutcome::SkippedUnsupported),
        "Expected SkippedUnsupported for OS error 50, got {:?}",
        outcome
    );
}

#[test]
fn best_effort_harden_returns_skipped_unsupported_for_error_kind_unsupported() {
    let outcome = best_effort_harden_with_result_for_test(Err(io::Error::from(io::ErrorKind::Unsupported)));
    assert!(
        matches!(outcome, BestEffortOutcome::SkippedUnsupported),
        "Expected SkippedUnsupported for ErrorKind::Unsupported, got {:?}",
        outcome
    );
}

#[test]
fn best_effort_harden_classifies_success_and_other_failures() {
    assert!(matches!(best_effort_harden_with_result_for_test(Ok(())), BestEffortOutcome::Hardened));
    let outcome = best_effort_harden_with_result_for_test(Err(io::Error::from_raw_os_error(2)));
    match outcome {
        BestEffortOutcome::Failed(e) => assert_eq!(e.raw_os_error(), Some(2)),
        other => panic!("expected Failed, got {other:?}"),
    }
}

#[test]
fn unsupported_codes_are_kind_or_raw_one_or_fifty() {
    assert!(is_unsupported_code(true, None));
    assert!(is_unsupported_code(false, Some(1)));
    assert!(is_unsupported_code(false, Some(50)));
    assert!(!is_unsupported_code(false, Some(5)));
    assert!(!is_unsupported_code(false, None));
    assert!(!is_unsupported(&io::Error::new(io::ErrorKind::Other, "x")));
}

#[test]
fn harden_outcome_follows_the_flags() {
    assert!(matches!(harden_outcome(Ok(()), true, Some(50)), BestEffortOutcome::Hardened));
    assert!(matches!(harden_outcome(Err(io::Error::from_raw_os_error(2)), true, None), BestEffortOutcome::SkippedUnsupported));
    assert!(matches!(harden_outcome(Err(io::Error::from_raw_os_error(2)), false, Some(1)), BestEffortOutcome::SkippedUnsupported));
    match harden_outcome(Err(io::Error::from_raw_os_error(2)), false, Some(2)) {
        BestEffortOutcome::Failed(e) => assert_eq!(e.raw_os_error(), Some(2)),
        _ => panic!("another error is a failure carrying it"),
    }
}
