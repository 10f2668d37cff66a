use orvane::cli::{tokens_outcome, version_line, SubcommandOutcome, EXIT_FAILURE, EXIT_OK, EXIT_USAGE, VERSION};

#[test]
fn version_line_matches_crate_version() {
    assert_eq!(
        version_line(),
        format!("orv {} (orvane {})", VERSION, VERSION)
    );
}

#[test]
fn ok_exit_code_matches_spec() {
    assert_eq!(EXIT_OK, 0);
}

#[test]
fn version_line_is_the_documented_text() {
    assert_eq!(version_line(), "orv 0.1.0 (orvane 0.1.0)");
    assert!(!version_line().contains('\r'));
    assert!(!version_line().contains('\n'));
}

#[test]
fn outcomes_map_to_documented_exit_codes() {
    assert_eq!(SubcommandOutcome::Success.exit_code(), 0);
    assert_eq!(SubcommandOutcome::Failure.exit_code(), 1);
    assert_eq!(SubcommandOutcome::Usage.exit_code(), 2);
    assert_eq!(EXIT_FAILURE, 1);
    assert_eq!(EXIT_USAGE, 2);
}

#[test]
fn tokens_outcome_prefers_write_failure_then_diagnostics() {
    assert_eq!(tokens_outcome(true, 0), SubcommandOutcome::Usage);
    assert_eq!(tokens_outcome(true, 3), SubcommandOutcome::Usage);
    assert_eq!(tokens_outcome(false, 0), SubcommandOutcome::Success);
    assert_eq!(tokens_outcome(false, 1), SubcommandOutcome::Failure);
}
