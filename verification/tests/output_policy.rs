use swap_import::config::is_false;
use swap_import::output::{plan_output, OutputPlan};

#[test]
fn dry_run_always_prints_to_stdout() {
    assert_eq!(
        plan_output(true, true, true, true, true),
        OutputPlan::PrintStdout
    );
    assert_eq!(
        plan_output(true, false, true, false, false),
        OutputPlan::PrintStdout
    );
}

#[test]
fn no_clobber_refuses_existing_output_file() {
    assert_eq!(
        plan_output(false, true, true, true, false),
        OutputPlan::RefuseClobber
    );
    assert_eq!(
        plan_output(false, true, true, true, true),
        OutputPlan::RefuseClobber
    );
}

#[test]
fn output_path_wins_when_writable() {
    assert_eq!(
        plan_output(false, false, true, true, true),
        OutputPlan::WriteOutputFile
    );
    assert_eq!(
        plan_output(false, true, true, false, true),
        OutputPlan::WriteOutputFile
    );
}

#[test]
fn input_file_rewritten_in_place_without_output_path() {
    assert_eq!(
        plan_output(false, false, false, false, true),
        OutputPlan::WriteInputFile
    );
}

#[test]
fn stdout_when_no_path_given() {
    assert_eq!(
        plan_output(false, false, false, false, false),
        OutputPlan::PrintStdout
    );
}

#[test]
fn is_false_inverts_flag() {
    assert!(is_false(&false));
    assert!(!is_false(&true));
}
