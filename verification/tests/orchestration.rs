use nbsync::mapper::{directive_for, Direction};
use nbsync::orchestrator::{classify_batch, classify_outcome, plan_apply, ApplyOutcome, ConversionError};

fn ok_outcome() -> ApplyOutcome {
    ApplyOutcome { dir_ready: true, launched: true, exit_zero: true }
}

#[test]
fn forward_plan_names_directory_and_converter_arguments() {
    let d = directive_for(Direction::ForwardToScript, "bar/baz.ipynb");
    let plan = plan_apply(&d);

    assert_eq!(plan.destination_dir, "bar/.nb");
    assert_eq!(
        plan.tool_args,
        vec![
            "--to=py".to_string(),
            "--output=bar/.nb/baz.py".to_string(),
            "bar/baz.ipynb".to_string(),
        ]
    );
}

#[test]
fn reverse_plan_asks_for_the_notebook_format() {
    let d = directive_for(Direction::ReverseToNotebook, ".nb/baz.py");
    let plan = plan_apply(&d);

    // The destination lies in the working directory itself: nothing to create.
    assert_eq!(plan.destination_dir, "");
    assert_eq!(
        plan.tool_args,
        vec!["--to=ipynb".to_string(), "--output=baz.ipynb".to_string(), ".nb/baz.py".to_string()]
    );
}

#[test]
fn planning_twice_plans_exactly_the_same_work() {
    let d = directive_for(Direction::ForwardToScript, "a/b/baz.ipynb");
    assert_eq!(plan_apply(&d), plan_apply(&d));
}

#[test]
fn each_failure_stage_gets_its_own_error() {
    assert_eq!(
        classify_outcome(ApplyOutcome { dir_ready: false, launched: false, exit_zero: false }),
        Err(ConversionError::DirectoryCreation)
    );
    assert_eq!(
        classify_outcome(ApplyOutcome { dir_ready: true, launched: false, exit_zero: false }),
        Err(ConversionError::ExternalTool)
    );
    assert_eq!(
        classify_outcome(ApplyOutcome { dir_ready: true, launched: true, exit_zero: false }),
        Err(ConversionError::ConversionFailed)
    );
    assert_eq!(classify_outcome(ok_outcome()), Ok(()));
}

#[test]
fn one_failing_directive_leaves_the_rest_of_the_batch_judged() {
    // Three directives; the middle conversion exits non-zero. The first and
    // third still get their own verdicts.
    let outcomes = vec![
        ok_outcome(),
        ApplyOutcome { dir_ready: true, launched: true, exit_zero: false },
        ok_outcome(),
    ];

    let report = classify_batch(&outcomes);

    assert_eq!(report, vec![Ok(()), Err(ConversionError::ConversionFailed), Ok(())]);
}

#[test]
fn batch_report_covers_every_directive_in_order() {
    let outcomes = vec![
        ApplyOutcome { dir_ready: false, launched: false, exit_zero: false },
        ok_outcome(),
        ApplyOutcome { dir_ready: true, launched: false, exit_zero: false },
    ];

    let report = classify_batch(&outcomes);

    assert_eq!(report.len(), 3);
    assert_eq!(report[0], Err(ConversionError::DirectoryCreation));
    assert_eq!(report[1], Ok(()));
    assert_eq!(report[2], Err(ConversionError::ExternalTool));
}
