use scoggle_gen::{
    parse_confirmation, plan_after_create, plan_after_overwrite, plan_after_prompt, Confirmation,
    WriteOutcome, WriterAction,
};

#[test]
fn only_y_in_either_case_means_yes() {
    assert_eq!(parse_confirmation(Some(b'y')), Confirmation::Yes);
    assert_eq!(parse_confirmation(Some(b'Y')), Confirmation::Yes);
    assert_eq!(parse_confirmation(Some(b'n')), Confirmation::No);
    assert_eq!(parse_confirmation(Some(b'x')), Confirmation::No);
    assert_eq!(parse_confirmation(Some(b' ')), Confirmation::No);
    assert_eq!(parse_confirmation(None), Confirmation::No);
}

#[test]
fn a_created_file_is_reported_as_success() {
    assert_eq!(
        plan_after_create(&WriteOutcome::Created),
        WriterAction::ReportSuccess
    );
}

#[test]
fn an_existing_file_leads_to_the_prompt() {
    assert_eq!(
        plan_after_create(&WriteOutcome::AlreadyExists),
        WriterAction::PromptOverwrite
    );
}

#[test]
fn any_other_write_failure_dumps_to_stdout() {
    assert_eq!(
        plan_after_create(&WriteOutcome::IOFailure("disk full".to_string())),
        WriterAction::DumpToStdout
    );
}

#[test]
fn a_yes_answer_attempts_the_overwrite() {
    assert_eq!(
        plan_after_prompt(&Confirmation::Yes),
        WriterAction::AttemptOverwrite
    );
}

#[test]
fn a_failed_overwrite_still_dumps_to_stdout() {
    assert_eq!(
        plan_after_overwrite(&WriteOutcome::Created),
        WriterAction::ReportSuccess
    );
    assert_eq!(
        plan_after_overwrite(&WriteOutcome::IOFailure("permission denied".to_string())),
        WriterAction::DumpToStdout
    );
}

#[test]
fn declining_the_overwrite_keeps_the_document_and_dumps_it() {
    let document = "{ \"folders\": [] }".to_string();
    let after_create = plan_after_create(&WriteOutcome::AlreadyExists);
    assert_eq!(after_create, WriterAction::PromptOverwrite);
    let answer = parse_confirmation(Some(b'n'));
    assert_eq!(answer, Confirmation::No);
    let after_prompt = plan_after_prompt(&answer);
    assert_eq!(after_prompt, WriterAction::DumpToStdout);
    assert_eq!(document, "{ \"folders\": [] }");
}
