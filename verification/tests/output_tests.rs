use scoggle_gen::{classify_lines, get_base_directories, ProjectType, SBTExecution};

#[test]
fn single_line_output_is_a_single_module() {
    let r = get_base_directories("/repo/moduleA");
    assert_eq!(
        r,
        SBTExecution::SuccessfulExecution(ProjectType(vec!["/repo/moduleA".to_string()]))
    );
}

#[test]
fn four_line_output_keeps_every_second_line() {
    let out = "modA / baseDirectory\n/repo/modA\nmodB / baseDirectory\n/repo/modB";
    let r = get_base_directories(out);
    assert_eq!(
        r,
        SBTExecution::SuccessfulExecution(ProjectType(vec![
            "/repo/modA".to_string(),
            "/repo/modB".to_string()
        ]))
    );
}

#[test]
fn blank_lines_and_padding_do_not_change_the_module_list() {
    let out = "\n  modA / baseDirectory  \n\n  /repo/modA\t\n\nmodB / baseDirectory\n/repo/modB\n\n";
    let r = get_base_directories(out);
    assert_eq!(
        r,
        SBTExecution::SuccessfulExecution(ProjectType(vec![
            "/repo/modA".to_string(),
            "/repo/modB".to_string()
        ]))
    );
}

#[test]
fn two_line_output_is_one_module() {
    let r = get_base_directories("modA / baseDirectory\n/repo/modA");
    assert_eq!(
        r,
        SBTExecution::SuccessfulExecution(ProjectType(vec!["/repo/modA".to_string()]))
    );
}

#[test]
fn odd_line_count_above_one_is_unrecognised() {
    let r = get_base_directories("a\nb\nc");
    assert_eq!(
        r,
        SBTExecution::UnrecognisedOutputStructure(vec![
            "a".to_string(),
            "b".to_string(),
            "c".to_string()
        ])
    );
}

#[test]
fn empty_output_is_unrecognised() {
    assert_eq!(
        get_base_directories(""),
        SBTExecution::UnrecognisedOutputStructure(vec![])
    );
    assert_eq!(
        get_base_directories("\n  \n\t\n"),
        SBTExecution::UnrecognisedOutputStructure(vec![
            "".to_string(),
            "  ".to_string(),
            "\t".to_string()
        ])
    );
}

#[test]
fn the_malformed_diagnostic_carries_the_raw_lines() {
    let r = get_base_directories(" a \n\nb\nc\n");
    assert_eq!(
        r,
        SBTExecution::UnrecognisedOutputStructure(vec![
            " a ".to_string(),
            "".to_string(),
            "b".to_string(),
            "c".to_string()
        ])
    );
}

#[test]
fn carriage_returns_are_part_of_line_endings() {
    let r = get_base_directories("modA / baseDirectory\r\n/repo/modA\r\n");
    assert_eq!(
        r,
        SBTExecution::SuccessfulExecution(ProjectType(vec!["/repo/modA".to_string()]))
    );
    let malformed = get_base_directories("a\r\nb\r\nc\r\n");
    assert_eq!(
        malformed,
        SBTExecution::UnrecognisedOutputStructure(vec![
            "a".to_string(),
            "b".to_string(),
            "c".to_string()
        ])
    );
}

#[test]
fn classifier_trims_the_lines_it_keeps() {
    let lines = vec!["  modA / baseDirectory ".to_string(), "  /repo/modA  ".to_string()];
    assert_eq!(
        classify_lines(lines),
        SBTExecution::SuccessfulExecution(ProjectType(vec!["/repo/modA".to_string()]))
    );
}

#[test]
fn classifier_returns_the_raw_lines_on_an_odd_count() {
    let lines = vec!["one".to_string(), " two ".to_string(), "three".to_string()];
    assert_eq!(
        classify_lines(lines.clone()),
        SBTExecution::UnrecognisedOutputStructure(lines)
    );
}

#[test]
fn classifier_trims_a_single_line() {
    let lines = vec!["   /repo/solo   ".to_string()];
    assert_eq!(
        classify_lines(lines),
        SBTExecution::SuccessfulExecution(ProjectType(vec!["/repo/solo".to_string()]))
    );
}

#[test]
fn launch_and_decode_failures_carry_their_reason() {
    let launch = SBTExecution::CouldNotRun("command not found".to_string());
    let decode = SBTExecution::CouldNotDecodeOutput("invalid utf-8".to_string());
    assert!(matches!(launch, SBTExecution::CouldNotRun(ref reason) if reason == "command not found"));
    assert!(matches!(decode, SBTExecution::CouldNotDecodeOutput(ref reason) if reason == "invalid utf-8"));
}
