use boards_api::logs::{classify_logs, strip_state_prefix, MissingLogLine};

fn s(x: &str) -> String {
    String::from(x)
}

#[test]
fn classify_two_lines() {
    let logs = vec![
        s("Program log: Instruction: Create"),
        s("Program log: {\"Board\":{}}"),
    ];
    let pair = classify_logs(&logs).unwrap();
    assert_eq!(pair.instruction, "Program log: Instruction: Create");
    assert_eq!(pair.state, "Program log: {\"Board\":{}}");
}

#[test]
fn classify_returns_first_of_each() {
    let logs = vec![
        s("unrelated line"),
        s("Program log: state one"),
        s("Program log: Instruction: First"),
        s("Program log: Instruction: Second"),
        s("Program log: state two"),
    ];
    let pair = classify_logs(&logs).unwrap();
    assert_eq!(pair.instruction, "Program log: Instruction: First");
    assert_eq!(pair.state, "Program log: state one");
}

#[test]
fn classify_missing_instruction() {
    let logs = vec![s("Program log: only state here")];
    assert_eq!(classify_logs(&logs), Err(MissingLogLine::Instruction));
}

#[test]
fn classify_missing_state() {
    let logs = vec![s("Program log: Instruction: Create"), s("other")];
    assert_eq!(classify_logs(&logs), Err(MissingLogLine::State));
}

#[test]
fn classify_empty_logs() {
    let logs: Vec<String> = Vec::new();
    assert_eq!(classify_logs(&logs), Err(MissingLogLine::Instruction));
}

#[test]
fn classify_instruction_line_is_not_a_state_line() {
    // the instruction line also starts with the generic prefix, but must
    // never be picked as the state line
    let logs = vec![
        s("Program log: Instruction: Create"),
        s("Program log: payload"),
    ];
    let pair = classify_logs(&logs).unwrap();
    assert_eq!(pair.state, "Program log: payload");
}

#[test]
fn strip_removes_one_prefix() {
    assert_eq!(strip_state_prefix("Program log: hello"), "hello");
}

#[test]
fn strip_removes_only_one_occurrence() {
    assert_eq!(
        strip_state_prefix("Program log: Program log: x"),
        "Program log: x"
    );
}

#[test]
fn strip_leaves_unprefixed_line_unchanged() {
    assert_eq!(strip_state_prefix("hello"), "hello");
    assert_eq!(strip_state_prefix(""), "");
}

#[test]
fn strip_is_idempotent_after_first_application() {
    let once = strip_state_prefix("Program log: {\"Board\":{}}");
    let twice = strip_state_prefix(once.as_str());
    assert_eq!(twice, once);
}
