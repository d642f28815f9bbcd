use jotoba::matcher::SearchMode;

#[test]
fn left_variable_matches_a_suffix() {
    assert!(SearchMode::LeftVariable.matches("る", "食べる"));
    assert!(!SearchMode::LeftVariable.matches("食", "食べる"));
}

#[test]
fn exact_needs_the_whole_text() {
    assert!(!SearchMode::Exact.matches("る", "食べる"));
    assert!(SearchMode::Exact.matches("食べる", "食べる"));
}

#[test]
fn variable_matches_inside() {
    assert!(SearchMode::Variable.matches("べ", "食べる"));
    assert!(!SearchMode::Variable.matches("か", "食べる"));
    assert!(SearchMode::Variable.matches("", ""));
}

#[test]
fn right_variable_matches_a_prefix() {
    assert!(SearchMode::RightVariable.matches("食", "食べる"));
    assert!(!SearchMode::RightVariable.matches("る", "食べる"));
    assert!(!SearchMode::RightVariable.matches("食べるな", "食べる"));
}
