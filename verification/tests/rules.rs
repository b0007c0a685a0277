use php_lexer::tokenizer::rules::{RuleEntry, Rules, RulesError};

fn entry(token: Option<&str>, pattern: Option<&str>) -> RuleEntry {
    RuleEntry { token: token.map(str::to_string), pattern: pattern.map(str::to_string) }
}

#[test]
fn new_rules_are_empty() {
    assert!(Rules::new().get_rules().is_empty());
}

#[test]
fn entries_become_rules_in_their_order() {
    let rules = Rules::from_entries(vec![
        entry(Some("T_WHITESPACE"), Some(r"^\s+")),
        entry(Some("T_IF"), Some("^if")),
        entry(Some(""), Some("")),
    ]);
    assert_eq!(
        rules.ok().map(|rules| rules.get_rules()),
        Some(vec![
            ("T_WHITESPACE".to_string(), r"^\s+".to_string()),
            ("T_IF".to_string(), "^if".to_string()),
            (String::new(), String::new()),
        ])
    );
}

#[test]
fn first_faulty_entry_is_reported() {
    let missing_token =
        Rules::from_entries(vec![entry(Some("a"), Some("a")), entry(None, Some("("))]);
    assert_eq!(missing_token.err(), Some(RulesError::MissingToken { index: 1 }));

    let missing_pattern = Rules::from_entries(vec![entry(Some("a"), None), entry(None, None)]);
    assert_eq!(missing_pattern.err(), Some(RulesError::MissingPattern { index: 0 }));

    let invalid_pattern = Rules::from_entries(vec![
        entry(Some("a"), Some("a+")),
        entry(Some("b"), Some("b")),
        entry(Some("c"), Some("foo(bar")),
        entry(Some("d"), None),
    ]);
    assert_eq!(invalid_pattern.err(), Some(RulesError::InvalidPattern { index: 2 }));
}
