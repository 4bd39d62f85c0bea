use ssm_moe::brain::decompose::{
    find_word, split_and_also_questions, split_enumerated_list, strip_list_marker, Decomposer,
    RuleBasedDecomposer,
};

#[test]
fn single_intent_prompt_unchanged() {
    let d = RuleBasedDecomposer;
    let prompt = "Write a function that reverses a linked list.";
    assert_eq!(d.decompose(prompt), vec![prompt.to_string()]);
}

#[test]
fn splits_bulleted_list() {
    let d = RuleBasedDecomposer;
    let prompt = "- Fix the login bug\n- Write tests for it";
    assert_eq!(
        d.decompose(prompt),
        vec!["Fix the login bug".to_string(), "Write tests for it".to_string()]
    );
}

#[test]
fn splits_numbered_list() {
    let d = RuleBasedDecomposer;
    let prompt = "1. Summarize this doc\n2. Translate it to French";
    assert_eq!(
        d.decompose(prompt),
        vec!["Summarize this doc".to_string(), "Translate it to French".to_string()]
    );
}

#[test]
fn splits_and_also_questions() {
    let d = RuleBasedDecomposer;
    let prompt = "What's the capital of France? And also, what's its population?";
    assert_eq!(
        d.decompose(prompt),
        vec![
            "What's the capital of France?".to_string(),
            "what's its population?".to_string()
        ]
    );
}

#[test]
fn single_question_unchanged() {
    let d = RuleBasedDecomposer;
    let prompt = "What's the capital of France?";
    assert_eq!(d.decompose(prompt), vec![prompt.to_string()]);
}

#[test]
fn mixed_markers_and_line_endings_split() {
    let d = RuleBasedDecomposer;
    let prompt = "  - first\r\n\r\n12) second \n* third\n7.fourth\n";
    assert_eq!(d.decompose(prompt), vec!["first", "second", "third", "fourth"]);
}

#[test]
fn prose_around_a_list_keeps_it_whole() {
    let d = RuleBasedDecomposer;
    let prompt = "Please do this:\n- one\n- two";
    assert_eq!(d.decompose(prompt), vec![prompt.to_string()]);
    assert!(split_enumerated_list(prompt).is_none());
    assert!(split_enumerated_list("- only one entry").is_none());
    assert!(split_enumerated_list("").is_none());
}

#[test]
fn list_markers_come_off() {
    assert_eq!(strip_list_marker("- a "), Some("a"));
    assert_eq!(strip_list_marker("* b"), Some("b"));
    assert_eq!(strip_list_marker("10. c"), Some("c"));
    assert_eq!(strip_list_marker("3) d"), Some("d"));
    assert_eq!(strip_list_marker("-e"), None);
    assert_eq!(strip_list_marker("42"), None);
    assert_eq!(strip_list_marker("4: f"), None);
    assert_eq!(strip_list_marker(""), None);
    assert_eq!(strip_list_marker("1."), Some(""));
    assert_eq!(strip_list_marker("- \u{3000}\u{e9}t\u{e9}\u{2028}"), Some("\u{e9}t\u{e9}"));
}

#[test]
fn questions_need_two_marks_and_the_word() {
    assert_eq!(
        split_and_also_questions("Who? Also, when?"),
        Some(vec!["Who?".to_string(), "when?".to_string()])
    );
    assert_eq!(
        split_and_also_questions("Who? and, also when?"),
        Some(vec!["Who?".to_string(), "when?".to_string()])
    );
    // a comma before the conjunction stays
    assert!(split_and_also_questions("Who?, and also when?").is_none());
    assert!(split_and_also_questions("Who is also there?").is_none());
    // what follows must hold a question as well
    assert!(split_and_also_questions("A? B? Also do C.").is_none());
    assert_eq!(
        split_and_also_questions("What is A? Also, what is B? Thanks."),
        Some(vec!["What is A?".to_string(), "what is B? Thanks.".to_string()])
    );
    assert!(split_and_also_questions("Who? And when?").is_none());
    assert!(split_and_also_questions("Qui\u{e9}n? Also, when?").is_none());
    assert!(split_and_also_questions("Who? When? Also").is_none());
    assert!(split_and_also_questions("Who, also? When?").is_none());
}

#[test]
fn words_are_found_whole() {
    assert_eq!(find_word("falso also", "also"), Some(6));
    assert_eq!(find_word("alsoalso also", "also"), Some(9));
    assert_eq!(find_word("also", "also"), Some(0));
    assert_eq!(find_word("(also)", "also"), Some(1));
    assert_eq!(find_word("also7", "also"), None);
    assert_eq!(find_word("\u{e9}also", "also"), Some(2));
    assert_eq!(find_word("", "also"), None);
    // the search goes on behind an occurrence that is part of a longer word
    assert_eq!(find_word("xa a a", "a a"), None);
    assert_eq!(find_word("", ""), Some(0));
}

#[test]
fn sub_tasks_are_parts_of_the_prompt() {
    let d = RuleBasedDecomposer;
    for prompt in [
        "1. a\n2. b",
        "Is it? Also, why?",
        "",
        "plain",
        "\u{65e5}\u{672c}\n- x\n- y",
    ] {
        let tasks = d.decompose(prompt);
        assert!(!tasks.is_empty());
        // each stands behind the one before it
        let mut rest = prompt;
        for t in tasks {
            let at = rest.find(t.as_str()).unwrap();
            rest = &rest[at + t.len()..];
        }
    }
}
