use prompts::{
    next_enabled, parse_selection, prev_enabled, select_from_line, strip_arrow_escapes, Choice,
    SelectError, SelectPromptOptions,
};

fn options(choices: Vec<Choice>, initial: Option<usize>) -> SelectPromptOptions {
    SelectPromptOptions {
        message: "Pick".into(),
        choices,
        initial,
        hint: None,
    }
}

#[test]
fn choice_new() {
    let c = Choice::new("Title", "value");
    assert_eq!(c.title, "Title");
    assert_eq!(c.value, "value");
    assert!(c.description.is_none());
    assert!(!c.disabled);
}

#[test]
fn run_select_by_number() {
    let opts = options(
        vec![
            Choice::new("One", "1"),
            Choice::new("Two", "2"),
            Choice::new("Three", "3"),
        ],
        None,
    );
    let r = select_from_line(&opts, "2\n");
    assert!(r.is_ok());
    assert_eq!(r.unwrap(), "2");
}

#[test]
fn run_select_by_title_case_insensitive() {
    let opts = options(
        vec![Choice::new("Apple", "apple"), Choice::new("Banana", "banana")],
        None,
    );
    let r = select_from_line(&opts, "BANANA\n");
    assert!(r.is_ok());
    assert_eq!(r.unwrap(), "banana");
}

#[test]
fn run_select_invalid_number_falls_back_to_initial_or_zero() {
    let opts = options(vec![Choice::new("A", "a"), Choice::new("B", "b")], Some(1));
    let r = select_from_line(&opts, "xyz\n");
    assert!(r.is_ok());
    assert_eq!(r.unwrap(), "b");
}

#[test]
fn run_select_disabled_choice_returns_err() {
    let mut c = Choice::new("Disabled", "d");
    c.disabled = true;
    let opts = options(vec![Choice::new("A", "a"), c], Some(1));
    let r = select_from_line(&opts, "2\n");
    assert!(r.is_err());
    assert_eq!(r.unwrap_err(), SelectError::Disabled);
}

#[test]
fn run_select_by_value() {
    let opts = options(
        vec![Choice::new("One", "val1"), Choice::new("Two", "val2")],
        None,
    );
    let r = select_from_line(&opts, "val2\n");
    assert!(r.is_ok());
    assert_eq!(r.unwrap(), "val2");
}

#[test]
fn run_select_input_with_arrow_escapes_stripped() {
    let opts = options(vec![Choice::new("One", "1"), Choice::new("Two", "2")], None);
    let r = select_from_line(&opts, "2\x1b[B\x1b[A\n");
    assert!(r.is_ok());
    assert_eq!(r.unwrap(), "2");
}

#[test]
fn strip_arrow_escapes_removes_ansi_sequences() {
    assert_eq!(strip_arrow_escapes("5"), "5");
    assert_eq!(strip_arrow_escapes("5\x1b[B\x1b[A"), "5");
    assert_eq!(strip_arrow_escapes("1\x1b[C\x1b[D"), "1");
}

#[test]
fn strip_arrow_escapes_keeps_incomplete_escape() {
    let s = "a\x1b";
    assert_eq!(strip_arrow_escapes(s), "a\x1b");
}

#[test]
fn parse_selection_by_number() {
    let opts = SelectPromptOptions {
        message: "".into(),
        choices: vec![Choice::new("A", "a"), Choice::new("B", "b")],
        initial: None,
        hint: None,
    };
    assert_eq!(parse_selection(&opts, "1"), 0);
    assert_eq!(parse_selection(&opts, "2"), 1);
}

#[test]
fn parse_selection_by_title_case_insensitive() {
    let opts = SelectPromptOptions {
        message: "".into(),
        choices: vec![Choice::new("Apple", "a"), Choice::new("Banana", "b")],
        initial: None,
        hint: None,
    };
    assert_eq!(parse_selection(&opts, "BANANA"), 1);
}

#[test]
fn parse_selection_by_value() {
    let opts = SelectPromptOptions {
        message: "".into(),
        choices: vec![Choice::new("One", "v1"), Choice::new("Two", "v2")],
        initial: None,
        hint: None,
    };
    assert_eq!(parse_selection(&opts, "v2"), 1);
}

#[test]
fn parse_selection_invalid_falls_back_to_initial() {
    let opts = SelectPromptOptions {
        message: "".into(),
        choices: vec![Choice::new("A", "a"), Choice::new("B", "b")],
        initial: Some(1),
        hint: None,
    };
    assert_eq!(parse_selection(&opts, "xyz"), 1);
}

#[test]
fn parse_selection_number_out_of_range_falls_back() {
    let opts = SelectPromptOptions {
        message: "".into(),
        choices: vec![Choice::new("A", "a")],
        initial: Some(0),
        hint: None,
    };
    assert_eq!(parse_selection(&opts, "99"), 0);
}

#[test]
fn next_enabled_skips_disabled() {
    let a = Choice::new("A", "a");
    let mut b = Choice::new("B", "b");
    b.disabled = true;
    let c = Choice::new("C", "c");
    let choices = vec![a, b, c];
    assert_eq!(next_enabled(&choices, 0), 2);
    assert_eq!(next_enabled(&choices, 2), 2);
}

#[test]
fn prev_enabled_skips_disabled() {
    let a = Choice::new("A", "a");
    let mut b = Choice::new("B", "b");
    b.disabled = true;
    let c = Choice::new("C", "c");
    let choices = vec![a, b, c];
    assert_eq!(prev_enabled(&choices, 2), 0);
    assert_eq!(prev_enabled(&choices, 0), 0);
}
