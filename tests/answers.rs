use prompts::{
    confirm_answer, confirm_value, list_items, question_kind, question_step, text_answer,
    toggle_answer, toggle_value, ConfirmPromptOptions, InputStyle, QuestionKind, QuestionStep,
    StyleTransform, TextPromptOptions, TogglePromptOptions,
};

#[test]
fn confirm_prompt_options_default() {
    let opts = ConfirmPromptOptions::default();
    assert!(opts.message.is_empty());
    assert!(!opts.initial);
    assert_eq!(opts.yes_msg, "yes");
    assert_eq!(opts.no_msg, "no");
    assert_eq!(opts.yes_option, "(Y/n)");
    assert_eq!(opts.no_option, "(y/N)");
}

#[test]
fn run_confirm_yes() {
    assert_eq!(confirm_answer("yes\n", false), true);
}

#[test]
fn run_confirm_y_yes() {
    assert_eq!(confirm_answer("y\n", false), true);
}

#[test]
fn run_confirm_no() {
    assert_eq!(confirm_answer("n\n", true), false);
}

#[test]
fn run_confirm_empty_uses_initial() {
    assert_eq!(confirm_answer("\n", true), true);
}

#[test]
fn run_confirm_no_returns_false() {
    assert_eq!(confirm_answer("no\n", true), false);
}

#[test]
fn run_confirm_n_returns_false() {
    assert_eq!(confirm_answer("n\n", true), false);
}

#[test]
fn run_confirm_empty_with_initial_false_returns_false() {
    assert_eq!(confirm_answer("\n", false), false);
}

#[test]
fn run_confirm_uppercase_yes_accepted() {
    assert_eq!(confirm_answer("YES\n", false), true);
}

#[test]
fn confirm_empty_line_with_initial_true() {
    assert_eq!(confirm_answer("", true), true);
}

#[test]
fn confirm_value_reads_lowered_text() {
    assert!(confirm_value("y", false));
    assert!(confirm_value("yes", false));
    assert!(!confirm_value("yess", true));
    assert!(!confirm_value("on", true));
    assert!(confirm_value("", true));
    assert!(!confirm_value("", false));
}

#[test]
fn toggle_prompt_options_default() {
    let opts = TogglePromptOptions::default();
    assert!(opts.message.is_empty());
    assert!(!opts.initial);
    assert_eq!(opts.active, "on");
    assert_eq!(opts.inactive, "off");
}

#[test]
fn run_toggle_on() {
    assert_eq!(toggle_answer("y\n", false), true);
}

#[test]
fn run_toggle_yes_on() {
    assert_eq!(toggle_answer("yes\n", false), true);
}

#[test]
fn run_toggle_off() {
    assert_eq!(toggle_answer("n\n", true), false);
}

#[test]
fn run_toggle_empty_uses_initial() {
    assert_eq!(toggle_answer("\n", true), true);
}

#[test]
fn run_toggle_on_input_turns_on() {
    assert_eq!(toggle_answer("on\n", false), true);
}

#[test]
fn run_toggle_no_turns_off() {
    assert_eq!(toggle_answer("no\n", true), false);
}

#[test]
fn run_toggle_unknown_input_returns_false() {
    assert_eq!(toggle_answer("maybe\n", true), false);
}

#[test]
fn run_toggle_unknown_input_with_initial_false_returns_false() {
    assert_eq!(toggle_answer("maybe\n", false), false);
}

#[test]
fn toggle_on_ignores_initial() {
    assert!(toggle_answer("on", true));
    assert!(toggle_answer("on", false));
    assert!(toggle_answer("  ON \n", false));
    assert!(toggle_value("on", false));
    assert!(!toggle_value("off", true));
}

#[test]
fn text_prompt_options_default() {
    let opts = TextPromptOptions::default();
    assert!(opts.message.is_empty());
    assert!(opts.initial.is_none());
    assert_eq!(opts.style, InputStyle::Default);
    assert!(opts.error_msg.is_some());
}

#[test]
fn run_text_returns_entered_value() {
    assert_eq!(text_answer("Bob\n", &None), "Bob");
}

#[test]
fn run_text_empty_uses_initial() {
    assert_eq!(text_answer("\n", &Some("default".into())), "default");
}

#[test]
fn run_text_trims_input() {
    assert_eq!(text_answer("  spaced  \n", &None), "spaced");
}

#[test]
fn run_text_password_style_masks_output() {
    let value = text_answer("hello\n", &None);
    assert_eq!(value, "hello");
    let shown = StyleTransform { scale: 1 }.render(&value, InputStyle::Password);
    assert!(shown.contains("*****"));
}

#[test]
fn run_text_empty_input_no_initial_returns_empty_string() {
    assert_eq!(text_answer("\n", &None), "");
}

#[test]
fn run_text_invisible_style_returns_value_but_hides_in_output() {
    let value = text_answer("secret\n", &None);
    assert_eq!(value, "secret");
    let shown = StyleTransform { scale: 0 }.render(&value, InputStyle::Invisible);
    assert!(!shown.contains("secret"));
}

#[test]
fn run_text_whitespace_only_treated_as_empty_uses_initial() {
    assert_eq!(text_answer("   \n", &Some("default".into())), "default");
}

#[test]
fn text_trims_unicode_whitespace() {
    assert_eq!(text_answer("\u{3000}\u{a0}name\u{2003}\t", &None), "name");
}

#[test]
fn run_prompt_list_split() {
    let items = list_items("a, b , c", ",");
    assert_eq!(items, vec!["a".to_string(), "b".to_string(), "c".to_string()]);
}

#[test]
fn list_items_custom_separator_and_empty_pieces() {
    assert_eq!(list_items("x;;y", ";"), vec!["x", "", "y"]);
    assert_eq!(list_items("", ","), vec![""]);
    assert_eq!(list_items("one", ","), vec!["one"]);
}

#[test]
fn question_kind_names() {
    assert_eq!(question_kind("text"), Some(QuestionKind::Text));
    assert_eq!(question_kind("password"), Some(QuestionKind::Password));
    assert_eq!(question_kind("invisible"), Some(QuestionKind::Invisible));
    assert_eq!(question_kind("number"), Some(QuestionKind::Number));
    assert_eq!(question_kind("confirm"), Some(QuestionKind::Confirm));
    assert_eq!(question_kind("toggle"), Some(QuestionKind::Toggle));
    assert_eq!(question_kind("select"), Some(QuestionKind::Select));
    assert_eq!(question_kind("list"), Some(QuestionKind::List));
    assert_eq!(question_kind("Text"), None);
    assert_eq!(question_kind("invalid_type"), None);
}

#[test]
fn prompt_skips_empty_type_name() {
    assert_eq!(question_step("", "Skipped?"), QuestionStep::Skip);
    assert_eq!(question_step("", ""), QuestionStep::Skip);
}

#[test]
fn prompt_requires_message() {
    assert_eq!(question_step("text", ""), QuestionStep::MissingMessage);
}

#[test]
fn prompt_returns_err_on_invalid_question_type() {
    assert_eq!(question_step("invalid_type", "Msg"), QuestionStep::UnknownType);
}

#[test]
fn question_step_asks_known_kind() {
    assert_eq!(question_step("confirm", "Ok?"), QuestionStep::Ask(QuestionKind::Confirm));
}

#[test]
fn list_items_cut_at_leftmost_non_overlapping_separators() {
    assert_eq!(list_items("aaa", "aa"), vec!["", "a"]);
    assert_eq!(list_items("x--y--", "--"), vec!["x", "y", ""]);
}
