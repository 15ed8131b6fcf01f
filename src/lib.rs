//! Interactive command-line prompts: the decisions behind text, confirm, toggle,
//! list and select questions, ANSI escape handling and terminal line arithmetic.

pub mod action;
pub mod ansi;
pub mod answers;
pub mod chars;
pub mod clear;
pub mod figures;
pub mod lines;
pub mod select;
pub mod style;

pub use chars::{trim_spaces, eq_ignore_ascii_case, parse_decimal};
pub use ansi::{strip_ansi, stripped, escape_free, lemma_strip_idempotent};
pub use lines::{lines_count, line_rows, split_lines, lemma_unwrapped_rows};
pub use clear::{clear, clear_text, clear_rows};
pub use select::{
    Choice, SelectPromptOptions, SelectError, next_enabled, prev_enabled, initial_index,
    strip_arrow_escapes, parse_selection, resolve, select_from_line, line_choice, menu_erase, menu_marker,
    lemma_navigation_never_wraps, lemma_number_selects, lemma_name_selects,
    lemma_unmatched_falls_back, lemma_moves_keep_enabled,
    lemma_moves_stay_or_enable, lemma_answer_is_enabled, lemma_fed_keeps_enabled,
    lemma_session_answers_enabled, SelectSession, SelectStep, EscapeState,
};
pub use action::{Key, KeyName, PromptAction, key_action, action_for};
pub use figures::Figures;
pub use style::{InputStyle, StyleTransform, Tone, render_style, symbol_parts, delimiter_glyph};
pub use answers::{
    confirm_answer, confirm_value, toggle_answer, toggle_value, text_answer, list_items,
    ConfirmPromptOptions, TextPromptOptions, TogglePromptOptions, QuestionKind, QuestionStep,
    question_kind, question_step, Prompt,
};
