//! The answers of the line-based prompts (text, confirm, toggle, list), their
//! options, and how a question's type tag picks a prompt.

use vstd::prelude::*;
use crate::chars::{trim_spaces, trimmed, same_text};
use crate::style::InputStyle;

verus! {

/// What `str::to_lowercase` returns for a text.
pub uninterp spec fn lowercase_of(s: Seq<char>) -> Seq<char>;

/// Relies on `str::to_lowercase`: the result depends on the characters alone,
/// and an empty text stays empty.
#[verifier::external_body]
fn to_lowercase(s: &str) -> (r: String)
    ensures
        r@ == lowercase_of(s@),
        s@.len() == 0 ==> r@.len() == 0,
{
    s.to_lowercase()
}

/// What `str::split` returns when cutting a text at each occurrence of a
/// separator.
pub uninterp spec fn pieces_of(s: Seq<char>, sep: Seq<char>) -> Seq<Seq<char>>;

/// `sep` occurs in `s` at index `k`.
pub open spec fn occurs_at(s: Seq<char>, sep: Seq<char>, k: int) -> bool {
    0 <= k && k + sep.len() <= s.len() && s.subrange(k, k + sep.len()) == sep
}

/// The first index at or after `k` where `sep` occurs in `s`.
pub open spec fn first_occurrence_from(s: Seq<char>, sep: Seq<char>, k: int) -> Option<int>
    decreases s.len() + 1 - k,
{
    if k < 0 || k + sep.len() > s.len() {
        None
    } else if occurs_at(s, sep, k) {
        Some(k)
    } else {
        first_occurrence_from(s, sep, k + 1)
    }
}

/// `s` cut at the leftmost occurrences of a non-empty `sep`, which do not
/// overlap: the text before the first one, then the rest cut the same way.
pub open spec fn split_text(s: Seq<char>, sep: Seq<char>) -> Seq<Seq<char>>
    decreases s.len(),
{
    match first_occurrence_from(s, sep, 0) {
        Some(k) => if sep.len() > 0 && 0 <= k && k + sep.len() <= s.len() {
            seq![s.take(k)] + split_text(s.skip(k + sep.len()), sep)
        } else {
            seq![s]
        },
        None => seq![s],
    }
}

/// Relies on `str::split` with a string separator: the pieces in order; for
/// a non-empty separator, the text between its leftmost non-overlapping
/// occurrences.
#[verifier::external_body]
fn split_on(s: &str, sep: &str) -> (r: Vec<String>)
    ensures
        r@.len() == pieces_of(s@, sep@).len(),
        forall|i: int| 0 <= i < r@.len() ==> #[trigger] r@[i]@ == pieces_of(s@, sep@)[i],
        sep@.len() > 0 ==> r@.len() == split_text(s@, sep@).len(),
        sep@.len() > 0 ==> forall|i: int|
            0 <= i < r@.len() ==> #[trigger] r@[i]@ == split_text(s@, sep@)[i],
{
    s.split(sep).map(|x| x.to_string()).collect()
}

/// A confirm answer from a lowercased, trimmed line: empty keeps `initial`,
/// `y` or `yes` is true, anything else false.
pub open spec fn confirm_decision(lowered: Seq<char>, initial: bool) -> bool {
    if lowered.len() == 0 {
        initial
    } else {
        lowered == "y"@ || lowered == "yes"@
    }
}

/// A toggle answer: as a confirm answer, with `on` true as well.
pub open spec fn toggle_decision(lowered: Seq<char>, initial: bool) -> bool {
    if lowered.len() == 0 {
        initial
    } else {
        lowered == "y"@ || lowered == "yes"@ || lowered == "on"@
    }
}

/// The confirm answer for an already lowercased, trimmed line.
pub fn confirm_value(lowered: &str, initial: bool) -> (r: bool)
    ensures
        r == confirm_decision(lowered@, initial),
{
    if lowered.unicode_len() == 0 {
        initial
    } else {
        same_text(lowered, "y") || same_text(lowered, "yes")
    }
}

/// The toggle answer for an already lowercased, trimmed line.
pub fn toggle_value(lowered: &str, initial: bool) -> (r: bool)
    ensures
        r == toggle_decision(lowered@, initial),
{
    if lowered.unicode_len() == 0 {
        initial
    } else {
        same_text(lowered, "y") || same_text(lowered, "yes") || same_text(lowered, "on")
    }
}

/// The confirm answer for a typed line.
pub fn confirm_answer(line: &str, initial: bool) -> (r: bool)
    ensures
        r == confirm_decision(lowercase_of(trimmed(line@)), initial),
        trimmed(line@).len() == 0 ==> r == initial,
{
    let t = trim_spaces(line);
    let lowered = to_lowercase(t.as_str());
    confirm_value(lowered.as_str(), initial)
}

/// The toggle answer for a typed line.
pub fn toggle_answer(line: &str, initial: bool) -> (r: bool)
    ensures
        r == toggle_decision(lowercase_of(trimmed(line@)), initial),
        trimmed(line@).len() == 0 ==> r == initial,
{
    let t = trim_spaces(line);
    let lowered = to_lowercase(t.as_str());
    toggle_value(lowered.as_str(), initial)
}

/// The text answer for a typed line: the trimmed line, or when that is
/// empty the initial value (empty when there is none).
pub fn text_answer(line: &str, initial: &Option<String>) -> (r: String)
    ensures
        trimmed(line@).len() > 0 ==> r@ == trimmed(line@),
        trimmed(line@).len() == 0 ==> r@ == match initial {
            Some(s) => s@,
            None => Seq::<char>::empty(),
        },
{
    let t = trim_spaces(line);
    if t.unicode_len() > 0 {
        t
    } else {
        match initial {
            Some(s) => s.clone(),
            None => String::new(),
        }
    }
}

/// The items of a list answer: `text` cut at each `sep`, each piece trimmed.
pub fn list_items(text: &str, sep: &str) -> (r: Vec<String>)
    ensures
        r@.len() == pieces_of(text@, sep@).len(),
        forall|i: int| 0 <= i < r@.len() ==> #[trigger] r@[i]@ == trimmed(pieces_of(text@, sep@)[i]),
        sep@.len() > 0 ==> r@.len() == split_text(text@, sep@).len(),
        sep@.len() > 0 ==> forall|i: int|
            0 <= i < r@.len() ==> #[trigger] r@[i]@ == trimmed(split_text(text@, sep@)[i]),
{
    let pieces = split_on(text, sep);
    let mut r: Vec<String> = Vec::new();
    let mut i: usize = 0;
    while i < pieces.len()
        invariant
            i <= pieces@.len(),
            pieces@.len() == pieces_of(text@, sep@).len(),
            forall|k: int| 0 <= k < pieces@.len() ==> #[trigger] pieces@[k]@ == pieces_of(text@, sep@)[k],
            sep@.len() > 0 ==> pieces@.len() == split_text(text@, sep@).len(),
            sep@.len() > 0 ==> forall|k: int|
                0 <= k < pieces@.len() ==> #[trigger] pieces@[k]@ == split_text(text@, sep@)[k],
            sep@.len() > 0 ==> forall|k: int|
                0 <= k < i ==> #[trigger] r@[k]@ == trimmed(split_text(text@, sep@)[k]),
            r@.len() == i,
            forall|k: int| 0 <= k < i ==> #[trigger] r@[k]@ == trimmed(pieces_of(text@, sep@)[k]),
        decreases pieces@.len() - i,
    {
        r.push(trim_spaces(pieces[i].as_str()));
        i = i + 1;
    }
    r
}

/// Confirm prompt options.
pub struct ConfirmPromptOptions {
    pub message: String,
    pub initial: bool,
    pub yes_msg: String,
    pub no_msg: String,
    pub yes_option: String,
    pub no_option: String,
}

impl Default for ConfirmPromptOptions {
    fn default() -> (r: ConfirmPromptOptions)
        ensures
            r.message@.len() == 0,
            !r.initial,
            r.yes_msg@ == "yes"@,
            r.no_msg@ == "no"@,
            r.yes_option@ == "(Y/n)"@,
            r.no_option@ == "(y/N)"@,
    {
        ConfirmPromptOptions {
            message: String::new(),
            initial: false,
            yes_msg: String::from_str("yes"),
            no_msg: String::from_str("no"),
            yes_option: String::from_str("(Y/n)"),
            no_option: String::from_str("(y/N)"),
        }
    }
}

/// Text prompt options.
pub struct TextPromptOptions {
    pub message: String,
    pub initial: Option<String>,
    pub style: InputStyle,
    pub error_msg: Option<String>,
}

impl Default for TextPromptOptions {
    fn default() -> (r: TextPromptOptions)
        ensures
            r.message@.len() == 0,
            r.initial is None,
            r.style == InputStyle::Default,
            r.error_msg matches Some(m) && m@ == "Please Enter A Valid Value"@,
    {
        TextPromptOptions {
            message: String::new(),
            initial: None,
            style: InputStyle::Default,
            error_msg: Some(String::from_str("Please Enter A Valid Value")),
        }
    }
}

/// Toggle prompt options.
pub struct TogglePromptOptions {
    pub message: String,
    pub initial: bool,
    pub active: String,
    pub inactive: String,
}

impl Default for TogglePromptOptions {
    fn default() -> (r: TogglePromptOptions)
        ensures
            r.message@.len() == 0,
            !r.initial,
            r.active@ == "on"@,
            r.inactive@ == "off"@,
    {
        TogglePromptOptions {
            message: String::new(),
            initial: false,
            active: String::from_str("on"),
            inactive: String::from_str("off"),
        }
    }
}

/// The prompt a question's type tag names.
#[derive(Clone, Copy, PartialEq, Eq, Debug, Structural)]
pub enum QuestionKind {
    Text,
    Password,
    Invisible,
    Number,
    Confirm,
    Toggle,
    Select,
    List,
}

/// The kind that a type tag names, if any.
pub open spec fn kind_named(tag: Seq<char>) -> Option<QuestionKind> {
    if tag == "text"@ {
        Some(QuestionKind::Text)
    } else if tag == "password"@ {
        Some(QuestionKind::Password)
    } else if tag == "invisible"@ {
        Some(QuestionKind::Invisible)
    } else if tag == "number"@ {
        Some(QuestionKind::Number)
    } else if tag == "confirm"@ {
        Some(QuestionKind::Confirm)
    } else if tag == "toggle"@ {
        Some(QuestionKind::Toggle)
    } else if tag == "select"@ {
        Some(QuestionKind::Select)
    } else if tag == "list"@ {
        Some(QuestionKind::List)
    } else {
        None
    }
}

/// Maps a question's type tag to the prompt it names.
pub fn question_kind(tag: &str) -> (r: Option<QuestionKind>)
    ensures
        r == kind_named(tag@),
{
    if same_text(tag, "text") {
        Some(QuestionKind::Text)
    } else if same_text(tag, "password") {
        Some(QuestionKind::Password)
    } else if same_text(tag, "invisible") {
        Some(QuestionKind::Invisible)
    } else if same_text(tag, "number") {
        Some(QuestionKind::Number)
    } else if same_text(tag, "confirm") {
        Some(QuestionKind::Confirm)
    } else if same_text(tag, "toggle") {
        Some(QuestionKind::Toggle)
    } else if same_text(tag, "select") {
        Some(QuestionKind::Select)
    } else if same_text(tag, "list") {
        Some(QuestionKind::List)
    } else {
        None
    }
}

/// What the sequencer does with one question.
#[derive(Clone, Copy, PartialEq, Eq, Debug, Structural)]
pub enum QuestionStep {
    /// The type tag is empty: the question is left out.
    Skip,
    /// The message is empty: the sequence fails.
    MissingMessage,
    /// The type tag names no prompt: the sequence fails.
    UnknownType,
    /// Run this prompt and record its answer under the question's name.
    Ask(QuestionKind),
}

/// Decides what happens to a question with type tag `tag` and `message`.
pub fn question_step(tag: &str, message: &str) -> (r: QuestionStep)
    ensures
        tag@.len() == 0 ==> r == QuestionStep::Skip,
        tag@.len() > 0 && message@.len() == 0 ==> r == QuestionStep::MissingMessage,
        tag@.len() > 0 && message@.len() > 0 ==> r == match kind_named(tag@) {
            Some(k) => QuestionStep::Ask(k),
            None => QuestionStep::UnknownType,
        },
{
    if tag.unicode_len() == 0 {
        QuestionStep::Skip
    } else if message.unicode_len() == 0 {
        QuestionStep::MissingMessage
    } else {
        match question_kind(tag) {
            Some(k) => QuestionStep::Ask(k),
            None => QuestionStep::UnknownType,
        }
    }
}

/// Base behavior shared by all prompts.
pub struct Prompt;

/// Relies on `ansi_escapes::Beep`, whose `Display` writes the BEL character.
#[verifier::external_body]
fn beep() -> (r: String)
    ensures
        r@ == seq!['\u{7}'],
{
    format!("{}", ansi_escapes::Beep)
}

impl Prompt {
    /// The text that rings the terminal bell.
    pub fn bell() -> (r: String)
        ensures
            r@ == seq!['\u{7}'],
    {
        beep()
    }
}

} // verus!
