//! The single-choice menu: choices, navigation over enabled entries, the
//! selection-parsing rule, and the byte-driven engine behind the interactive
//! menu.

use vstd::prelude::*;
use crate::chars::{
    trim_spaces, trimmed, eq_ignore_ascii_case, equal_ignoring_case, parse_decimal,
    parsed_usize, push_char, chars_of,
};
use crate::clear::{erase_lines, erase_lines_text};
use crate::figures::Figures;

verus! {

/// Single choice option.
#[derive(Clone)]
pub struct Choice {
    pub title: String,
    pub value: String,
    pub description: Option<String>,
    pub disabled: bool,
}

impl Choice {
    /// Builds a choice with the given title and value; description and disabled are defaulted.
    pub fn new(title: &str, value: &str) -> (r: Choice)
        ensures
            r.title@ == title@,
            r.value@ == value@,
            r.description is None,
            !r.disabled,
    {
        Choice {
            title: String::from_str(title),
            value: String::from_str(value),
            description: None,
            disabled: false,
        }
    }
}

/// Select prompt options.
pub struct SelectPromptOptions {
    pub message: String,
    pub choices: Vec<Choice>,
    pub initial: Option<usize>,
    pub hint: Option<String>,
}

/// Why a selection cannot be returned.
#[derive(Debug, PartialEq, Eq, Structural, Clone, Copy)]
pub enum SelectError {
    /// The resolved index addresses no choice.
    OutOfRange,
    /// The resolved choice is disabled.
    Disabled,
}

impl SelectError {
    /// The error's text.
    pub fn message(&self) -> (r: &'static str)
        ensures
            *self == SelectError::OutOfRange ==> r@ == "invalid choice"@,
            *self == SelectError::Disabled ==> r@ == "selected option is disabled"@,
    {
        match self {
            SelectError::OutOfRange => "invalid choice",
            SelectError::Disabled => "selected option is disabled",
        }
    }
}

/// Index `i` addresses a choice that can be selected.
pub open spec fn is_enabled(cs: Seq<Choice>, i: int) -> bool {
    0 <= i < cs.len() && !cs[i].disabled
}

/// First enabled index at or after `j`, or `current` when there is none.
pub open spec fn forward_from(cs: Seq<Choice>, j: int, current: int) -> int
    decreases cs.len() - j,
{
    if j < 0 || j >= cs.len() {
        current
    } else if !cs[j].disabled {
        j
    } else {
        forward_from(cs, j + 1, current)
    }
}

/// Last enabled index at or before `j`, or `current` when there is none.
pub open spec fn backward_from(cs: Seq<Choice>, j: int, current: int) -> int
    decreases j + 1,
{
    if j < 0 || j >= cs.len() {
        current
    } else if !cs[j].disabled {
        j
    } else {
        backward_from(cs, j - 1, current)
    }
}

/// Where moving down from `current` lands: the nearest enabled choice after it.
pub open spec fn next_enabled_index(cs: Seq<Choice>, current: int) -> int {
    forward_from(cs, current + 1, current)
}

/// Where moving up from `current` lands: the nearest enabled choice before it.
pub open spec fn prev_enabled_index(cs: Seq<Choice>, current: int) -> int {
    backward_from(cs, current - 1, current)
}

proof fn lemma_forward_from(cs: Seq<Choice>, j: int, current: int)
    requires
        0 <= current < j,
    ensures
        forward_from(cs, j, current) == current || (j <= forward_from(cs, j, current) < cs.len()
            && is_enabled(cs, forward_from(cs, j, current))),
        forward_from(cs, j, current) == current ==> forall|k: int|
            j <= k < cs.len() ==> #[trigger] cs[k].disabled,
        forall|k: int|
            j <= k < forward_from(cs, j, current) && k < cs.len() ==> #[trigger] cs[k].disabled,
    decreases cs.len() - j,
{
    if j < cs.len() && cs[j].disabled {
        lemma_forward_from(cs, j + 1, current);
    }
}

proof fn lemma_backward_from(cs: Seq<Choice>, j: int, current: int)
    requires
        j < current <= cs.len(),
    ensures
        backward_from(cs, j, current) == current || (0 <= backward_from(cs, j, current) <= j
            && is_enabled(cs, backward_from(cs, j, current))),
        backward_from(cs, j, current) == current ==> forall|k: int|
            0 <= k <= j ==> #[trigger] cs[k].disabled,
    decreases j + 1,
{
    if j >= 0 && cs[j].disabled {
        lemma_backward_from(cs, j - 1, current);
    }
}

/// Returns next enabled index when moving down, or same if none.
pub fn next_enabled(choices: &[Choice], current: usize) -> (r: usize)
    ensures
        r == next_enabled_index(choices@, current as int),
{
    let mut i: usize = current;
    while i < choices.len() && i + 1 < choices.len() && choices[i + 1].disabled
        invariant
            current <= i,
            next_enabled_index(choices@, current as int) == forward_from(
                choices@,
                i + 1,
                current as int,
            ),
        decreases choices@.len() - i,
    {
        i = i + 1;
    }
    if i < choices.len() && i + 1 < choices.len() {
        i + 1
    } else {
        current
    }
}

/// Returns previous enabled index when moving up, or same if none.
pub fn prev_enabled(choices: &[Choice], current: usize) -> (r: usize)
    ensures
        r == prev_enabled_index(choices@, current as int),
{
    if current > choices.len() {
        return current;
    }
    let mut i: usize = current;
    while i > 0 && choices[i - 1].disabled
        invariant
            i <= current <= choices@.len(),
            prev_enabled_index(choices@, current as int) == backward_from(
                choices@,
                i - 1,
                current as int,
            ),
        decreases i,
    {
        i = i - 1;
    }
    if i > 0 {
        i - 1
    } else {
        current
    }
}

/// Moving never wraps around: down lands at or after the start, up at or before
/// it; down from the last enabled choice and up from the first stay in place.
pub proof fn lemma_navigation_never_wraps(cs: Seq<Choice>, i: int)
    requires
        0 <= i < cs.len(),
    ensures
        i <= next_enabled_index(cs, i),
        prev_enabled_index(cs, i) <= i,
        (forall|k: int| i < k < cs.len() ==> #[trigger] cs[k].disabled) ==> next_enabled_index(
            cs,
            i,
        ) == i,
        (forall|k: int| 0 <= k < i ==> #[trigger] cs[k].disabled) ==> prev_enabled_index(cs, i)
            == i,
{
    lemma_forward_from(cs, i + 1, i);
    lemma_backward_from(cs, i - 1, i);
    if forall|k: int| i < k < cs.len() ==> #[trigger] cs[k].disabled {
        let n = next_enabled_index(cs, i);
        if n != i {
            assert(cs[n].disabled);
        }
    }
    if forall|k: int| 0 <= k < i ==> #[trigger] cs[k].disabled {
        let p = prev_enabled_index(cs, i);
        if p != i {
            assert(cs[p].disabled);
        }
    }
}

/// Where the menu starts: `initial` (or 0), clamped to the last choice;
/// moved down to the nearest enabled choice when it addresses a disabled one.
pub open spec fn initial_selection(cs: Seq<Choice>, initial: Option<usize>) -> int {
    let start = match initial {
        Some(i) => if i < cs.len() {
            i as int
        } else if cs.len() > 0 {
            cs.len() - 1
        } else {
            0
        },
        None => 0,
    };
    if start < cs.len() && cs[start].disabled {
        next_enabled_index(cs, start)
    } else {
        start
    }
}

/// The index the menu starts on.
pub fn initial_index(opts: &SelectPromptOptions) -> (r: usize)
    ensures
        r == initial_selection(opts.choices@, opts.initial),
        opts.choices@.len() > 0 ==> r < opts.choices@.len(),
{
    let n = opts.choices.len();
    let start: usize = match opts.initial {
        Some(i) => if i < n {
            i
        } else if n > 0 {
            n - 1
        } else {
            0
        },
        None => 0,
    };
    if start < n && opts.choices[start].disabled {
        proof {
            lemma_forward_from(opts.choices@, start + 1, start as int);
        }
        next_enabled(opts.choices.as_slice(), start)
    } else {
        start
    }
}

pub open spec fn is_arrow_letter(c: char) -> bool {
    c == 'A' || c == 'B' || c == 'C' || c == 'D'
}

/// An arrow-key sequence `ESC [ A|B|C|D` starts at `i`.
pub open spec fn arrow_at(s: Seq<char>, i: int) -> bool {
    0 <= i && i + 3 <= s.len() && s[i] == '\u{1b}' && s[i + 1] == '[' && is_arrow_letter(
        s[i + 2],
    )
}

/// `s` from `i` on, scanned left to right, without arrow-key sequences.
pub open spec fn arrows_removed_from(s: Seq<char>, i: int) -> Seq<char>
    decreases s.len() - i,
{
    if i < 0 || i >= s.len() {
        Seq::empty()
    } else if arrow_at(s, i) {
        arrows_removed_from(s, i + 3)
    } else {
        seq![s[i]] + arrows_removed_from(s, i + 1)
    }
}

pub open spec fn arrows_removed(s: Seq<char>) -> Seq<char> {
    arrows_removed_from(s, 0)
}

/// Strip ANSI arrow key sequences from input so "5^[[B^[[A" becomes "5".
pub fn strip_arrow_escapes(s: &str) -> (r: String)
    ensures
        r@ == arrows_removed(s@),
{
    let v = chars_of(s);
    let n = v.len();
    let mut out = String::new();
    let mut i: usize = 0;
    while i < n
        invariant
            n == v@.len(),
            i <= n,
            out@ + arrows_removed_from(v@, i as int) == arrows_removed(v@),
        decreases n - i,
    {
        if n - i >= 3 && v[i] == '\u{1b}' && v[i + 1] == '[' && (v[i + 2] == 'A' || v[i + 2]
            == 'B' || v[i + 2] == 'C' || v[i + 2] == 'D') {
            i = i + 3;
        } else {
            push_char(&mut out, v[i]);
            assert(out@ + arrows_removed_from(v@, i + 1) =~= arrows_removed(v@));
            i = i + 1;
        }
    }
    assert(out@ =~= arrows_removed(v@));
    out
}

/// Text with no escape character loses nothing to arrow removal.
pub proof fn lemma_arrows_removed_plain(s: Seq<char>, i: int)
    requires
        0 <= i <= s.len(),
        forall|k: int| 0 <= k < s.len() ==> #[trigger] s[k] != '\u{1b}',
    ensures
        arrows_removed_from(s, i) == s.skip(i),
    decreases s.len() - i,
{
    if i < s.len() {
        lemma_arrows_removed_plain(s, i + 1);
        assert(s.skip(i) =~= seq![s[i]] + s.skip(i + 1));
    } else {
        assert(s.skip(i) =~= Seq::<char>::empty());
    }
}

/// `raw` names choice `c` by its title or its value, ignoring ASCII case.
pub open spec fn names_choice(c: Choice, raw: Seq<char>) -> bool {
    equal_ignoring_case(c.title@, raw) || equal_ignoring_case(c.value@, raw)
}

/// First choice at or after `j` that `raw` names.
pub open spec fn first_named_from(cs: Seq<Choice>, raw: Seq<char>, j: int) -> Option<int>
    decreases cs.len() - j,
{
    if j < 0 || j >= cs.len() {
        None
    } else if names_choice(cs[j], raw) {
        Some(j)
    } else {
        first_named_from(cs, raw, j + 1)
    }
}

/// The selection-parsing rule: an integer in `1..=len` picks that choice
/// (1-based); else the first choice whose title or value equals `raw` up to
/// ASCII case; else `initial`, or 0 when there is none.
pub open spec fn selection_index(cs: Seq<Choice>, initial: Option<usize>, raw: Seq<char>) -> int {
    let numbered = match parsed_usize(raw) {
        Some(n) => 1 <= n <= cs.len(),
        None => false,
    };
    if numbered {
        parsed_usize(raw)->0 - 1
    } else {
        match first_named_from(cs, raw, 0) {
            Some(i) => i,
            None => match initial {
                Some(i) => i as int,
                None => 0,
            },
        }
    }
}

/// The index that a typed line selects: trimmed, arrow-key sequences removed,
/// then the selection-parsing rule.
pub open spec fn line_selection(cs: Seq<Choice>, initial: Option<usize>, line: Seq<char>) -> int {
    selection_index(cs, initial, arrows_removed(trimmed(line)))
}

proof fn lemma_first_named_from(cs: Seq<Choice>, raw: Seq<char>, j: int)
    requires
        0 <= j,
    ensures
        first_named_from(cs, raw, j) matches Some(i) ==> j <= i < cs.len() && names_choice(
            cs[i],
            raw,
        ) && forall|k: int| j <= k < i ==> !names_choice(#[trigger] cs[k], raw),
        first_named_from(cs, raw, j) is None ==> forall|k: int|
            j <= k < cs.len() ==> !names_choice(#[trigger] cs[k], raw),
    decreases cs.len() - j,
{
    if j < cs.len() && !names_choice(cs[j], raw) {
        lemma_first_named_from(cs, raw, j + 1);
    }
}

/// Parse "number" or "name" into choice index.
pub fn parse_selection(opts: &SelectPromptOptions, raw: &str) -> (r: usize)
    ensures
        r as int == selection_index(opts.choices@, opts.initial, raw@),
{
    let n = opts.choices.len();
    match parse_decimal(raw) {
        Some(k) => {
            if 1 <= k && k <= n {
                return k - 1;
            }
        },
        None => {},
    }
    let mut j: usize = 0;
    while j < n
        invariant
            n == opts.choices@.len(),
            j <= n,
            match parsed_usize(raw@) {
                Some(k) => !(1 <= k <= n),
                None => true,
            },
            first_named_from(opts.choices@, raw@, 0) == first_named_from(
                opts.choices@,
                raw@,
                j as int,
            ),
        decreases n - j,
    {
        let c = &opts.choices[j];
        if eq_ignore_ascii_case(c.title.as_str(), raw) || eq_ignore_ascii_case(
            c.value.as_str(),
            raw,
        ) {
            assert(names_choice(opts.choices@[j as int], raw@));
            assert(first_named_from(opts.choices@, raw@, j as int) == Some(j as int));
            return j;
        }
        j = j + 1;
    }
    match opts.initial {
        Some(i) => i,
        None => 0,
    }
}

/// A line that, once trimmed, reads as an integer `n` in `1..=len` selects
/// choice `n - 1`, whatever whitespace surrounds it.
pub proof fn lemma_number_selects(cs: Seq<Choice>, initial: Option<usize>, line: Seq<char>, n: nat)
    requires
        parsed_usize(trimmed(line)) == Some(n),
        1 <= n <= cs.len(),
    ensures
        line_selection(cs, initial, line) == n - 1,
{
    let t = trimmed(line);
    let d = crate::chars::unsigned_digits(t);
    assert forall|k: int| 0 <= k < t.len() implies #[trigger] t[k] != '\u{1b}' by {
        if t.len() > 0 && t[0] == '+' {
            if k > 0 {
                assert(t[k] == d[k - 1]);
                assert(crate::chars::is_digit(d[k - 1]));
            }
        } else {
            assert(crate::chars::is_digit(d[k]));
        }
    }
    lemma_arrows_removed_plain(t, 0);
    assert(t.skip(0) =~= t);
}

/// Text that names choice `i` by title or value, ignoring ASCII case, and
/// names no earlier one, selects `i` unless it reads as an in-range integer.
pub proof fn lemma_name_selects(cs: Seq<Choice>, initial: Option<usize>, raw: Seq<char>, i: int)
    requires
        0 <= i < cs.len(),
        names_choice(cs[i], raw),
        forall|j: int| 0 <= j < i ==> !names_choice(#[trigger] cs[j], raw),
        !(parsed_usize(raw) matches Some(n) && 1 <= n <= cs.len()),
    ensures
        selection_index(cs, initial, raw) == i,
{
    lemma_first_named_from(cs, raw, 0);
    match first_named_from(cs, raw, 0) {
        Some(m) => {
            if m < i {
                assert(!names_choice(cs[m], raw));
            } else if m > i {
                assert(!names_choice(cs[i], raw));
            }
        },
        None => {
            assert(!names_choice(cs[i], raw));
        },
    }
}

/// Text that is no in-range integer and names no choice selects `initial`,
/// or 0 when there is none.
pub proof fn lemma_unmatched_falls_back(cs: Seq<Choice>, initial: Option<usize>, raw: Seq<char>)
    requires
        !(parsed_usize(raw) matches Some(n) && 1 <= n <= cs.len()),
        forall|j: int| 0 <= j < cs.len() ==> !names_choice(#[trigger] cs[j], raw),
    ensures
        selection_index(cs, initial, raw) == match initial {
            Some(k) => k as int,
            None => 0,
        },
{
    lemma_first_named_from(cs, raw, 0);
    if let Some(m) = first_named_from(cs, raw, 0) {
        assert(!names_choice(cs[m], raw));
    }
}

/// What resolving index `i` gives: its value when it addresses an enabled
/// choice, else the error that says why not.
pub open spec fn resolves_to(cs: Seq<Choice>, i: int, r: Result<String, SelectError>) -> bool {
    if i < 0 || i >= cs.len() {
        r == Err::<String, SelectError>(SelectError::OutOfRange)
    } else if cs[i].disabled {
        r == Err::<String, SelectError>(SelectError::Disabled)
    } else {
        r matches Ok(v) && v@ == cs[i].value@
    }
}

/// The value of the choice at `i`, which must exist and be enabled.
pub fn resolve(opts: &SelectPromptOptions, i: usize) -> (r: Result<String, SelectError>)
    ensures
        resolves_to(opts.choices@, i as int, r),
        r matches Ok(v) ==> exists|k: int|
            is_enabled(opts.choices@, k) && v@ == #[trigger] opts.choices@[k].value@,
{
    if i >= opts.choices.len() {
        return Err(SelectError::OutOfRange);
    }
    let c = &opts.choices[i];
    if c.disabled {
        return Err(SelectError::Disabled);
    }
    let v = c.value.clone();
    assert(is_enabled(opts.choices@, i as int) && v@ == opts.choices@[i as int].value@);
    Ok(v)
}

/// The index that a typed line selects.
pub fn line_choice(opts: &SelectPromptOptions, line: &str) -> (r: usize)
    ensures
        r as int == line_selection(opts.choices@, opts.initial, line@),
{
    let t = trim_spaces(line);
    let raw = strip_arrow_escapes(t.as_str());
    parse_selection(opts, raw.as_str())
}

/// The line-based menu: resolves one typed line to a choice's value.
pub fn select_from_line(opts: &SelectPromptOptions, line: &str) -> (r: Result<
    String,
    SelectError,
>)
    ensures
        resolves_to(opts.choices@, line_selection(opts.choices@, opts.initial, line@), r),
        r matches Ok(v) ==> exists|k: int|
            is_enabled(opts.choices@, k) && v@ == #[trigger] opts.choices@[k].value@,
{
    let i = line_choice(opts, line);
    resolve(opts, i)
}

/// The marker drawn before choice `i` of a menu: the small pointer on an
/// enabled choice that is the selected one (on every enabled choice when the
/// menu has no selection), else a blank.
pub fn menu_marker(fig: &Figures, c: &Choice, i: usize, selected: Option<usize>) -> (r:
    &'static str)
    ensures
        !c.disabled && (selected is None || selected == Some(i)) ==> r == fig.pointer_small,
        !(!c.disabled && (selected is None || selected == Some(i))) ==> r@ == " "@,
{
    let marked = match selected {
        Some(s) => s == i,
        None => true,
    };
    if !c.disabled && marked {
        fig.pointer_small
    } else {
        " "
    }
}

/// Escape of `n_choices` menu rows plus the message, hint and answer rows,
/// leaving the cursor at the start of the topmost.
pub fn menu_erase(n_choices: usize) -> (r: String)
    ensures
        r@ == erase_lines_text(vstd::math::min(n_choices + 3, u16::MAX as int) as nat),
{
    let rows: u16 = if n_choices < 65532 {
        (n_choices + 3) as u16
    } else {
        65535
    };
    erase_lines(rows)
}

/// Where the engine stands inside an escape sequence.
#[derive(Debug, PartialEq, Eq, Structural, Clone, Copy)]
pub enum EscapeState {
    /// Not inside one.
    Idle,
    /// An ESC byte was read.
    AfterEscape,
    /// ESC and one more byte were read; `true` when that byte was `[`.
    AfterIntroducer(bool),
}

/// What the caller does after handing the engine one byte.
#[derive(Debug, PartialEq, Eq, Structural, Clone, Copy)]
pub enum SelectStep {
    /// Read the next byte.
    Continue,
    /// Erase the menu, draw it again with the current selection, read on.
    Redraw,
    /// The answer is submitted: stop reading and call `finish`.
    Submit,
}

/// The interactive menu's state between bytes: the selected index, the text
/// typed since the last redraw, and progress through an escape sequence.
pub struct SelectSession {
    pub selected: usize,
    pub typed: String,
    pub escape: EscapeState,
}

/// A graphic ASCII byte or a space.
pub open spec fn is_printable(b: u8) -> bool {
    0x20 <= b <= 0x7e
}

/// The selection after a submit: the typed text's choice when text was typed
/// and it selects an enabled choice, else the current selection.
pub open spec fn submitted_selection(
    cs: Seq<Choice>,
    initial: Option<usize>,
    selected: int,
    typed: Seq<char>,
) -> int {
    if typed.len() > 0 && is_enabled(cs, line_selection(cs, initial, typed)) {
        line_selection(cs, initial, typed)
    } else {
        selected
    }
}

/// The selection after the escape sequence `ESC x b`: up for `ESC [ A`, down
/// for `ESC [ B`, unchanged otherwise.
pub open spec fn moved_selection(cs: Seq<Choice>, selected: int, bracket: bool, b: u8) -> int {
    if bracket && b == 0x41 {
        prev_enabled_index(cs, selected)
    } else if bracket && b == 0x42 {
        next_enabled_index(cs, selected)
    } else {
        selected
    }
}

/// The engine's state as plain values: selected index, typed text, and
/// progress through an escape sequence.
pub type EngineState = (int, Seq<char>, EscapeState);

/// The state after one input byte.
pub open spec fn stepped(
    cs: Seq<Choice>,
    initial: Option<usize>,
    st: EngineState,
    b: u8,
) -> EngineState {
    match st.2 {
        EscapeState::Idle => if b == 0x0d || b == 0x0a {
            (submitted_selection(cs, initial, st.0, st.1), Seq::empty(), EscapeState::Idle)
        } else if b == 0x1b {
            (st.0, st.1, EscapeState::AfterEscape)
        } else if is_printable(b) {
            (st.0, st.1.push(b as char), EscapeState::Idle)
        } else {
            (st.0, st.1, EscapeState::Idle)
        },
        EscapeState::AfterEscape => (st.0, st.1, EscapeState::AfterIntroducer(b == 0x5b)),
        EscapeState::AfterIntroducer(bracket) => (
            moved_selection(cs, st.0, bracket, b),
            Seq::empty(),
            EscapeState::Idle,
        ),
    }
}

/// What the caller does after one input byte: submit on CR or LF outside an
/// escape sequence, redraw when a sequence ends, else read on.
pub open spec fn step_taken(escape: EscapeState, b: u8) -> SelectStep {
    match escape {
        EscapeState::Idle => if b == 0x0d || b == 0x0a {
            SelectStep::Submit
        } else {
            SelectStep::Continue
        },
        EscapeState::AfterEscape => SelectStep::Continue,
        EscapeState::AfterIntroducer(_) => SelectStep::Redraw,
    }
}

/// The state after the bytes `bytes`, one at a time.
pub open spec fn fed(
    cs: Seq<Choice>,
    initial: Option<usize>,
    st: EngineState,
    bytes: Seq<u8>,
) -> EngineState
    decreases bytes.len(),
{
    if bytes.len() == 0 {
        st
    } else {
        fed(cs, initial, stepped(cs, initial, st, bytes[0]), bytes.drop_first())
    }
}

/// Moving from an enabled choice lands on an enabled choice.
pub proof fn lemma_moves_keep_enabled(cs: Seq<Choice>, i: int)
    requires
        is_enabled(cs, i),
    ensures
        is_enabled(cs, next_enabled_index(cs, i)),
        is_enabled(cs, prev_enabled_index(cs, i)),
{
    lemma_forward_from(cs, i + 1, i);
    lemma_backward_from(cs, i - 1, i);
}

/// A move either stays in place or lands on an enabled choice.
pub proof fn lemma_moves_stay_or_enable(cs: Seq<Choice>, i: int)
    requires
        0 <= i,
    ensures
        next_enabled_index(cs, i) == i || is_enabled(cs, next_enabled_index(cs, i)),
        prev_enabled_index(cs, i) == i || is_enabled(cs, prev_enabled_index(cs, i)),
{
    lemma_forward_from(cs, i + 1, i);
    if i <= cs.len() {
        lemma_backward_from(cs, i - 1, i);
    }
}

/// Whichever path picked index `i`, a resolved answer is the value of an
/// enabled choice: a disabled choice's value is never returned for it.
pub proof fn lemma_answer_is_enabled(cs: Seq<Choice>, i: int, r: Result<String, SelectError>)
    requires
        resolves_to(cs, i, r),
    ensures
        r matches Ok(v) ==> is_enabled(cs, i) && v@ == cs[i].value@,
        r matches Ok(v) ==> exists|k: int| is_enabled(cs, k) && v@ == #[trigger] cs[k].value@,
{
    if let Ok(v) = r {
        assert(is_enabled(cs, i) && v@ == cs[i].value@);
    }
}

/// Once on an enabled choice, the engine stays on enabled choices whatever
/// bytes follow.
pub proof fn lemma_fed_keeps_enabled(
    cs: Seq<Choice>,
    initial: Option<usize>,
    st: EngineState,
    bytes: Seq<u8>,
)
    requires
        is_enabled(cs, st.0),
    ensures
        is_enabled(cs, fed(cs, initial, st, bytes).0),
    decreases bytes.len(),
{
    if bytes.len() > 0 {
        lemma_moves_keep_enabled(cs, st.0);
        lemma_fed_keeps_enabled(cs, initial, stepped(cs, initial, st, bytes[0]), bytes.drop_first());
    }
}

/// A menu that starts on an enabled choice answers, after any input, with
/// the value of an enabled choice, and never fails.
pub proof fn lemma_session_answers_enabled(
    cs: Seq<Choice>,
    initial: Option<usize>,
    bytes: Seq<u8>,
    r: Result<String, SelectError>,
)
    requires
        is_enabled(cs, initial_selection(cs, initial)),
        resolves_to(
            cs,
            fed(cs, initial, (initial_selection(cs, initial), Seq::empty(), EscapeState::Idle), bytes).0,
            r,
        ),
    ensures
        r matches Ok(v) && exists|k: int| is_enabled(cs, k) && v@ == #[trigger] cs[k].value@,
{
    let st = (initial_selection(cs, initial), Seq::<char>::empty(), EscapeState::Idle);
    lemma_fed_keeps_enabled(cs, initial, st, bytes);
    lemma_answer_is_enabled(cs, fed(cs, initial, st, bytes).0, r);
}

impl SelectSession {
    /// A session on the menu's initial selection.
    pub fn new(opts: &SelectPromptOptions) -> (r: SelectSession)
        ensures
            r.selected == initial_selection(opts.choices@, opts.initial),
            r.typed@.len() == 0,
            r.escape == EscapeState::Idle,
    {
        SelectSession { selected: initial_index(opts), typed: String::new(), escape: EscapeState::Idle }
    }

    /// Hands the engine one input byte and says what to do next.
    pub fn feed(&mut self, opts: &SelectPromptOptions, b: u8) -> (r: SelectStep)
        ensures
            is_enabled(opts.choices@, old(self).selected as int) ==> is_enabled(
                opts.choices@,
                final(self).selected as int,
            ),
            final(self).selected == old(self).selected || is_enabled(
                opts.choices@,
                final(self).selected as int,
            ),
            (final(self).selected as int, final(self).typed@, final(self).escape) == stepped(
                opts.choices@,
                opts.initial,
                (old(self).selected as int, old(self).typed@, old(self).escape),
                b,
            ),
            r == step_taken(old(self).escape, b),
    {
        match self.escape {
            EscapeState::Idle => {
                if b == 0x0d || b == 0x0a {
                    if self.typed.unicode_len() > 0 {
                        let t = trim_spaces(self.typed.as_str());
                        let raw = strip_arrow_escapes(t.as_str());
                        let i = parse_selection(opts, raw.as_str());
                        if i < opts.choices.len() && !opts.choices[i].disabled {
                            self.selected = i;
                        }
                    }
                    self.typed = String::new();
                    SelectStep::Submit
                } else if b == 0x1b {
                    self.escape = EscapeState::AfterEscape;
                    SelectStep::Continue
                } else {
                    if 0x20 <= b && b <= 0x7e {
                        push_char(&mut self.typed, b as char);
                    }
                    SelectStep::Continue
                }
            },
            EscapeState::AfterEscape => {
                self.escape = EscapeState::AfterIntroducer(b == 0x5b);
                SelectStep::Continue
            },
            EscapeState::AfterIntroducer(bracket) => {
                proof {
                    if is_enabled(opts.choices@, self.selected as int) {
                        lemma_moves_keep_enabled(opts.choices@, self.selected as int);
                    }
                    lemma_moves_stay_or_enable(opts.choices@, self.selected as int);
                }
                if bracket && b == 0x41 {
                    self.selected = prev_enabled(opts.choices.as_slice(), self.selected);
                } else if bracket && b == 0x42 {
                    self.selected = next_enabled(opts.choices.as_slice(), self.selected);
                }
                self.typed = String::new();
                self.escape = EscapeState::Idle;
                SelectStep::Redraw
            },
        }
    }

    /// A read failed. Inside an escape sequence the missing byte counts as
    /// a zero byte and reading goes on; otherwise the prompt ends with the
    /// error (`None`, state unchanged).
    pub fn on_read_error(&mut self, opts: &SelectPromptOptions) -> (r: Option<SelectStep>)
        ensures
            old(self).escape == EscapeState::Idle ==> r is None && final(self).selected
                == old(self).selected && final(self).typed@ == old(self).typed@
                && final(self).escape == old(self).escape,
            old(self).escape == EscapeState::AfterEscape ==> r == Some(SelectStep::Continue)
                && final(self).selected == old(self).selected && final(self).typed@ == old(
                self,
            ).typed@ && final(self).escape == EscapeState::AfterIntroducer(false),
            old(self).escape matches EscapeState::AfterIntroducer(bracket) ==> r == Some(
                SelectStep::Redraw,
            ) && final(self).selected == moved_selection(
                opts.choices@,
                old(self).selected as int,
                bracket,
                0,
            ) && final(self).typed@.len() == 0 && final(self).escape == EscapeState::Idle,
    {
        match self.escape {
            EscapeState::Idle => None,
            _ => Some(self.feed(opts, 0)),
        }
    }

    /// The submitted answer: the selected choice's value, or why there is none.
    pub fn finish(&self, opts: &SelectPromptOptions) -> (r: Result<String, SelectError>)
        ensures
            resolves_to(opts.choices@, self.selected as int, r),
            r matches Ok(v) ==> exists|k: int|
                is_enabled(opts.choices@, k) && v@ == #[trigger] opts.choices@[k].value@,
    {
        resolve(opts, self.selected)
    }
}

} // verus!
