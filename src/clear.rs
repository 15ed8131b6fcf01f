//! Escape sequences that erase what a prompt wrote.

use vstd::prelude::*;
use crate::ansi::{stripped, strip_chars};
use crate::chars::chars_of;
use crate::lines::{split_lines, lemma_split_lines_nonempty};

verus! {

/// `ESC [ 1000 D`: cursor to the left edge.
pub open spec fn cursor_left_text() -> Seq<char> {
    seq!['\u{1b}', '[', '1', '0', '0', '0', 'D']
}

/// `ESC [ K`: erase to the end of the line.
pub open spec fn erase_end_text() -> Seq<char> {
    seq!['\u{1b}', '[', 'K']
}

/// `ESC [ 1 A`: cursor one row up.
pub open spec fn cursor_up_text() -> Seq<char> {
    seq!['\u{1b}', '[', '1', 'A']
}

/// `ESC [ 2 K`: erase the whole line.
pub open spec fn erase_line_text() -> Seq<char> {
    seq!['\u{1b}', '[', '2', 'K']
}

/// `ESC [ 1 G`: cursor to the first column.
pub open spec fn first_column_text() -> Seq<char> {
    seq!['\u{1b}', '[', '1', 'G']
}

/// Erases `n` rows, the current one and those above it, leaving the cursor
/// at the left edge of the topmost.
pub open spec fn erase_lines_text(n: nat) -> Seq<char>
    decreases n,
{
    if n == 0 {
        Seq::empty()
    } else if n == 1 {
        cursor_left_text() + erase_end_text()
    } else {
        erase_lines_text((n - 1) as nat) + cursor_up_text() + cursor_left_text()
            + erase_end_text()
    }
}

/// Relies on `ansi_escapes::EraseLines`, whose `Display` writes, for each of
/// the `n` rows, `ESC[1A` (all but the first), then `ESC[1000D` and `ESC[K`.
#[verifier::external_body]
pub(crate) fn erase_lines(n: u16) -> (r: String)
    ensures
        r@ == erase_lines_text(n as nat),
{
    format!("{}", ansi_escapes::EraseLines(n))
}

/// Relies on `ansi_escapes::EraseLine`, whose `Display` writes `ESC[2K`.
#[verifier::external_body]
fn erase_line() -> (r: String)
    ensures
        r@ == erase_line_text(),
{
    format!("{}", ansi_escapes::EraseLine)
}

/// Relies on `ansi_escapes::CursorTo::AbsoluteX(0)`, whose `Display` writes
/// `ESC[1G`.
#[verifier::external_body]
fn cursor_to_first_column() -> (r: String)
    ensures
        r@ == first_column_text(),
{
    format!("{}", ansi_escapes::CursorTo::AbsoluteX(0))
}

/// Rows that one line of a prompt takes at `w > 0` columns: one, plus one
/// for each further `w` visible characters.
pub open spec fn line_clear_rows(line: Seq<char>, w: nat) -> nat {
    let v = stripped(line).len();
    if v == 0 {
        1
    } else {
        1 + ((v - 1) as nat) / w
    }
}

/// Rows that the lines `segs` take at `w > 0` columns.
pub open spec fn clear_rows_of(segs: Seq<Seq<char>>, w: nat) -> nat
    decreases segs.len(),
{
    if segs.len() == 0 {
        0
    } else {
        clear_rows_of(segs.drop_last(), w) + line_clear_rows(segs.last(), w)
    }
}

/// Rows that `prompt` takes at `w > 0` columns.
pub open spec fn clear_rows(prompt: Seq<char>, w: nat) -> nat {
    clear_rows_of(split_lines(prompt), w)
}

/// What `clear` returns: with no width, erase the current line and go to its
/// first column; else erase every row the prompt takes.
pub open spec fn clear_text(prompt: Seq<char>, per_line: nat) -> Seq<char> {
    if per_line == 0 {
        erase_line_text() + first_column_text()
    } else {
        erase_lines_text(clear_rows(prompt, per_line))
    }
}

/// Number of visible characters in `line`.
fn width(line: &Vec<char>) -> (r: usize)
    ensures
        r == stripped(line@).len(),
{
    strip_chars(line).len()
}

/// Adds, saturating, the rows that `line` takes to `total`.
fn add_line_rows(total: usize, line: &Vec<char>, per_line: usize) -> (r: usize)
    requires
        per_line > 0,
    ensures
        r == vstd::math::min(
            total + line_clear_rows(line@, per_line as nat),
            usize::MAX as int,
        ),
{
    let w = width(line);
    let extra: usize = if w == 0 {
        0
    } else {
        (w - 1) / per_line
    };
    assert(extra <= w) by {
        if w > 0 {
            assert((w - 1) as int / per_line as int <= w - 1) by (nonlinear_arith)
                requires
                    per_line > 0,
                    w > 0,
            ;
        }
    }
    total.saturating_add(1 + extra)
}

/// Returns escape sequence to clear the prompt over `per_line` columns.
pub fn clear(prompt: &str, per_line: usize) -> (r: String)
    requires
        per_line == 0 || clear_rows(prompt@, per_line as nat) <= u16::MAX,
    ensures
        r@ == clear_text(prompt@, per_line as nat),
{
    if per_line == 0 {
        let mut r = erase_line();
        let c = cursor_to_first_column();
        r.append(c.as_str());
        return r;
    }
    let p = chars_of(prompt);
    let n = p.len();
    let mut line: Vec<char> = Vec::new();
    // Saturates at `usize::MAX`; the precondition keeps the true count far below.
    let mut total: usize = 0;
    let mut i: usize = 0;
    proof {
        assert(p@.take(0) =~= Seq::<char>::empty());
    }
    while i < n
        invariant
            n == p@.len(),
            per_line > 0,
            i <= n,
            line@ == split_lines(p@.take(i as int)).last(),
            total == vstd::math::min(
                clear_rows_of(split_lines(p@.take(i as int)).drop_last(), per_line as nat)
                    as int,
                usize::MAX as int,
            ),
        decreases n - i,
    {
        let ghost prev = p@.take(i as int);
        let ghost next = p@.take(i + 1);
        proof {
            lemma_split_lines_nonempty(prev);
            assert(next.drop_last() =~= prev);
        }
        if p[i] == '\n' {
            total = add_line_rows(total, &line, per_line);
            proof {
                assert(split_lines(next).drop_last() =~= split_lines(prev));
            }
            line = Vec::new();
        } else {
            proof {
                assert(split_lines(next).drop_last() =~= split_lines(prev).drop_last());
            }
            line.push(p[i]);
        }
        i = i + 1;
    }
    proof {
        assert(p@.take(n as int) =~= prompt@);
        lemma_split_lines_nonempty(prompt@);
    }
    total = add_line_rows(total, &line, per_line);
    erase_lines(total as u16)
}

} // verus!
