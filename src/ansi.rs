//! ANSI escape sequences: recognising them and removing them from text.
//!
//! A sequence is either a CSI sequence (`ESC [` or the single character U+009B,
//! then parameter bytes `0x30..=0x3F`, intermediate bytes `0x20..=0x2F` and one
//! final byte `0x40..=0x7E`) or an OSC sequence of the form `ESC ]`, digits and
//! semicolons, then BEL.

use vstd::prelude::*;
use crate::chars::{chars_of, push_char};

verus! {

pub open spec fn is_parameter(c: char) -> bool {
    0x30 <= c as u32 <= 0x3f
}

pub open spec fn is_intermediate(c: char) -> bool {
    0x20 <= c as u32 <= 0x2f
}

pub open spec fn is_final(c: char) -> bool {
    0x40 <= c as u32 <= 0x7e
}

pub open spec fn is_osc_body(c: char) -> bool {
    (0x30 <= c as u32 <= 0x39) || c == ';'
}

/// Length of the run of parameter characters starting at `i`.
pub open spec fn parameter_run(s: Seq<char>, i: int) -> nat
    decreases s.len() - i,
{
    if 0 <= i < s.len() && is_parameter(s[i]) {
        1 + parameter_run(s, i + 1)
    } else {
        0
    }
}

/// Length of the run of intermediate characters starting at `i`.
pub open spec fn intermediate_run(s: Seq<char>, i: int) -> nat
    decreases s.len() - i,
{
    if 0 <= i < s.len() && is_intermediate(s[i]) {
        1 + intermediate_run(s, i + 1)
    } else {
        0
    }
}

/// Length of the run of OSC body characters starting at `i`.
pub open spec fn osc_run(s: Seq<char>, i: int) -> nat
    decreases s.len() - i,
{
    if 0 <= i < s.len() && is_osc_body(s[i]) {
        1 + osc_run(s, i + 1)
    } else {
        0
    }
}

/// End of a CSI body (parameters, intermediates, final) that starts at `i`.
pub open spec fn csi_end(s: Seq<char>, i: int) -> Option<int> {
    let j = i + parameter_run(s, i);
    let k = j + intermediate_run(s, j);
    if 0 <= k < s.len() && is_final(s[k]) {
        Some(k + 1)
    } else {
        None
    }
}

/// End of an OSC body (digits and semicolons, then BEL) that starts at `i`.
pub open spec fn osc_end(s: Seq<char>, i: int) -> Option<int> {
    let j = i + osc_run(s, i);
    if 0 <= j < s.len() && s[j] == '\u{7}' {
        Some(j + 1)
    } else {
        None
    }
}

/// End (exclusive) of the escape sequence that starts at `i`, if one does.
pub open spec fn escape_end(s: Seq<char>, i: int) -> Option<int> {
    if 0 <= i < s.len() && s[i] == '\u{1b}' && i + 1 < s.len() {
        if s[i + 1] == '[' {
            csi_end(s, i + 2)
        } else if s[i + 1] == ']' {
            osc_end(s, i + 2)
        } else {
            None
        }
    } else if 0 <= i < s.len() && s[i] == '\u{9b}' {
        csi_end(s, i + 1)
    } else {
        None
    }
}

/// The text of `s` from `i` on, scanned left to right, with every escape
/// sequence removed.
pub open spec fn stripped_from(s: Seq<char>, i: int) -> Seq<char>
    decreases s.len() - i,
{
    if i < 0 || i >= s.len() {
        Seq::empty()
    } else {
        match escape_end(s, i) {
            Some(e) => if i < e {
                stripped_from(s, e)
            } else {
                Seq::empty()
            },
            None => seq![s[i]] + stripped_from(s, i + 1),
        }
    }
}

/// One left-to-right pass over `s` that removes each escape sequence it meets.
pub open spec fn stripped_once(s: Seq<char>) -> Seq<char> {
    stripped_from(s, 0)
}

/// No escape sequence starts anywhere in `s`.
pub open spec fn escape_free(s: Seq<char>) -> bool {
    forall|i: int| 0 <= i < s.len() ==> #[trigger] escape_end(s, i) is None
}

/// `s` with every ANSI escape sequence removed: passes are repeated while one
/// still removes something, since a removal can join the characters around it
/// into a new sequence.
pub open spec fn stripped(s: Seq<char>) -> Seq<char>
    decreases s.len(),
{
    if escape_free(s) {
        s
    } else if stripped_once(s).len() < s.len() {
        stripped(stripped_once(s))
    } else {
        s
    }
}

proof fn lemma_parameter_run(s: Seq<char>, i: int)
    requires
        0 <= i <= s.len(),
    ensures
        i + parameter_run(s, i) <= s.len(),
    decreases s.len() - i,
{
    if i < s.len() && is_parameter(s[i]) {
        lemma_parameter_run(s, i + 1);
    }
}

proof fn lemma_intermediate_run(s: Seq<char>, i: int)
    requires
        0 <= i <= s.len(),
    ensures
        i + intermediate_run(s, i) <= s.len(),
    decreases s.len() - i,
{
    if i < s.len() && is_intermediate(s[i]) {
        lemma_intermediate_run(s, i + 1);
    }
}

proof fn lemma_osc_run(s: Seq<char>, i: int)
    requires
        0 <= i <= s.len(),
    ensures
        i + osc_run(s, i) <= s.len(),
    decreases s.len() - i,
{
    if i < s.len() && is_osc_body(s[i]) {
        lemma_osc_run(s, i + 1);
    }
}

/// A sequence that starts at `i` ends after `i` and within `s`.
pub proof fn lemma_escape_end_bounds(s: Seq<char>, i: int)
    requires
        0 <= i < s.len(),
    ensures
        escape_end(s, i) matches Some(e) ==> i < e <= s.len(),
{
    if s[i] == '\u{1b}' && i + 1 < s.len() {
        lemma_parameter_run(s, i + 2);
        lemma_intermediate_run(s, i + 2 + parameter_run(s, i + 2));
        lemma_osc_run(s, i + 2);
    } else if s[i] == '\u{9b}' {
        lemma_parameter_run(s, i + 1);
        lemma_intermediate_run(s, i + 1 + parameter_run(s, i + 1));
    }
}

fn parameter_end(v: &Vec<char>, i: usize) -> (r: usize)
    requires
        i <= v@.len(),
    ensures
        r == i + parameter_run(v@, i as int),
{
    let mut j: usize = i;
    proof {
        lemma_parameter_run(v@, i as int);
    }
    while j < v.len() && 0x30 <= v[j] as u32 && v[j] as u32 <= 0x3f
        invariant
            i <= j <= v@.len(),
            i + parameter_run(v@, i as int) == j + parameter_run(v@, j as int),
        decreases v.len() - j,
    {
        j = j + 1;
    }
    j
}

fn intermediate_end(v: &Vec<char>, i: usize) -> (r: usize)
    requires
        i <= v@.len(),
    ensures
        r == i + intermediate_run(v@, i as int),
{
    let mut j: usize = i;
    while j < v.len() && 0x20 <= v[j] as u32 && v[j] as u32 <= 0x2f
        invariant
            i <= j <= v@.len(),
            i + intermediate_run(v@, i as int) == j + intermediate_run(v@, j as int),
        decreases v.len() - j,
    {
        j = j + 1;
    }
    j
}

fn osc_body_end(v: &Vec<char>, i: usize) -> (r: usize)
    requires
        i <= v@.len(),
    ensures
        r == i + osc_run(v@, i as int),
{
    let mut j: usize = i;
    while j < v.len() && ((0x30 <= v[j] as u32 && v[j] as u32 <= 0x39) || v[j] == ';')
        invariant
            i <= j <= v@.len(),
            i + osc_run(v@, i as int) == j + osc_run(v@, j as int),
        decreases v.len() - j,
    {
        j = j + 1;
    }
    j
}

fn csi_body_end(v: &Vec<char>, i: usize) -> (r: Option<usize>)
    requires
        i <= v@.len(),
    ensures
        match csi_end(v@, i as int) {
            Some(e) => r == Some(e as usize),
            None => r is None,
        },
{
    let j = parameter_end(v, i);
    proof {
        lemma_parameter_run(v@, i as int);
    }
    let k = intermediate_end(v, j);
    proof {
        lemma_intermediate_run(v@, j as int);
    }
    if k < v.len() && 0x40 <= v[k] as u32 && v[k] as u32 <= 0x7e {
        Some(k + 1)
    } else {
        None
    }
}

/// End of the escape sequence that starts at `i` of `v`, if one does.
pub fn escape_at(v: &Vec<char>, i: usize) -> (r: Option<usize>)
    requires
        i < v@.len(),
    ensures
        match escape_end(v@, i as int) {
            Some(e) => r == Some(e as usize),
            None => r is None,
        },
        r matches Some(e) ==> i < e <= v@.len(),
{
    proof {
        lemma_escape_end_bounds(v@, i as int);
    }
    let n = v.len();
    if v[i] == '\u{1b}' && i + 1 < n {
        if v[i + 1] == '[' {
            csi_body_end(v, i + 2)
        } else if v[i + 1] == ']' {
            let j = osc_body_end(v, i + 2);
            proof {
                lemma_osc_run(v@, i + 2);
            }
            if j < v.len() && v[j] == '\u{7}' {
                Some(j + 1)
            } else {
                None
            }
        } else {
            None
        }
    } else if v[i] == '\u{9b}' {
        csi_body_end(v, i + 1)
    } else {
        None
    }
}

/// One pass over `v` that removes each escape sequence it meets.
fn strip_pass(v: &Vec<char>) -> (r: Vec<char>)
    ensures
        r@ == stripped_once(v@),
{
    let mut out: Vec<char> = Vec::new();
    let mut i: usize = 0;
    while i < v.len()
        invariant
            i <= v@.len(),
            out@ + stripped_from(v@, i as int) == stripped_once(v@),
        decreases v.len() - i,
    {
        match escape_at(v, i) {
            Some(e) => {
                i = e;
            },
            None => {
                out.push(v[i]);
                assert(out@ + stripped_from(v@, i + 1) =~= stripped_once(v@));
                i = i + 1;
            },
        }
    }
    assert(out@ =~= stripped_once(v@));
    out
}

/// The characters of `v` with every escape sequence removed.
pub fn strip_chars(v: &Vec<char>) -> (r: Vec<char>)
    ensures
        r@ == stripped(v@),
        escape_free(r@),
        r@.len() <= v@.len(),
{
    proof {
        lemma_stripped_shape(v@);
    }
    let mut cur = strip_pass(v);
    proof {
        lemma_pass_keeps_stripped(v@);
        lemma_stripped_len(v@, 0);
    }
    loop
        invariant
            stripped(cur@) == stripped(v@),
            cur@.len() <= v@.len(),
        decreases cur@.len(),
    {
        let next = strip_pass(&cur);
        proof {
            lemma_pass_keeps_stripped(cur@);
            lemma_stripped_len(cur@, 0);
        }
        if next.len() == cur.len() {
            proof {
                lemma_pass_shrinks(cur@);
                lemma_stripped_shape(cur@);
            }
            return cur;
        }
        cur = next;
    }
}

/// Removes ANSI escape sequences from the string.
pub fn strip_ansi(s: &str) -> (r: String)
    ensures
        r@ == stripped(s@),
        escape_free(r@),
{
    let v = strip_chars(&chars_of(s));
    let mut r = String::new();
    let mut i: usize = 0;
    while i < v.len()
        invariant
            i <= v@.len(),
            r@ == v@.take(i as int),
        decreases v.len() - i,
    {
        push_char(&mut r, v[i]);
        assert(v@.take(i + 1) =~= v@.take(i as int).push(v@[i as int]));
        i = i + 1;
    }
    assert(v@.take(v@.len() as int) =~= v@);
    r
}

/// Removing escape sequences never makes a text longer.
pub proof fn lemma_stripped_len(s: Seq<char>, i: int)
    requires
        0 <= i <= s.len(),
    ensures
        stripped_from(s, i).len() <= s.len() - i,
    decreases s.len() - i,
{
    if i < s.len() {
        lemma_escape_end_bounds(s, i);
        match escape_end(s, i) {
            Some(e) => {
                lemma_stripped_len(s, e);
            },
            None => {
                lemma_stripped_len(s, i + 1);
            },
        }
    }
}

/// Text in which no escape sequence starts is left as it is by one pass.
pub proof fn lemma_stripped_escape_free(s: Seq<char>)
    requires
        escape_free(s),
    ensures
        stripped_once(s) == s,
{
    lemma_stripped_from_escape_free(s, 0);
    assert(s.skip(0) =~= s);
}

proof fn lemma_stripped_from_escape_free(s: Seq<char>, i: int)
    requires
        escape_free(s),
        0 <= i <= s.len(),
    ensures
        stripped_from(s, i) == s.skip(i),
    decreases s.len() - i,
{
    if i < s.len() {
        assert(escape_end(s, i) is None);
        lemma_stripped_from_escape_free(s, i + 1);
        assert(s.skip(i) =~= seq![s[i]] + s.skip(i + 1));
    } else {
        assert(s.skip(i) =~= Seq::<char>::empty());
    }
}

/// A text in which some escape sequence starts at or after `i` loses at
/// least one character there.
proof fn lemma_stripped_from_shrinks(s: Seq<char>, i: int, k: int)
    requires
        0 <= i <= k < s.len(),
        escape_end(s, k) is Some,
    ensures
        stripped_from(s, i).len() < s.len() - i,
    decreases s.len() - i,
{
    lemma_escape_end_bounds(s, i);
    match escape_end(s, i) {
        Some(e) => {
            lemma_stripped_len(s, e);
        },
        None => {
            lemma_stripped_from_shrinks(s, i + 1, k);
        },
    }
}

/// A pass over text in which some sequence starts makes it shorter.
pub proof fn lemma_pass_shrinks(s: Seq<char>)
    ensures
        !escape_free(s) ==> stripped_once(s).len() < s.len(),
{
    if !escape_free(s) {
        let k = choose|k: int| 0 <= k < s.len() && #[trigger] escape_end(s, k) is Some;
        lemma_stripped_from_shrinks(s, 0, k);
    }
}

/// The fully stripped text holds no escape sequence and is no longer than `s`.
pub proof fn lemma_stripped_shape(s: Seq<char>)
    ensures
        escape_free(stripped(s)),
        stripped(s).len() <= s.len(),
        escape_free(s) ==> stripped(s) == s,
    decreases s.len(),
{
    lemma_pass_shrinks(s);
    if !escape_free(s) {
        lemma_stripped_shape(stripped_once(s));
    }
}

/// One more pass changes nothing of the fully stripped result.
pub proof fn lemma_pass_keeps_stripped(s: Seq<char>)
    ensures
        stripped(stripped_once(s)) == stripped(s),
{
    lemma_pass_shrinks(s);
    if escape_free(s) {
        lemma_stripped_escape_free(s);
    }
}

/// Stripping is idempotent: stripping the stripped text leaves it as it is.
pub proof fn lemma_strip_idempotent(s: Seq<char>)
    ensures
        stripped(stripped(s)) == stripped(s),
{
    lemma_stripped_shape(s);
    lemma_stripped_shape(stripped(s));
}

} // verus!
