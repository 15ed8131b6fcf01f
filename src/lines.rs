//! How many terminal rows a text takes.

use vstd::prelude::*;
use crate::ansi::{stripped, strip_chars};
use crate::chars::chars_of;

verus! {

/// `s` cut at each `'\n'`, as `str::split('\n')` cuts it: `n` newlines give
/// `n + 1` pieces, some of them possibly empty.
pub open spec fn split_lines(s: Seq<char>) -> Seq<Seq<char>>
    decreases s.len(),
{
    if s.len() == 0 {
        seq![Seq::empty()]
    } else {
        let p = split_lines(s.drop_last());
        if s.last() == '\n' {
            p.push(Seq::empty())
        } else {
            p.update(p.len() - 1, p.last().push(s.last()))
        }
    }
}

pub proof fn lemma_split_lines_nonempty(s: Seq<char>)
    ensures
        split_lines(s).len() >= 1,
    decreases s.len(),
{
    if s.len() > 0 {
        lemma_split_lines_nonempty(s.drop_last());
    }
}

/// Rows a line of `l` characters takes when wrapped at `w > 0` columns.
pub open spec fn ceil_div(l: nat, w: nat) -> nat {
    if l % w == 0 {
        l / w
    } else {
        l / w + 1
    }
}

/// Rows that the lines `segs` take when wrapped at `w > 0` columns.
pub open spec fn wrapped_rows(segs: Seq<Seq<char>>, w: nat) -> nat
    decreases segs.len(),
{
    if segs.len() == 0 {
        0
    } else {
        wrapped_rows(segs.drop_last(), w) + ceil_div(segs.last().len(), w)
    }
}

/// Rows that `msg` takes once its escape sequences are removed: one per
/// `'\n'`-separated piece when `w == 0` (no wrapping), else each piece wrapped
/// at `w`, an empty piece taking no row.
pub open spec fn line_rows(msg: Seq<char>, w: nat) -> nat {
    let t = stripped(msg);
    if w == 0 {
        split_lines(t).len()
    } else {
        wrapped_rows(split_lines(t), w)
    }
}

proof fn lemma_ceil_div_bound(l: nat, w: nat)
    requires
        w >= 1,
    ensures
        ceil_div(l, w) <= l,
{
    let q = l / w;
    let r = l % w;
    assert(l == w * q + r && 0 <= r < w) by (nonlinear_arith)
        requires
            w >= 1,
            q == l / w,
            r == l % w,
    ;
    assert(q <= w * q) by (nonlinear_arith)
        requires
            w >= 1,
            q >= 0,
    ;
}

/// Returns the number of lines when wrapped to `per_line` width.
pub fn lines_count(msg: &str, per_line: usize) -> (r: usize)
    requires
        msg@.len() < usize::MAX,
    ensures
        r == line_rows(msg@, per_line as nat),
{
    let t = strip_chars(&chars_of(msg));
    let n = t.len();
    let mut i: usize = 0;
    let mut pieces: usize = 1;
    let mut total: usize = 0;
    let mut cur: usize = 0;
    proof {
        assert(t@.take(0) =~= Seq::<char>::empty());
    }
    while i < n
        invariant
            n == t@.len() < usize::MAX,
            i <= n,
            pieces == split_lines(t@.take(i as int)).len(),
            pieces <= i + 1,
            per_line > 0 ==> total == wrapped_rows(
                split_lines(t@.take(i as int)).drop_last(),
                per_line as nat,
            ),
            cur == split_lines(t@.take(i as int)).last().len(),
            total + cur <= i,
        decreases n - i,
    {
        let ghost prev = t@.take(i as int);
        let ghost next = t@.take(i + 1);
        proof {
            assert(next.drop_last() =~= prev);
            lemma_split_lines_nonempty(prev);
        }
        if t[i] == '\n' {
            if per_line > 0 {
                proof {
                    lemma_ceil_div_bound(cur as nat, per_line as nat);
                    assert(split_lines(next).drop_last() =~= split_lines(prev));
                }
                total = total + (cur / per_line + if cur % per_line == 0 {
                    0
                } else {
                    1
                });
            }
            cur = 0;
            pieces = pieces + 1;
        } else {
            proof {
                assert(split_lines(next).drop_last() =~= split_lines(prev).drop_last());
            }
            cur = cur + 1;
        }
        i = i + 1;
    }
    proof {
        assert(t@.take(n as int) =~= t@);
        lemma_split_lines_nonempty(t@);
    }
    if per_line == 0 {
        pieces
    } else {
        proof {
            lemma_ceil_div_bound(cur as nat, per_line as nat);
        }
        total + (cur / per_line + if cur % per_line == 0 {
            0
        } else {
            1
        })
    }
}

/// Number of `'\n'` characters in `s`.
pub open spec fn newline_count(s: Seq<char>) -> nat
    decreases s.len(),
{
    if s.len() == 0 {
        0
    } else {
        newline_count(s.drop_last()) + if s.last() == '\n' {
            1nat
        } else {
            0nat
        }
    }
}

/// Cutting at each newline gives one piece more than there are newlines.
pub proof fn lemma_split_lines_len(s: Seq<char>)
    ensures
        split_lines(s).len() == newline_count(s) + 1,
    decreases s.len(),
{
    if s.len() > 0 {
        lemma_split_lines_len(s.drop_last());
    }
}

/// With no wrapping, a text takes one row per `'\n'`-separated piece of its
/// stripped form, that is one more row than it has newlines.
pub proof fn lemma_unwrapped_rows(s: Seq<char>)
    ensures
        line_rows(s, 0) == split_lines(stripped(s)).len(),
        line_rows(s, 0) == newline_count(stripped(s)) + 1,
{
    lemma_split_lines_len(stripped(s));
}

} // verus!
