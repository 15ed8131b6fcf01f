//! How typed input and prompt markers are shown.

use vstd::prelude::*;
use crate::chars::push_char;
use crate::figures::Figures;

verus! {

/// Input display style (default, password, or invisible).
#[derive(Clone, Copy, PartialEq, Eq, Debug, Structural)]
pub enum InputStyle {
    Default,
    Password,
    Invisible,
}

/// Transforms input for display according to style (e.g. mask password).
pub struct StyleTransform {
    pub scale: usize,
}

/// How `input` is echoed: as typed, one `*` per byte, or not at all.
pub open spec fn rendered(input: &str, style: InputStyle) -> Seq<char> {
    match style {
        InputStyle::Password => Seq::new(input.len() as nat, |_i: int| '*'),
        InputStyle::Invisible => Seq::empty(),
        InputStyle::Default => input@,
    }
}

/// Display scale of a style: 0 when nothing is shown, else 1.
pub open spec fn style_scale(style: InputStyle) -> usize {
    match style {
        InputStyle::Invisible => 0,
        _ => 1,
    }
}

impl StyleTransform {
    pub fn render(&self, input: &str, style: InputStyle) -> (r: String)
        ensures
            r@ == rendered(input, style),
    {
        match style {
            InputStyle::Password => {
                let n = input.len();
                let mut r = String::new();
                let mut i: usize = 0;
                while i < n
                    invariant
                        i <= n,
                        n == input.len(),
                        r@ == Seq::new(i as nat, |_k: int| '*'),
                    decreases n - i,
                {
                    push_char(&mut r, '*');
                    assert(r@ =~= Seq::new((i + 1) as nat, |_k: int| '*'));
                    i = i + 1;
                }
                r
            },
            InputStyle::Invisible => String::new(),
            InputStyle::Default => String::from_str(input),
        }
    }
}

/// Returns style transform and display scale for the given input style.
pub fn render_style(style: InputStyle) -> (r: (StyleTransform, usize))
    ensures
        r.0.scale == style_scale(style),
        r.1 == style_scale(style),
{
    let scale: usize = match style {
        InputStyle::Password | InputStyle::Default => 1,
        InputStyle::Invisible => 0,
    };
    (StyleTransform { scale }, scale)
}

/// Colour in which a marker is drawn.
#[derive(Clone, Copy, PartialEq, Eq, Debug, Structural)]
pub enum Tone {
    Red,
    Yellow,
    Green,
    Cyan,
    Gray,
}

/// The prompt's leading marker in glyph set `fig`: a red cross when aborted,
/// a yellow one when exited, a green tick when done, else a cyan `?`.
pub fn symbol_parts(fig: &Figures, done: bool, aborted: bool, exited: bool) -> (r: (
    Tone,
    &'static str,
))
    ensures
        aborted ==> r.0 == Tone::Red && r.1 == fig.cross,
        !aborted && exited ==> r.0 == Tone::Yellow && r.1 == fig.cross,
        !aborted && !exited && done ==> r.0 == Tone::Green && r.1 == fig.tick,
        !aborted && !exited && !done ==> r.0 == Tone::Cyan && r.1@ == "?"@,
{
    if aborted {
        (Tone::Red, fig.cross)
    } else if exited {
        (Tone::Yellow, fig.cross)
    } else if done {
        (Tone::Green, fig.tick)
    } else {
        (Tone::Cyan, "?")
    }
}

/// The gray delimiter between message and input in glyph set `fig`: an
/// ellipsis once the answer is complete, a small pointer before.
pub fn delimiter_glyph(fig: &Figures, completing: bool) -> (r: &'static str)
    ensures
        completing ==> r == fig.ellipsis,
        !completing ==> r == fig.pointer_small,
{
    if completing {
        fig.ellipsis
    } else {
        fig.pointer_small
    }
}

} // verus!
