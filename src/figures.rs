//! Glyphs for prompt UI.

use vstd::prelude::*;

verus! {

/// The glyph set a prompt draws with.
#[derive(Clone, Copy)]
pub struct Figures {
    pub arrow_up: &'static str,
    pub arrow_down: &'static str,
    pub arrow_left: &'static str,
    pub arrow_right: &'static str,
    pub radio_on: &'static str,
    pub radio_off: &'static str,
    pub tick: &'static str,
    pub cross: &'static str,
    pub ellipsis: &'static str,
    pub pointer_small: &'static str,
    pub line: &'static str,
    pub pointer: &'static str,
}

/// `f` is the Unicode glyph set.
pub open spec fn is_unicode_set(f: Figures) -> bool {
    &&& f.arrow_up@ == "↑"@
    &&& f.arrow_down@ == "↓"@
    &&& f.arrow_left@ == "←"@
    &&& f.arrow_right@ == "→"@
    &&& f.radio_on@ == "◉"@
    &&& f.radio_off@ == "◯"@
    &&& f.tick@ == "✔"@
    &&& f.cross@ == "✖"@
    &&& f.ellipsis@ == "…"@
    &&& f.pointer_small@ == "›"@
    &&& f.line@ == "─"@
    &&& f.pointer@ == "❯"@
}

/// `f` is the set for Windows consoles, which lack some Unicode glyphs.
pub open spec fn is_windows_set(f: Figures) -> bool {
    &&& f.arrow_up@ == "↑"@
    &&& f.arrow_down@ == "↓"@
    &&& f.arrow_left@ == "←"@
    &&& f.arrow_right@ == "→"@
    &&& f.radio_on@ == "(*)"@
    &&& f.radio_off@ == "( )"@
    &&& f.tick@ == "√"@
    &&& f.cross@ == "×"@
    &&& f.ellipsis@ == "..."@
    &&& f.pointer_small@ == "»"@
    &&& f.line@ == "─"@
    &&& f.pointer@ == ">"@
}

impl Figures {
    /// The glyph set for a platform: the Windows set or the Unicode one.
    pub fn for_platform(windows: bool) -> (r: Figures)
        ensures
            windows ==> is_windows_set(r),
            !windows ==> is_unicode_set(r),
    {
        if windows {
            Figures {
                arrow_up: "↑",
                arrow_down: "↓",
                arrow_left: "←",
                arrow_right: "→",
                radio_on: "(*)",
                radio_off: "( )",
                tick: "√",
                cross: "×",
                ellipsis: "...",
                pointer_small: "»",
                line: "─",
                pointer: ">",
            }
        } else {
            Figures {
                arrow_up: "↑",
                arrow_down: "↓",
                arrow_left: "←",
                arrow_right: "→",
                radio_on: "◉",
                radio_off: "◯",
                tick: "✔",
                cross: "✖",
                ellipsis: "…",
                pointer_small: "›",
                line: "─",
                pointer: "❯",
            }
        }
    }

    /// The Unicode glyph set.
    pub fn new() -> (r: Figures)
        ensures
            is_unicode_set(r),
    {
        Figures::for_platform(false)
    }
}

impl Default for Figures {
    fn default() -> (r: Figures)
        ensures
            is_unicode_set(r),
    {
        Figures::new()
    }
}

} // verus!
