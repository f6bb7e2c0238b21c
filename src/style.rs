//! Text styles attached to byte ranges of rendered hover text.

use vstd::prelude::*;

verus! {

/// A red colour, used for inline code spans (0xRRGGBBAA).
pub const CODE_SPAN_COLOR: u32 = 0xff0000ff;

/// The style of one highlighted byte range.
#[derive(Clone, Copy, Debug, PartialEq, Eq, Structural)]
pub struct HighlightStyle {
    pub color: Option<u32>,
    pub bold: bool,
    pub italic: bool,
    pub underline: bool,
}

impl HighlightStyle {
    /// The style that changes nothing.
    pub open spec fn plain() -> HighlightStyle {
        HighlightStyle { color: None, bold: false, italic: false, underline: false }
    }

    /// The style of prose text inside the given emphasis, strong and link nesting.
    pub open spec fn nesting(bold: bool, italic: bool, underline: bool) -> HighlightStyle {
        HighlightStyle { color: None, bold, italic, underline }
    }

    pub fn default_style() -> (r: HighlightStyle)
        ensures
            r == HighlightStyle::plain(),
    {
        HighlightStyle { color: None, bold: false, italic: false, underline: false }
    }

    /// The fixed style of an inline code span.
    pub fn code_span() -> (r: HighlightStyle)
        ensures
            r == (HighlightStyle { color: Some(CODE_SPAN_COLOR), bold: false, italic: false, underline: false }),
    {
        HighlightStyle { color: Some(CODE_SPAN_COLOR), bold: false, italic: false, underline: false }
    }
}

} // verus!
