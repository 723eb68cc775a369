//! The closed set of text-rendering effects that can be attached to a word.

use vstd::prelude::*;

verus! {

/// A rendering effect attached to a plain-text word. The effect is opened by
/// a markup tag and stays in force until a close tag or the end of the input.
#[derive(Clone, Copy, Debug, PartialEq, Eq, Structural)]
pub enum TextEffect {
    /// Ordinary text, drawn once in the dialog text color.
    Plain,
    /// Letters travel up and down one pixel in an alternating pattern.
    Wavy,
    /// The whole word jitters by a pseudo-random pixel each effect tick.
    Shaky,
    /// The text color cycles through a fixed hue table.
    Rainbow,
    /// The text is drawn in the given palette color.
    Color(u8),
}

impl TextEffect {
    /// A stable effect does not move or recolor over time, so a word drawn
    /// with it never needs to be redrawn once rendered.
    pub open spec fn spec_is_stable(self) -> bool {
        self is Plain || self is Color
    }

    /// Exec mirror of [`TextEffect::spec_is_stable`].
    pub fn is_stable(&self) -> (r: bool)
        ensures
            r == self.spec_is_stable(),
    {
        matches!(self, TextEffect::Plain | TextEffect::Color(_))
    }

    /// A moving effect changes the glyph positions frame to frame, so its
    /// previous footprint must be erased before each redraw.
    pub open spec fn spec_is_moving(self) -> bool {
        self is Wavy || self is Shaky
    }

    /// Exec mirror of [`TextEffect::spec_is_moving`].
    pub fn is_moving(&self) -> (r: bool)
        ensures
            r == self.spec_is_moving(),
    {
        matches!(self, TextEffect::Wavy | TextEffect::Shaky)
    }
}

} // verus!
