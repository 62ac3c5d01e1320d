use vstd::prelude::*;

verus! {

/// Style data that is attributed to a Cell.
///
/// Two styles are equal iff all attributes match.  The default style — no
/// attribute set — renders identically to plain text.
#[derive(Copy, Clone, Eq, PartialEq, Structural, Debug)]
pub struct Style {
    /// Bold (SGR code 1; cleared by codes 0 and 22).
    pub bold: bool,
}

impl Style {
    /// The default style: no attributes set.
    pub open spec fn plain() -> Style {
        Style { bold: false }
    }
}

impl Default for Style {
    fn default() -> (r: Style)
        ensures
            r == Style::plain(),
    {
        Style { bold: false }
    }
}

} // verus!
