//! The two colour themes of the display.

use vstd::prelude::*;

verus! {

/// A colour theme.
#[derive(Clone, Copy, PartialEq, Eq, Debug, Structural)]
pub enum ColorTheme {
    Light,
    Dark,
}

impl ColorTheme {
    /// The other theme: what toggling the theme switches to.
    pub fn toggled(self) -> (r: ColorTheme)
        ensures
            r != self,
    {
        match self {
            ColorTheme::Light => ColorTheme::Dark,
            ColorTheme::Dark => ColorTheme::Light,
        }
    }
}

} // verus!
