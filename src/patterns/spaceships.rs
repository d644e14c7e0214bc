//! Spaceships: patterns that travel across the grid.

use vstd::prelude::*;
use super::{Pattern, PatternView};

verus! {

pub open spec fn glider_view() -> PatternView {
    PatternView {
        name: "Glider"@,
        description: "Smallest spaceship, moves diagonally"@,
        rows: seq![
            " O "@,
            "  O"@,
            "OOO"@,
        ],
    }
}

/// The smallest spaceship; it moves one cell diagonally every four generations.
pub fn glider() -> (p: Pattern)
    ensures
        p@ == glider_view(),
{
    let p = Pattern {
        name: "Glider",
        description: "Smallest spaceship, moves diagonally",
        data: &[
            " O ",
            "  O",
            "OOO",
        ],
    };
    assert(p@.rows =~= glider_view().rows);
    p
}

pub open spec fn lwss_view() -> PatternView {
    PatternView {
        name: "LWSS"@,
        description: "Lightweight spaceship"@,
        rows: seq![
            " OOOO"@,
            "O   O"@,
            "    O"@,
            "O  O "@,
        ],
    }
}

/// The lightweight spaceship.
pub fn lwss() -> (p: Pattern)
    ensures
        p@ == lwss_view(),
{
    let p = Pattern {
        name: "LWSS",
        description: "Lightweight spaceship",
        data: &[
            " OOOO",
            "O   O",
            "    O",
            "O  O ",
        ],
    };
    assert(p@.rows =~= lwss_view().rows);
    p
}

pub open spec fn mwss_view() -> PatternView {
    PatternView {
        name: "MWSS"@,
        description: "Middleweight spaceship"@,
        rows: seq![
            "  O   "@,
            " OOOO "@,
            "O    O"@,
            "     O"@,
            "O   O "@,
        ],
    }
}

/// The middleweight spaceship.
pub fn mwss() -> (p: Pattern)
    ensures
        p@ == mwss_view(),
{
    let p = Pattern {
        name: "MWSS",
        description: "Middleweight spaceship",
        data: &[
            "  O   ",
            " OOOO ",
            "O    O",
            "     O",
            "O   O ",
        ],
    };
    assert(p@.rows =~= mwss_view().rows);
    p
}

pub open spec fn hwss_view() -> PatternView {
    PatternView {
        name: "HWSS"@,
        description: "Heavyweight spaceship"@,
        rows: seq![
            "   O   "@,
            "  OOOO "@,
            " O    O"@,
            "      O"@,
            " O   O "@,
        ],
    }
}

/// The heavyweight spaceship.
pub fn hwss() -> (p: Pattern)
    ensures
        p@ == hwss_view(),
{
    let p = Pattern {
        name: "HWSS",
        description: "Heavyweight spaceship",
        data: &[
            "   O   ",
            "  OOOO ",
            " O    O",
            "      O",
            " O   O ",
        ],
    };
    assert(p@.rows =~= hwss_view().rows);
    p
}

} // verus!
