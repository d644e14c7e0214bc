//! Other well-known starting shapes.

use vstd::prelude::*;
use super::{Pattern, PatternView};

verus! {

pub open spec fn r_pentomino_view() -> PatternView {
    PatternView {
        name: "R-Pentomino"@,
        description: "Complex evolution from simple start"@,
        rows: seq![
            " OO"@,
            "OO "@,
            " O "@,
        ],
    }
}

/// The R-pentomino: five cells with a long and complex evolution.
pub fn r_pentomino() -> (p: Pattern)
    ensures
        p@ == r_pentomino_view(),
{
    let p = Pattern {
        name: "R-Pentomino",
        description: "Complex evolution from simple start",
        data: &[
            " OO",
            "OO ",
            " O ",
        ],
    };
    assert(p@.rows =~= r_pentomino_view().rows);
    p
}

pub open spec fn diehard_view() -> PatternView {
    PatternView {
        name: "Diehard"@,
        description: "Dies after 130 generations"@,
        rows: seq![
            "      O "@,
            "OO      "@,
            " O   OOO"@,
        ],
    }
}

/// Diehard: vanishes completely after 130 generations.
pub fn diehard() -> (p: Pattern)
    ensures
        p@ == diehard_view(),
{
    let p = Pattern {
        name: "Diehard",
        description: "Dies after 130 generations",
        data: &[
            "      O ",
            "OO      ",
            " O   OOO",
        ],
    };
    assert(p@.rows =~= diehard_view().rows);
    p
}

pub open spec fn acorn_view() -> PatternView {
    PatternView {
        name: "Acorn"@,
        description: "Grows into complex pattern"@,
        rows: seq![
            " O     "@,
            "   O   "@,
            "OO  OOO"@,
        ],
    }
}

/// Acorn: grows into a complex pattern from seven cells.
pub fn acorn() -> (p: Pattern)
    ensures
        p@ == acorn_view(),
{
    let p = Pattern {
        name: "Acorn",
        description: "Grows into complex pattern",
        data: &[
            " O     ",
            "   O   ",
            "OO  OOO",
        ],
    };
    assert(p@.rows =~= acorn_view().rows);
    p
}

pub open spec fn block_view() -> PatternView {
    PatternView {
        name: "Block"@,
        description: "Still life - never changes"@,
        rows: seq![
            "OO"@,
            "OO"@,
        ],
    }
}

/// The block: a still life that never changes.
pub fn block() -> (p: Pattern)
    ensures
        p@ == block_view(),
{
    let p = Pattern {
        name: "Block",
        description: "Still life - never changes",
        data: &[
            "OO",
            "OO",
        ],
    };
    assert(p@.rows =~= block_view().rows);
    p
}

} // verus!
