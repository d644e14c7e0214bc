//! Oscillators: patterns that return to their first shape in place.

use vstd::prelude::*;
use super::{Pattern, PatternView};

verus! {

pub open spec fn blinker_view() -> PatternView {
    PatternView {
        name: "Blinker"@,
        description: "Simple oscillator, period 2"@,
        rows: seq![
            "OOO"@,
        ],
    }
}

/// The simplest oscillator, period 2.
pub fn blinker() -> (p: Pattern)
    ensures
        p@ == blinker_view(),
{
    let p = Pattern {
        name: "Blinker",
        description: "Simple oscillator, period 2",
        data: &[
            "OOO",
        ],
    };
    assert(p@.rows =~= blinker_view().rows);
    p
}

pub open spec fn toad_view() -> PatternView {
    PatternView {
        name: "Toad"@,
        description: "Oscillator, period 2"@,
        rows: seq![
            " OOO"@,
            "OOO "@,
        ],
    }
}

/// An oscillator of period 2.
pub fn toad() -> (p: Pattern)
    ensures
        p@ == toad_view(),
{
    let p = Pattern {
        name: "Toad",
        description: "Oscillator, period 2",
        data: &[
            " OOO",
            "OOO ",
        ],
    };
    assert(p@.rows =~= toad_view().rows);
    p
}

pub open spec fn beacon_view() -> PatternView {
    PatternView {
        name: "Beacon"@,
        description: "Oscillator, period 2"@,
        rows: seq![
            "OO  "@,
            "O   "@,
            "   O"@,
            "  OO"@,
        ],
    }
}

/// An oscillator of period 2.
pub fn beacon() -> (p: Pattern)
    ensures
        p@ == beacon_view(),
{
    let p = Pattern {
        name: "Beacon",
        description: "Oscillator, period 2",
        data: &[
            "OO  ",
            "O   ",
            "   O",
            "  OO",
        ],
    };
    assert(p@.rows =~= beacon_view().rows);
    p
}

pub open spec fn pulsar_view() -> PatternView {
    PatternView {
        name: "Pulsar"@,
        description: "Classic oscillator, period 3"@,
        rows: seq![
            "  OOO   OOO  "@,
            "             "@,
            "O    O O    O"@,
            "O    O O    O"@,
            "O    O O    O"@,
            "  OOO   OOO  "@,
            "             "@,
            "  OOO   OOO  "@,
            "O    O O    O"@,
            "O    O O    O"@,
            "O    O O    O"@,
            "             "@,
            "  OOO   OOO  "@,
        ],
    }
}

/// A classic oscillator of period 3.
pub fn pulsar() -> (p: Pattern)
    ensures
        p@ == pulsar_view(),
{
    let p = Pattern {
        name: "Pulsar",
        description: "Classic oscillator, period 3",
        data: &[
            "  OOO   OOO  ",
            "             ",
            "O    O O    O",
            "O    O O    O",
            "O    O O    O",
            "  OOO   OOO  ",
            "             ",
            "  OOO   OOO  ",
            "O    O O    O",
            "O    O O    O",
            "O    O O    O",
            "             ",
            "  OOO   OOO  ",
        ],
    };
    assert(p@.rows =~= pulsar_view().rows);
    p
}

pub open spec fn pentadecathlon_view() -> PatternView {
    PatternView {
        name: "Pentadecathlon"@,
        description: "Oscillator, period 15"@,
        rows: seq![
            "  O    O  "@,
            " OO    OO "@,
            "O  OOOO  O"@,
            " OO    OO "@,
            "  O    O  "@,
        ],
    }
}

/// An oscillator of period 15.
pub fn pentadecathlon() -> (p: Pattern)
    ensures
        p@ == pentadecathlon_view(),
{
    let p = Pattern {
        name: "Pentadecathlon",
        description: "Oscillator, period 15",
        data: &[
            "  O    O  ",
            " OO    OO ",
            "O  OOOO  O",
            " OO    OO ",
            "  O    O  ",
        ],
    };
    assert(p@.rows =~= pentadecathlon_view().rows);
    p
}

} // verus!
