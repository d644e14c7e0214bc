//! Guns: patterns that keep emitting gliders.

use vstd::prelude::*;
use super::{Pattern, PatternView};

verus! {

pub open spec fn gosper_glider_gun_view() -> PatternView {
    PatternView {
        name: "Gosper Gun"@,
        description: "Classic glider gun, period 30"@,
        rows: seq![
            "                        O           "@,
            "                      O O           "@,
            "            OO      OO            OO"@,
            "           O   O    OO            OO"@,
            "OO        O     O   OO              "@,
            "OO        O   O OO    O O           "@,
            "          O     O       O           "@,
            "           O   O                    "@,
            "            OO                      "@,
        ],
    }
}

/// The Gosper glider gun: one glider every 30 generations.
pub fn gosper_glider_gun() -> (p: Pattern)
    ensures
        p@ == gosper_glider_gun_view(),
{
    let p = Pattern {
        name: "Gosper Gun",
        description: "Classic glider gun, period 30",
        data: &[
            "                        O           ",
            "                      O O           ",
            "            OO      OO            OO",
            "           O   O    OO            OO",
            "OO        O     O   OO              ",
            "OO        O   O OO    O O           ",
            "          O     O       O           ",
            "           O   O                    ",
            "            OO                      ",
        ],
    };
    assert(p@.rows =~= gosper_glider_gun_view().rows);
    p
}

pub open spec fn simkin_glider_gun_view() -> PatternView {
    PatternView {
        name: "Simkin Gun"@,
        description: "Glider gun, period 120"@,
        rows: seq![
            "OO   OO                "@,
            "OO   OO                "@,
            "                       "@,
            "    OO                 "@,
            "    OO                 "@,
            "                       "@,
            "                       "@,
            "                       "@,
            "                       "@,
            "                       "@,
            "                OO  OO "@,
            "                OO  OO "@,
            "                       "@,
            "                       "@,
            "                   OOOO"@,
            "                 OO   O"@,
            "                 O     "@,
            "                  O   O"@,
            "                   OOOO"@,
        ],
    }
}

/// The Simkin glider gun.
pub fn simkin_glider_gun() -> (p: Pattern)
    ensures
        p@ == simkin_glider_gun_view(),
{
    let p = Pattern {
        name: "Simkin Gun",
        description: "Glider gun, period 120",
        data: &[
            "OO   OO                ",
            "OO   OO                ",
            "                       ",
            "    OO                 ",
            "    OO                 ",
            "                       ",
            "                       ",
            "                       ",
            "                       ",
            "                       ",
            "                OO  OO ",
            "                OO  OO ",
            "                       ",
            "                       ",
            "                   OOOO",
            "                 OO   O",
            "                 O     ",
            "                  O   O",
            "                   OOOO",
        ],
    };
    assert(p@.rows =~= simkin_glider_gun_view().rows);
    p
}

} // verus!
