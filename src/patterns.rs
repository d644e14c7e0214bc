//! Preset stencils, grouped by kind, for `Grid::load_pattern`.

pub mod guns;
pub mod miscellaneous;
pub mod oscillators;
pub mod spaceships;

use vstd::prelude::*;
use crate::game::stencil_rows;

verus! {

/// A named stencil: each string is one row, with 'O' for a live cell.
#[derive(Clone, Copy, Debug)]
pub struct Pattern {
    pub name: &'static str,
    pub description: &'static str,
    pub data: &'static [&'static str],
}

/// What a stencil says: its name, its description and its rows.
pub struct PatternView {
    pub name: Seq<char>,
    pub description: Seq<char>,
    pub rows: Seq<Seq<char>>,
}

impl View for Pattern {
    type V = PatternView;

    open spec fn view(&self) -> PatternView {
        PatternView { name: self.name@, description: self.description@, rows: stencil_rows(self.data@) }
    }
}

/// The preset stencils by category: each category's name and what its
/// patterns say, in order.
pub open spec fn catalog() -> Seq<(Seq<char>, Seq<PatternView>)> {
    seq![
        (
            "Oscillators"@,
            seq![oscillators::blinker_view(), oscillators::toad_view(), oscillators::beacon_view(), oscillators::pulsar_view(), oscillators::pentadecathlon_view()],
        ),
        (
            "Spaceships"@,
            seq![spaceships::glider_view(), spaceships::lwss_view(), spaceships::mwss_view(), spaceships::hwss_view()],
        ),
        (
            "Guns"@,
            seq![guns::gosper_glider_gun_view(), guns::simkin_glider_gun_view()],
        ),
        (
            "Miscellaneous"@,
            seq![miscellaneous::r_pentomino_view(), miscellaneous::diehard_view(), miscellaneous::acorn_view(), miscellaneous::block_view()],
        ),
    ]
}

/// Every preset stencil, grouped into the categories of `catalog`.
pub fn get_all_patterns() -> (r: Vec<(&'static str, Vec<Pattern>)>)
    ensures
        r@.len() == catalog().len(),
        forall|i: int|
            0 <= i < r@.len() ==> (#[trigger] r@[i]).0@ == catalog()[i].0 && r@[i].1@.map_values(
                |p: Pattern| p@,
            ) == catalog()[i].1,
{
    let mut all: Vec<(&'static str, Vec<Pattern>)> = Vec::new();
    let mut oscillators: Vec<Pattern> = Vec::new();
    oscillators.push(oscillators::blinker());
    oscillators.push(oscillators::toad());
    oscillators.push(oscillators::beacon());
    oscillators.push(oscillators::pulsar());
    oscillators.push(oscillators::pentadecathlon());
    all.push(("Oscillators", oscillators));
    assert(all@.last().1@.map_values(|p: Pattern| p@) =~= catalog()[0].1);
    let mut spaceships: Vec<Pattern> = Vec::new();
    spaceships.push(spaceships::glider());
    spaceships.push(spaceships::lwss());
    spaceships.push(spaceships::mwss());
    spaceships.push(spaceships::hwss());
    all.push(("Spaceships", spaceships));
    assert(all@.last().1@.map_values(|p: Pattern| p@) =~= catalog()[1].1);
    let mut guns: Vec<Pattern> = Vec::new();
    guns.push(guns::gosper_glider_gun());
    guns.push(guns::simkin_glider_gun());
    all.push(("Guns", guns));
    assert(all@.last().1@.map_values(|p: Pattern| p@) =~= catalog()[2].1);
    let mut miscellaneous: Vec<Pattern> = Vec::new();
    miscellaneous.push(miscellaneous::r_pentomino());
    miscellaneous.push(miscellaneous::diehard());
    miscellaneous.push(miscellaneous::acorn());
    miscellaneous.push(miscellaneous::block());
    all.push(("Miscellaneous", miscellaneous));
    assert(all@.last().1@.map_values(|p: Pattern| p@) =~= catalog()[3].1);
    all
}

} // verus!
