use game_of_life::game::Grid;
use game_of_life::patterns::{get_all_patterns, guns, miscellaneous, oscillators, spaceships};

#[test]
fn test_pattern_structure() {
    let blinker = &oscillators::blinker();
    assert_eq!(blinker.name, "Blinker");
    assert_eq!(blinker.description, "Simple oscillator, period 2");
    assert_eq!(blinker.data.len(), 1);
    assert_eq!(blinker.data[0], "OOO");
}

#[test]
fn test_get_all_patterns() {
    let patterns = get_all_patterns();

    assert_eq!(patterns.len(), 4);

    let category_names: Vec<&str> = patterns.iter().map(|(name, _)| *name).collect();
    assert!(category_names.contains(&"Oscillators"));
    assert!(category_names.contains(&"Spaceships"));
    assert!(category_names.contains(&"Guns"));
    assert!(category_names.contains(&"Miscellaneous"));

    for (_, patterns_in_category) in patterns {
        assert!(!patterns_in_category.is_empty());
    }
}

#[test]
fn test_oscillator_patterns() {
    let blinker = &oscillators::blinker();
    assert_eq!(blinker.data.len(), 1);
    assert_eq!(blinker.data[0].len(), 3);

    let pulsar = &oscillators::pulsar();
    assert_eq!(pulsar.data.len(), 13);
    assert_eq!(pulsar.data[0].len(), 13);
}

#[test]
fn test_spaceship_patterns() {
    let glider = &spaceships::glider();
    assert_eq!(glider.data.len(), 3);
    assert_eq!(glider.data[0], " O ");
    assert_eq!(glider.data[1], "  O");
    assert_eq!(glider.data[2], "OOO");

    let lwss = &spaceships::lwss();
    assert_eq!(lwss.data.len(), 4);
    assert!(lwss.data[0].len() >= 4);
}

#[test]
fn test_gun_patterns() {
    let gosper_gun = &guns::gosper_glider_gun();
    assert!(gosper_gun.data.len() >= 9);
    assert!(gosper_gun.data[0].len() >= 30);

    let simkin_gun = &guns::simkin_glider_gun();
    assert!(simkin_gun.data.len() >= 18);
    assert!(simkin_gun.data[0].len() >= 20);
}

#[test]
fn test_miscellaneous_patterns() {
    let block = &miscellaneous::block();
    assert_eq!(block.data.len(), 2);
    assert_eq!(block.data[0], "OO");
    assert_eq!(block.data[1], "OO");

    let r_pentomino = &miscellaneous::r_pentomino();
    assert_eq!(r_pentomino.data.len(), 3);
}

#[test]
fn catalogue_order_and_names() {
    let all = get_all_patterns();
    let names: Vec<(&str, Vec<&str>)> =
        all.iter().map(|(c, ps)| (*c, ps.iter().map(|p| p.name).collect())).collect();
    assert_eq!(
        names,
        vec![
            ("Oscillators", vec!["Blinker", "Toad", "Beacon", "Pulsar", "Pentadecathlon"]),
            ("Spaceships", vec!["Glider", "LWSS", "MWSS", "HWSS"]),
            ("Guns", vec!["Gosper Gun", "Simkin Gun"]),
            ("Miscellaneous", vec!["R-Pentomino", "Diehard", "Acorn", "Block"]),
        ]
    );
}

#[test]
fn presets_load_with_their_live_cell_counts() {
    let mut grid = Grid::new(60, 40);
    grid.load_pattern(guns::gosper_glider_gun().data, 2, 2);
    assert_eq!(grid.count_alive(), 36);
    grid.load_pattern(oscillators::pulsar().data, 0, 0);
    assert_eq!(grid.count_alive(), 48);
    grid.load_pattern(miscellaneous::acorn().data, 10, 10);
    assert_eq!(grid.count_alive(), 7);
}
