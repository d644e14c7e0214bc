use game_of_life::game::{CellState, Grid};
use game_of_life::save_load::{export_to_rle_string, import_from_rle_string, RleError, RlePattern};

#[test]
fn test_rle_pattern_creation() {
    let mut grid = Grid::new(5, 5);
    grid.set_cell(1, 1, CellState::Alive);
    grid.set_cell(2, 2, CellState::Alive);

    let pattern = RlePattern::from_grid(&grid, "Test Pattern".to_string());

    assert_eq!(pattern.width, 5);
    assert_eq!(pattern.height, 5);
    assert_eq!(pattern.name, "Test Pattern");
    assert!(pattern.data[1][1]);
    assert!(pattern.data[2][2]);
    assert!(!pattern.data[0][0]);
}

#[test]
fn test_rle_pattern_to_grid() {
    let mut pattern = RlePattern::new("Test".to_string(), 3, 3);
    pattern.data[0][0] = true;
    pattern.data[1][1] = true;
    pattern.data[2][2] = true;

    let grid = pattern.to_grid().unwrap();
    assert_eq!(grid.width(), 3);
    assert_eq!(grid.height(), 3);
    assert_eq!(*grid.get_cell(0, 0), CellState::Alive);
    assert_eq!(*grid.get_cell(1, 1), CellState::Alive);
    assert_eq!(*grid.get_cell(2, 2), CellState::Alive);
    assert_eq!(*grid.get_cell(0, 1), CellState::Dead);
}

#[test]
fn save_load_test_rle_export_import() {
    let mut pattern = RlePattern::new("Test Pattern".to_string(), 3, 3);
    pattern.data[1][1] = true;
    pattern.comment = "Test comment".to_string();

    let rle_string = export_to_rle_string(&pattern);

    let imported = import_from_rle_string(&rle_string).unwrap();

    assert_eq!(imported.width, 3);
    assert_eq!(imported.height, 3);
    assert_eq!(imported.name, "Test Pattern");
    assert_eq!(imported.comment, "Test comment");
    assert!(imported.data[1][1]);
    assert!(!imported.data[0][0]);
}

#[test]
fn test_rle_validation() {
    let invalid_pattern = RlePattern::new("Invalid".to_string(), 0, 5);
    assert!(invalid_pattern.to_grid().is_err());

    let valid_pattern = RlePattern::new("Valid".to_string(), 3, 3);
    assert!(valid_pattern.to_grid().is_ok());
}

#[test]
fn rle_test_rle_export_import() {
    let mut pattern = RlePattern::new("Test Pattern".to_string(), 3, 3);
    pattern.data[1][1] = true;
    pattern.comment = "Test comment".to_string();

    let rle_string = export_to_rle_string(&pattern);
    println!("Exported RLE:\n{}", rle_string);

    let imported = import_from_rle_string(&rle_string).unwrap();

    assert_eq!(imported.width, 3);
    assert_eq!(imported.height, 3);
    assert_eq!(imported.name, "Test Pattern");
    assert_eq!(imported.comment, "Test comment");
    assert!(imported.data[1][1]);
    assert!(!imported.data[0][0]);
}

fn parse_error(text: &str) -> String {
    match import_from_rle_string(text) {
        Err(RleError::ParseError(m)) => m,
        Err(RleError::InvalidFormat(m)) => panic!("unexpected format error: {}", m),
        Ok(_) => panic!("unexpected success"),
    }
}

fn format_error(text: &str) -> String {
    match import_from_rle_string(text) {
        Err(RleError::InvalidFormat(m)) => m,
        Err(RleError::ParseError(m)) => panic!("unexpected parse error: {}", m),
        Ok(_) => panic!("unexpected success"),
    }
}

#[test]
fn export_writes_exact_text() {
    let mut pattern = RlePattern::new("Glider".to_string(), 3, 3);
    pattern.data[0][1] = true;
    pattern.data[1][2] = true;
    pattern.data[2][0] = true;
    pattern.data[2][1] = true;
    pattern.data[2][2] = true;
    pattern.author = "Richard K. Guy".to_string();
    assert_eq!(
        export_to_rle_string(&pattern),
        "#N Glider\n#O Richard K. Guy\nx = 3, y = 3, rule = B3/S23\nbob$2bo$3o!\n"
    );
}

#[test]
fn export_counts_long_runs_and_blank_rows() {
    let mut pattern = RlePattern::new(String::new(), 12, 2);
    for x in 0..11 {
        pattern.data[1][x] = true;
    }
    assert_eq!(export_to_rle_string(&pattern), "x = 12, y = 2, rule = B3/S23\n12b$11ob!\n");
    let empty = RlePattern::new(String::new(), 0, 3);
    assert_eq!(export_to_rle_string(&empty), "x = 0, y = 3, rule = B3/S23\n\n");
}

#[test]
fn import_reads_every_field() {
    let text = "#N Glider\r\n#C first\n#C second\n#O someone\n#X ignored\n\n  x = 3, y = 3, rule = B36/S23  \nbo$2bo$\n3o!\n";
    let p = import_from_rle_string(text).unwrap();
    assert_eq!(p.name, "Glider");
    assert_eq!(p.comment, "first\nsecond");
    assert_eq!(p.author, "someone");
    assert_eq!(p.rule, "B36/S23");
    assert_eq!((p.width, p.height), (3, 3));
    assert_eq!(
        p.data,
        vec![vec![false, true, false], vec![false, false, true], vec![true, true, true]]
    );
    let grid = p.to_grid().unwrap();
    assert_eq!(grid.count_alive(), 5);
}

#[test]
fn import_defaults_and_clipping() {
    let p = import_from_rle_string("x=2,y=1\n5o$3o!").unwrap();
    assert_eq!(p.name, "Imported Pattern");
    assert_eq!(p.rule, "B3/S23");
    assert_eq!(p.comment, "");
    assert_eq!(p.data, vec![vec![true, true]]);
    let q = import_from_rle_string("x = 4, y = 2\n99999999999999999999999b o $ o o!!!").unwrap_err();
    assert!(matches!(q, RleError::ParseError(_)));
    let r = import_from_rle_string("x = 4, y = 2\n2b o\t$ o o!ignored").unwrap();
    assert_eq!(r.data, vec![vec![false, false, true, false], vec![true, true, false, false]]);
}

#[test]
fn import_error_messages() {
    assert_eq!(format_error("bo$2bo!"), "Missing header line (x = ..., y = ...)");
    assert_eq!(format_error("x = 0, y = 3\n"), "Width and height must be greater than 0");
    assert_eq!(format_error("x = 3\nbo!"), "Width and height must be greater than 0");
    assert_eq!(parse_error("x = 3a, y = 3"), "Invalid width: 3a");
    assert_eq!(parse_error("x = 3, y = -1"), "Invalid height: -1");
    assert_eq!(parse_error("x = 3, y = 3\n3"), "Number not followed by character");
    assert_eq!(parse_error("x = 3, y = 3\n2x"), "Invalid character after number: x");
    assert_eq!(parse_error("x = 3, y = 3\nbo$q"), "Invalid character: q");
    assert_eq!(
        parse_error("x = 3, y = 3\n99999999999999999999999o"),
        "Invalid number: 99999999999999999999999"
    );
}

#[test]
fn header_number_forms() {
    let p = import_from_rle_string("x = +7, y = 0012\n").unwrap();
    assert_eq!((p.width, p.height), (7, 12));
    assert_eq!(parse_error("x = +, y = 2"), "Invalid width: +");
    assert_eq!(parse_error("x = , y = 2"), "Invalid width: ");
}

#[test]
fn error_message_text() {
    assert_eq!(RleError::ParseError("bad".to_string()).message(), "Parse error: bad");
    assert_eq!(RleError::InvalidFormat("odd".to_string()).message(), "Invalid format: odd");
}

#[test]
fn grid_round_trip_through_text() {
    let mut grid = Grid::new(6, 5);
    grid.load_pattern(&[" OO", "OO ", " O "], 1, 1);
    let text = export_to_rle_string(&RlePattern::from_grid(&grid, "R".to_string()));
    let back = import_from_rle_string(&text).unwrap().to_grid().unwrap();
    for y in 0..5 {
        for x in 0..6 {
            assert_eq!(back.get_cell(x, y), grid.get_cell(x, y));
        }
    }
}

#[test]
fn place_centered_grows_and_centres() {
    let mut p = RlePattern::new("Dot".to_string(), 3, 1);
    p.data[0][0] = true;
    p.data[0][2] = true;
    let g = p.place_centered(8, 5);
    assert_eq!((g.width(), g.height()), (8, 5));
    // margins: (8 - 3) / 2 = 2 and (5 - 1) / 2 = 2
    assert_eq!(*g.get_cell(2, 2), CellState::Alive);
    assert_eq!(*g.get_cell(4, 2), CellState::Alive);
    assert_eq!(g.count_alive(), 2);
    let big = p.place_centered(1, 1);
    assert_eq!((big.width(), big.height()), (3, 1));
    assert_eq!(*big.get_cell(0, 0), CellState::Alive);
}
