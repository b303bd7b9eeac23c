use renderkit::life::{cell_rects, check_map, evolve_state, find_dimensions, read_state, MapError};

#[test]
fn dimensions_of_a_two_row_map() {
    assert_eq!(find_dimensions("__*\n_*_\n"), (3, 2));
}

#[test]
fn dimensions_without_final_newline() {
    assert_eq!(find_dimensions("__*\n_*_"), (3, 2));
}

#[test]
fn dimensions_with_crlf_endings() {
    assert_eq!(find_dimensions("**\r\n__\r\n"), (2, 2));
}

#[test]
fn dimensions_of_empty_map() {
    assert_eq!(find_dimensions(""), (0, 0));
}

#[test]
fn dimensions_count_an_empty_line() {
    assert_eq!(find_dimensions("\n"), (0, 1));
}

#[test]
fn state_in_reading_order() {
    assert_eq!(read_state("_*\n*_\n"), vec![false, true, true, false]);
}

#[test]
fn state_skips_crlf() {
    assert_eq!(read_state("*_\r\n_*"), vec![true, false, false, true]);
}

#[test]
fn state_of_empty_map() {
    assert_eq!(read_state(""), Vec::<bool>::new());
}

#[test]
fn blinker_turns() {
    let map = "_____\n__*__\n__*__\n__*__\n_____\n";
    let (x, y) = find_dimensions(map);
    let mut state = read_state(map);
    evolve_state(&mut state, x, y);
    assert_eq!(state, read_state("_____\n_____\n_***_\n_____\n_____\n"));
    evolve_state(&mut state, x, y);
    assert_eq!(state, read_state(map));
}

#[test]
fn block_is_still() {
    let map = "____\n_**_\n_**_\n____\n";
    let (x, y) = find_dimensions(map);
    let mut state = read_state(map);
    evolve_state(&mut state, x, y);
    assert_eq!(state, read_state(map));
}

#[test]
fn lonely_cell_dies_and_crowded_cell_dies() {
    // The centre cell has four live neighbours and dies, the corners have one
    // each and die too, and the edge cells with three are born; the middle of
    // the bottom row sees only two, as its east neighbour is not counted.
    let mut state = read_state("*_*\n_*_\n*_*\n");
    evolve_state(&mut state, 3, 3);
    assert_eq!(state, read_state("_*_\n*_*\n___\n"));
}

#[test]
fn bottom_row_ignores_east_neighbour() {
    let mut state = read_state("**_\n_*_\n");
    evolve_state(&mut state, 3, 2);
    assert_eq!(state, vec![true, true, false, false, true, false]);
}

#[test]
fn empty_board_evolves_to_empty() {
    let mut state: Vec<bool> = Vec::new();
    evolve_state(&mut state, 0, 0);
    assert!(state.is_empty());
}

#[test]
fn live_cells_get_window_rectangles() {
    let state = read_state("*_*\n_*_\n");
    assert_eq!(
        cell_rects(&state, 3, 2, 800, 800),
        vec![(0, 0, 266, 400), (532, 0, 266, 400), (266, 400, 266, 400)]
    );
}

#[test]
fn dead_board_draws_nothing() {
    assert!(cell_rects(&vec![false; 4], 2, 2, 10, 10).is_empty());
}

#[test]
fn parsed_board_has_width_times_height_cells() {
    let map = "*_*_\r\n____\r\n_**_";
    let (x, y) = find_dimensions(map);
    assert_eq!((x, y), (4, 3));
    assert_eq!(read_state(map).len(), x * y);
}

#[test]
fn well_formed_maps_pass_the_check() {
    assert_eq!(check_map("_*\n*_\n"), Ok(()));
    assert_eq!(check_map("_*\r\n*_"), Ok(()));
    assert_eq!(check_map(""), Ok(()));
}

#[test]
fn ragged_map_is_refused() {
    assert_eq!(check_map("_*\n*__\n"), Err(MapError::InconsistentWidth));
    assert_eq!(check_map("_*\n\n"), Err(MapError::InconsistentWidth));
}

#[test]
fn stray_character_is_refused() {
    assert_eq!(check_map("_x\n*_\n"), Err(MapError::InvalidChar));
    assert_eq!(check_map("_*\r*_\r"), Err(MapError::InvalidChar));
}

#[test]
fn width_error_comes_before_character_error() {
    assert_eq!(check_map("_x\n*__\n"), Err(MapError::InconsistentWidth));
}
