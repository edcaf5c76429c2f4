use life::board::{Board, BoardReadError};
use life::types::{BoardView, State};

#[test]
fn round_trip_display() {
    let lines = vec![
        "X__X".to_string(),
        "____".to_string(),
        "_XX_".to_string(),
    ];
    let board = Board::from_lines(&lines).unwrap();
    assert_eq!(board.render(), "X__X\n____\n_XX_");
}

#[test]
fn round_trip_display_single_row() {
    let lines = vec!["_X_".to_string()];
    let board = Board::from_lines(&lines).unwrap();
    assert_eq!(board.render(), "_X_");
}

#[test]
fn out_of_range_reads_dead() {
    let board = Board::from_lines(&vec!["XX".to_string(), "XX".to_string()]).unwrap();
    assert_eq!(board.cell_state(-1, 0), State::Dead);
    assert_eq!(board.cell_state(0, -1), State::Dead);
    assert_eq!(board.cell_state(2, 0), State::Dead);
    assert_eq!(board.cell_state(0, 2), State::Dead);
    assert_eq!(board.cell_state(-5, -5), State::Dead);
}

#[test]
fn stored_coordinates_outside_rectangle_still_read_alive() {
    // Construction does not validate coordinates against the declared
    // rectangle, and lookups are never clipped.
    let board = Board::new(2, 2, vec![(5, 5)]);
    assert_eq!(board.cell_state(5, 5), State::Alive);
    assert_eq!(board.cell_state(1, 1), State::Dead);
}

#[test]
fn new_deduplicates_living_coordinates() {
    let doubled = Board::new(2, 2, vec![(0, 0), (0, 0), (1, 1)]);
    let plain = Board::new(2, 2, vec![(1, 1), (0, 0)]);
    assert_eq!(doubled, plain);
}

#[test]
fn unknown_character_fails_parse() {
    let err = Board::from_lines(&vec!["__".to_string(), "_A_".to_string()]).unwrap_err();
    assert!(matches!(err, BoardReadError::UnknownCharacter(1, 1, 'A')));
}

#[test]
fn ragged_lines_widen_to_longest() {
    let board = Board::from_lines(&vec!["X".to_string(), "XXX".to_string()]).unwrap();
    assert_eq!(board.dim_x, 2);
    assert_eq!(board.dim_y, 3);
    assert_eq!(board.cell_state(0, 0), State::Alive);
    assert_eq!(board.cell_state(0, 1), State::Dead);
    assert_eq!(board.cell_state(0, 2), State::Dead);
    assert_eq!(board.cell_state(1, 2), State::Alive);
    assert_eq!(board.render(), "X__\nXXX");
}

#[test]
fn window_agrees_with_board_everywhere() {
    let board = Board::from_lines(&vec![
        "_____".to_string(),
        "__X__".to_string(),
        "__X__".to_string(),
        "__X__".to_string(),
        "_____".to_string(),
    ])
    .unwrap();
    let window = board.window(1, 1, 3, 3);
    for x in -2..7 {
        for y in -2..7 {
            assert_eq!(window.cell_state(x, y), board.cell_state(x, y));
        }
    }
}

#[test]
fn window_render_scopes_to_rectangle() {
    let board = Board::from_lines(&vec![
        "_____".to_string(),
        "__X__".to_string(),
        "__X__".to_string(),
        "__X__".to_string(),
        "_____".to_string(),
    ])
    .unwrap();
    let window = board.window(1, 1, 3, 3);
    assert_eq!(window.render(), "_X_\n_X_\n_X_");
}

#[test]
fn as_window_covers_full_extent() {
    let board = Board::new(4, 6, vec![]);
    let window = board.as_window();
    assert_eq!(window.min_x, 0);
    assert_eq!(window.min_y, 0);
    assert_eq!(window.max_x, 3);
    assert_eq!(window.max_y, 5);
    let again = window.as_window();
    assert_eq!(again.min_x, 0);
    assert_eq!(again.max_y, 5);
}

#[test]
fn window_offsets_shift_the_minimum_corner() {
    let board = Board::new(5, 5, vec![]);
    let shifted = board.window_offsets(1, 2, 2, 2);
    assert_eq!(shifted.min_x, 1);
    assert_eq!(shifted.min_y, 2);
    assert_eq!(shifted.max_x, 3);
    assert_eq!(shifted.max_y, 4);
    let nested = shifted.window_offsets(1, 1, 1, 1);
    assert_eq!(nested.min_x, 2);
    assert_eq!(nested.min_y, 3);
    assert_eq!(nested.max_x, 3);
    assert_eq!(nested.max_y, 4);
}

#[test]
fn window_iteration_is_scoped_and_ordered() {
    let board = Board::from_lines(&vec![
        "_____".to_string(),
        "__X__".to_string(),
        "__X__".to_string(),
        "__X__".to_string(),
        "_____".to_string(),
    ])
    .unwrap();
    let window = board.window(1, 2, 2, 3);
    let mut it = window.into_iter();
    let mut cells: Vec<(i32, i32, State)> = Vec::new();
    while let Some(cell) = it.next() {
        cells.push(cell);
    }
    assert_eq!(
        cells,
        vec![
            (1, 2, State::Alive),
            (1, 3, State::Dead),
            (2, 2, State::Alive),
            (2, 3, State::Dead),
        ]
    );
}

#[test]
fn empty_window_yields_nothing() {
    let board = Board::new(3, 3, vec![(0, 0)]);
    let window = board.window(2, 2, 1, 1);
    let mut it = window.into_iter();
    assert!(it.next().is_none());
}

#[test]
fn tick_keeps_dimensions() {
    let board = Board::new(2, 3, vec![]);
    let next_board = life::engine::tick(&board);
    assert_eq!(next_board.dim_x, 2);
    assert_eq!(next_board.dim_y, 3);
    assert_eq!(next_board, board);
}

#[test]
fn lonely_cell_dies_in_one_tick() {
    let board = Board::from_lines(&vec!["___".to_string(), "_X_".to_string(), "___".to_string()])
        .unwrap();
    let next_board = life::engine::tick(&board);
    assert_eq!(next_board.render(), "___\n___\n___");
}
