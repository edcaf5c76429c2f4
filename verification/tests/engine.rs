use life::board::Board;
use life::engine::tick;
use life::types::State::{Alive, Dead};
use life::types::{BoardView, State};

#[test]
fn test_iter_empty() {
    let board = Board::new(0, 0, vec![]);
    let mut it = board.iter();
    let mut cells: Vec<(i32, i32, State)> = Vec::new();
    while let Some(cell) = it.next() {
        cells.push(cell);
    }
    assert_eq!(cells, vec![]);
}

#[test]
fn test_iter_single() {
    let board = Board::new(1, 1, vec![]);
    let mut it = board.iter();
    let mut cells: Vec<(i32, i32, State)> = Vec::new();
    while let Some(cell) = it.next() {
        cells.push(cell);
    }
    assert_eq!(cells, vec![(0, 0, State::Dead)]);
}

#[test]
fn test_iter_many() {
    let board = Board::from_lines(&vec![
        "____".to_string(),
        "_XX_".to_string(),
        "_XX_".to_string(),
        "____".to_string(),
    ])
    .unwrap();

    let target_cells = vec![
        (0, 0, Dead),
        (0, 1, Dead),
        (0, 2, Dead),
        (0, 3, Dead),
        (1, 0, Dead),
        (1, 1, Alive),
        (1, 2, Alive),
        (1, 3, Dead),
        (2, 0, Dead),
        (2, 1, Alive),
        (2, 2, Alive),
        (2, 3, Dead),
        (3, 0, Dead),
        (3, 1, Dead),
        (3, 2, Dead),
        (3, 3, Dead),
    ];
    let mut it = board.iter();
    let mut cells: Vec<(i32, i32, State)> = Vec::new();
    while let Some(cell) = it.next() {
        cells.push(cell);
    }
    assert_eq!(cells, target_cells);
}

#[test]
fn test_tick() {
    let board = Board::new(1, 1, vec![]);
    let next_board = tick(&board);
    let mut it = next_board.iter();
    let mut cells: Vec<(i32, i32, State)> = Vec::new();
    while let Some(cell) = it.next() {
        cells.push(cell);
    }
    assert_eq!(cells, vec![(0, 0, State::Dead)]);
}

#[test]
fn test_tick_block() {
    let board = Board::from_lines(&vec![
        "____".to_string(),
        "_XX_".to_string(),
        "_XX_".to_string(),
        "____".to_string(),
    ])
    .unwrap();
    let next_board = tick(&board);
    assert_eq!(board, next_board);
}

#[test]
fn test_tick_blinker() {
    let board = Board::from_lines(&vec![
        "_____".to_string(),
        "__X__".to_string(),
        "__X__".to_string(),
        "__X__".to_string(),
        "_____".to_string(),
    ])
    .unwrap();
    let next_board = tick(&board);
    let target_board = Board::from_lines(&vec![
        "_____".to_string(),
        "_____".to_string(),
        "_XXX_".to_string(),
        "_____".to_string(),
        "_____".to_string(),
    ])
    .unwrap();
    assert_eq!(next_board, target_board);
}

#[test]
fn test_display_board() {
    let board = Board::from_lines(&vec![
        "_____".to_string(),
        "__X__".to_string(),
        "__X__".to_string(),
        "__X__".to_string(),
        "_____".to_string(),
    ])
    .unwrap();
    let buffer = board.render();
    assert_eq!(buffer, "_____\n__X__\n__X__\n__X__\n_____");
}

#[test]
fn test_window() {
    let board = Board::from_lines(&vec![
        "_____".to_string(),
        "__X__".to_string(),
        "__X__".to_string(),
        "__X__".to_string(),
        "_____".to_string(),
    ])
    .unwrap();
    board.window(2, 2, 4, 2);
}
