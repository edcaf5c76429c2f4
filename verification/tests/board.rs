use life::board::Board;
use life::types::{BoardView, State};

#[test]
fn test_new_board() {
    Board::new(5, 5, vec![(0, 0), (1, 1)]);
}

#[test]
fn test_from_lines() {
    let board = Board::from_lines(&vec![
        "____".to_string(),
        "_XX_".to_string(),
        "_XX_".to_string(),
        "____".to_string(),
    ])
    .unwrap();
    let target = Board::new(4, 4, vec![(1, 1), (1, 2), (2, 1), (2, 2)]);
    assert_eq!(board, target);
}

#[test]
fn test_cell_state() {
    let board = Board::new(5, 5, vec![(0, 0), (1, 1)]);
    assert_eq!(board.cell_state(0, 0), State::Alive);
    assert_eq!(board.cell_state(1, 1), State::Alive);
    assert_eq!(board.cell_state(1, 2), State::Dead)
}

#[test]
fn test_neighbor_count() {
    let board = Board::from_lines(&vec![
        "____".to_string(),
        "_XX_".to_string(),
        "_XX_".to_string(),
        "____".to_string(),
    ])
    .unwrap();
    assert_eq!(board.neighbor_count(0, 0), 1);
    assert_eq!(board.neighbor_count(0, 1), 2);
    assert_eq!(board.neighbor_count(0, 2), 2);
    assert_eq!(board.neighbor_count(0, 3), 1);
    assert_eq!(board.neighbor_count(1, 0), 2);
    assert_eq!(board.neighbor_count(1, 1), 3);
    assert_eq!(board.neighbor_count(1, 2), 3);
    assert_eq!(board.neighbor_count(1, 3), 2);
    assert_eq!(board.neighbor_count(2, 0), 2);
    assert_eq!(board.neighbor_count(2, 1), 3);
    assert_eq!(board.neighbor_count(2, 2), 3);
    assert_eq!(board.neighbor_count(2, 3), 2);
    assert_eq!(board.neighbor_count(3, 0), 1);
    assert_eq!(board.neighbor_count(3, 1), 2);
    assert_eq!(board.neighbor_count(3, 2), 2);
    assert_eq!(board.neighbor_count(3, 3), 1);
}
