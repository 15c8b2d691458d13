//! The five-wide, four-tall, three-in-a-row connect game: opening in the
//! leftmost column is a losing first move — a search of the resulting
//! position to depth twelve proves the forced win for the player replying,
//! whose optimal reply lies next to the opening piece.

use game_solvers::game::{Game, GameResult, Player};
use game_solvers::games::connect_three::ConnectThree;
use game_solvers::score::ScoreValue;
use game_solvers::solvers::iter_deep::IterativeDeepening;
use game_solvers::solvers::ttable_alpha_beta::TTAlphaBeta;

#[test]
fn test_lose_in_corner() {
    let conn = ConnectThree::new().with_move(0);
    let mut solver = TTAlphaBeta::new();
    let (score, m) = solver.best_move(&conn, 12);
    assert_eq!(score.score_at_depth(12), ScoreValue::CurrentPlayerWins, "{score:?}");
    assert!(m == Some(1) || m == Some(2), "{m:?}");
}

#[test]
fn test_lose_in_corner_iterative_deepening() {
    let conn = ConnectThree::new().with_move(0);
    let mut solver = IterativeDeepening::new();
    let (score, m) = solver.best_move(&conn, 12);
    assert_eq!(score.score_at_depth(12), ScoreValue::CurrentPlayerWins, "{score:?}");
    assert!(m == Some(1) || m == Some(2), "{m:?}");
}

#[test]
fn test_pieces_fall_to_the_bottom() {
    let g = ConnectThree::new();
    assert_eq!(g.each_move(), vec![0, 1, 2, 3, 4]);
    let g = g.with_move(2).with_move(2).with_move(2).with_move(2);
    // Column 2 is full now; cells bottom-up: X O X O.
    assert_eq!(g.cells[8], 1);
    assert_eq!(g.cells[9], 2);
    assert_eq!(g.cells[10], 1);
    assert_eq!(g.cells[11], 2);
    assert_eq!(g.each_move(), vec![0, 1, 3, 4]);
}

#[test]
fn test_vertical_win_detected() {
    // First stacks column 0 three times while Second wastes moves in
    // column 4.
    let g = ConnectThree::new()
        .with_move(0)
        .with_move(4)
        .with_move(0)
        .with_move(4)
        .with_move(0);
    assert!(matches!(g.finished(), GameResult::Win(Player::First)));
}

#[test]
fn test_horizontal_win_detected() {
    let g = ConnectThree::new()
        .with_move(1)
        .with_move(1)
        .with_move(2)
        .with_move(2)
        .with_move(3);
    assert!(matches!(g.finished(), GameResult::Win(Player::First)));
}

#[test]
fn test_diagonal_win_detected() {
    // First builds the rising diagonal from column 1: heights 1, 2, 3.
    let g = ConnectThree::new()
        .with_move(1)
        .with_move(2)
        .with_move(2)
        .with_move(3)
        .with_move(4)
        .with_move(3)
        .with_move(3);
    assert!(matches!(g.finished(), GameResult::Win(Player::First)));
    assert_eq!(g.current_player(), Player::Second);
}

#[test]
fn test_immediate_connect_win_found() {
    // First has two pieces at the bottom of columns 1 and 2 and wins by
    // playing column 3; Second's pieces sit on top of column 1.
    let g = ConnectThree::new()
        .with_move(1)
        .with_move(1)
        .with_move(2)
        .with_move(1);
    let mut solver = TTAlphaBeta::new();
    let (score, m) = solver.best_move(&g, 4);
    assert_eq!(score.score_at_depth(4), ScoreValue::CurrentPlayerWins, "{score:?}");
    assert_eq!(m, Some(3));
}
