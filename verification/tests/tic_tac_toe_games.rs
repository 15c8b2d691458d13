//! Tic-tac-toe fixtures: the empty board searched to depth nine resolves
//! to a guaranteed tie, immediate wins are found with their exact ply
//! distance, and a full memoized search leaves only fully determined
//! table entries.

use game_solvers::game::{Game, GameResult, Player};
use game_solvers::games::tic_tac_toe::TicTacToe;
use game_solvers::score::{DeterminedScore, ScoreValue};
use game_solvers::solvers::alpha_beta::AlphaBeta;
use game_solvers::solvers::simple::SimpleSolver;
use game_solvers::solvers::ttable_alpha_beta::TTAlphaBeta;
use game_solvers::solvers::ttable_solver::TTSolver;

#[test]
fn test_solve_tic_tac_toe_simple() {
    let mut solver = SimpleSolver::new();
    let (score, m) = solver.best_move_determined(&TicTacToe::new(), 9);
    assert_eq!(score, DeterminedScore::guaranteed_tie());
    assert!(m.is_some());
}

#[test]
fn test_solve_tic_tac_toe_ttable() {
    let mut solver = TTSolver::new();
    let (score, m) = solver.best_move_determined(&TicTacToe::new(), 9);
    assert_eq!(score, DeterminedScore::guaranteed_tie());
    assert!(m.is_some());
}

#[test]
fn test_solve_tic_tac_toe_alpha_beta() {
    let mut solver = AlphaBeta::new();
    let (score, _) = solver.best_move(&TicTacToe::new(), 9);
    // A pruning solver may return a bound, but it must not contradict
    // the known tie.
    assert!(score.compatible(game_solvers::score::Score::guaranteed_tie()), "{score:?}");
}

#[test]
fn test_solve_tic_tac_toe_ttable_alpha_beta() {
    let mut solver = TTAlphaBeta::new();
    let (score, _) = solver.best_move(&TicTacToe::new(), 9);
    assert!(score.compatible(game_solvers::score::Score::guaranteed_tie()), "{score:?}");
}

/// After a full-depth memoized search, every table entry is fully
/// determined.
#[test]
fn test_fully_determined() {
    let mut solver = TTSolver::new();
    solver.best_move(&TicTacToe::new(), 9);
    assert!(!solver.table().is_empty());
    for (key, score) in solver.table() {
        assert!(score.fully_determined(), "entry {key}: {score:?}");
    }
}

// The board below, first player to move, row-major cells:
//   X X .
//   O O .
//   . . .
fn double_threat() -> TicTacToe {
    TicTacToe { cells: [1, 1, 0, 2, 2, 0, 0, 0, 0], turn: Player::First }
}

#[test]
fn test_immediate_win_is_found_at_distance_one() {
    let mut solver = SimpleSolver::new();
    let (score, m) = solver.best_move_determined(&double_threat(), 5);
    assert_eq!(score, DeterminedScore::win(1));
    assert_eq!(m, Some(2));

    let mut solver = TTSolver::new();
    let (score, m) = solver.best_move_determined(&double_threat(), 5);
    assert_eq!(score, DeterminedScore::win(1));
    assert_eq!(m, Some(2));
}

#[test]
fn test_immediate_win_for_the_other_side() {
    let g = TicTacToe { cells: [1, 1, 0, 2, 2, 0, 0, 0, 0], turn: Player::Second };
    let mut solver = SimpleSolver::new();
    let (score, m) = solver.best_move_determined(&g, 5);
    assert_eq!(score, DeterminedScore::win(1));
    assert_eq!(m, Some(5));
}

#[test]
fn test_forced_loss_two_plies_out() {
    // O to move faces three threats at once (the row 0-1-2, the column
    // 1-4-7 and the diagonal 0-4-8) and can block only one of them:
    //   X X .
    //   . X O
    //   O . .
    let g = TicTacToe { cells: [1, 1, 0, 0, 1, 2, 2, 0, 0], turn: Player::Second };
    let mut solver = SimpleSolver::new();
    let (score, _) = solver.best_move_determined(&g, 5);
    assert_eq!(score, DeterminedScore::lose(2));
}

#[test]
fn test_rules_win_detection() {
    let g = TicTacToe { cells: [1, 1, 1, 2, 2, 0, 0, 0, 0], turn: Player::Second };
    assert!(matches!(g.finished(), GameResult::Win(Player::First)));
    let g = TicTacToe { cells: [1, 2, 1, 1, 2, 0, 0, 2, 1], turn: Player::First };
    assert!(matches!(g.finished(), GameResult::Win(Player::Second)));
    let g = TicTacToe { cells: [1, 2, 1, 1, 2, 2, 2, 1, 1], turn: Player::Second };
    assert!(matches!(g.finished(), GameResult::Tie));
    let g = TicTacToe::new();
    assert!(matches!(g.finished(), GameResult::NotFinished));
    assert_eq!(g.each_move().len(), 9);
}

#[test]
fn test_moves_shrink_and_alternate() {
    let g = TicTacToe::new();
    let g = g.with_move(4);
    assert_eq!(g.current_player(), Player::Second);
    assert_eq!(g.each_move(), vec![0, 1, 2, 3, 5, 6, 7, 8]);
    let g = g.with_move(0);
    assert_eq!(g.current_player(), Player::First);
    assert_eq!(g.each_move().len(), 7);
    assert_eq!(g.cells[4], 1);
    assert_eq!(g.cells[0], 2);
}

/// Follows one game line move by move, checking the exact determined
/// value and the best reply at every step.  Cells are numbered row-major
/// from the top-left; the first player marks 1, the second 2.
fn played(moves: &[u8]) -> TicTacToe {
    let mut g = TicTacToe::new();
    for &m in moves {
        g = g.with_move(m);
    }
    g
}

#[test]
fn test_endgame_line_simple() {
    check_endgame_line(|g, depth| SimpleSolver::new().best_move_determined(g, depth));
}

#[test]
fn test_endgame_line_ttable() {
    check_endgame_line(|g, depth| TTSolver::new().best_move_determined(g, depth));
}

fn check_endgame_line(
    mut solve: impl FnMut(&TicTacToe, u32) -> (DeterminedScore, Option<u8>),
) {
    // The empty board is a tie.
    let (score, m) = solve(&TicTacToe::new(), 9);
    assert_eq!(score, DeterminedScore::guaranteed_tie());
    assert!(m.is_some());

    // . . .        X in the bottom-left corner: still a tie; any reply
    // . . .        returned must be one of the tie-preserving ones next
    // X . .        to the corner or in the center.
    let g = played(&[6]);
    let (score, m) = solve(&g, 8);
    assert_eq!(score, DeterminedScore::guaranteed_tie());
    assert!(m == Some(3) || m == Some(4) || m == Some(7), "{m:?}");

    // . . .        O in the bottom-right corner is a blunder: X forces a
    // . . .        win in five plies; the tie-break among equally fast
    // X . O        winning moves is unspecified, so check instead that
    //              the returned move really wins in the promised time.
    let g = played(&[6, 8]);
    let (score, m) = solve(&g, 7);
    assert_eq!(score, DeterminedScore::win(5));
    let (after, _) = solve(&g.with_move(m.unwrap()), 6);
    assert_eq!(after, DeterminedScore::lose(4));

    // . . X        O is lost in four plies; the returned move must delay
    // . . .        the longest, leaving X a win in three, not less.
    // X . O
    let g = played(&[6, 8, 2]);
    let (score, m) = solve(&g, 6);
    assert_eq!(score, DeterminedScore::lose(4));
    let (after, _) = solve(&g.with_move(m.unwrap()), 5);
    assert_eq!(after, DeterminedScore::win(3));

    // . . X        X wins in three with the move it returns.
    // . O .
    // X . O
    let g = played(&[6, 8, 2, 4]);
    let (score, m) = solve(&g, 5);
    assert_eq!(score, DeterminedScore::win(3));
    let (after, _) = solve(&g.with_move(m.unwrap()), 4);
    assert_eq!(after, DeterminedScore::lose(2));

    // X . X        O faces two threats and loses in two whatever it
    // . O .        plays.
    // X . O
    let g = played(&[6, 8, 2, 4, 0]);
    let (score, m) = solve(&g, 5);
    assert_eq!(score, DeterminedScore::lose(2));
    assert!(m.is_some());

    // X . X        X mates on the spot: the returned move ends the game
    // O O .        at once, won for the first player.
    // X . O
    let g = played(&[6, 8, 2, 4, 0, 3]);
    let (score, m) = solve(&g, 4);
    assert_eq!(score, DeterminedScore::win(1));
    let won = g.with_move(m.unwrap());
    assert!(matches!(won.finished(), GameResult::Win(Player::First)));
}
