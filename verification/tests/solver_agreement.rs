//! Cross-solver agreement: the two exhaustive solvers give the same
//! verdict at every probed position and depth, and the pruning solvers
//! never contradict the exhaustive one.

use game_solvers::game::Game;
use game_solvers::games::nim::Nim;
use game_solvers::games::tic_tac_toe::TicTacToe;
use game_solvers::solvers::alpha_beta::AlphaBeta;
use game_solvers::solvers::iter_deep::IterativeDeepening;
use game_solvers::solvers::simple::SimpleSolver;
use game_solvers::solvers::ttable_alpha_beta::TTAlphaBeta;
use game_solvers::solvers::ttable_solver::TTSolver;

#[test]
fn test_exhaustive_solvers_agree_on_nim() {
    for sticks in 1..=12u32 {
        for depth in 0..=14u32 {
            let game = Nim::new(sticks);
            let (s1, _) = SimpleSolver::new().best_move(&game, depth);
            let (s2, _) = TTSolver::new().best_move(&game, depth);
            assert_eq!(
                s1.score_at_depth(depth),
                s2.score_at_depth(depth),
                "{sticks} sticks at depth {depth}: {s1:?} vs {s2:?}"
            );
            assert!(s1.compatible(s2), "{sticks} sticks at depth {depth}");
        }
    }
}

fn ttt_positions() -> Vec<TicTacToe> {
    let empty = TicTacToe::new();
    let mut positions = vec![empty];
    // A short deterministic playout tree: every position reached from the
    // empty board by one or two of a few fixed moves.
    for a in [0u8, 2, 4, 7] {
        let one = empty.with_move(a);
        positions.push(one);
        for b in [1u8, 4, 8] {
            if b != a {
                positions.push(one.with_move(b));
            }
        }
    }
    positions
}

#[test]
fn test_exhaustive_solvers_agree_on_tic_tac_toe() {
    for game in ttt_positions() {
        for depth in 0..=7u32 {
            let (s1, _) = SimpleSolver::new().best_move(&game, depth);
            let (s2, _) = TTSolver::new().best_move(&game, depth);
            assert_eq!(
                s1.score_at_depth(depth),
                s2.score_at_depth(depth),
                "depth {depth}: {s1:?} vs {s2:?} on {game:?}"
            );
            assert!(s1.compatible(s2), "depth {depth} on {game:?}");
        }
    }
}

#[test]
fn test_pruning_solvers_compatible_on_nim() {
    for sticks in 1..=12u32 {
        for depth in 0..=14u32 {
            let game = Nim::new(sticks);
            let (s1, _) = SimpleSolver::new().best_move(&game, depth);
            let (s2, _) = AlphaBeta::new().best_move(&game, depth);
            assert!(s1.compatible(s2), "{sticks} sticks at depth {depth}: {s1:?} vs {s2:?}");
            let (s3, _) = TTAlphaBeta::new().best_move(&game, depth);
            assert!(s1.compatible(s3), "{sticks} sticks at depth {depth}: {s1:?} vs {s3:?}");
            let (s4, _) = IterativeDeepening::new().best_move(&game, depth);
            assert!(s1.compatible(s4), "{sticks} sticks at depth {depth}: {s1:?} vs {s4:?}");
        }
    }
}

#[test]
fn test_pruning_solvers_compatible_on_tic_tac_toe() {
    for game in ttt_positions() {
        for depth in 0..=7u32 {
            let (s1, _) = SimpleSolver::new().best_move(&game, depth);
            let (s2, _) = AlphaBeta::new().best_move(&game, depth);
            assert!(s1.compatible(s2), "depth {depth}: {s1:?} vs {s2:?} on {game:?}");
            let (s3, _) = TTAlphaBeta::new().best_move(&game, depth);
            assert!(s1.compatible(s3), "depth {depth}: {s1:?} vs {s3:?} on {game:?}");
        }
    }
}

#[test]
fn test_determined_searches_agree_after_truncation() {
    for game in ttt_positions() {
        let (d1, _) = SimpleSolver::new().best_move_determined(&game, 9);
        let (d2, _) = TTSolver::new().best_move_determined(&game, 9);
        assert_eq!(d1, d2, "on {game:?}");
    }
    // Unequal budgets, both covering: identical once clamped to the
    // shared horizon.
    let game = Nim::new(6);
    let (s1, _) = SimpleSolver::new().best_move(&game, 7);
    let (s2, _) = TTSolver::new().best_move(&game, 12);
    assert_eq!(s1.truncated(7), s2.truncated(7), "{s1:?} vs {s2:?}");
}
