//! Nim with one stick or two taken per turn, last mover wins: the mover
//! loses under optimal play exactly when the pile is a multiple of
//! three, and a winning mover reduces the pile to a multiple of three.

use game_solvers::game::Game;
use game_solvers::games::nim::Nim;
use game_solvers::score::ScoreValue;
use game_solvers::solvers::alpha_beta::AlphaBeta;
use game_solvers::solvers::iter_deep::IterativeDeepening;
use game_solvers::solvers::simple::SimpleSolver;
use game_solvers::solvers::ttable_alpha_beta::TTAlphaBeta;
use game_solvers::solvers::ttable_solver::TTSolver;

fn check_nim_verdict(sticks: u32, score: game_solvers::score::Score, best_move: Option<u32>) {
    let depth = sticks + 1;
    let expected_winner = sticks % 3 != 0;
    assert_eq!(
        score.score_at_depth(depth),
        if expected_winner {
            ScoreValue::CurrentPlayerWins
        } else {
            ScoreValue::OtherPlayerWins
        },
        "game with {sticks} sticks"
    );
    if expected_winner {
        assert_eq!(best_move, Some(sticks % 3), "game with {sticks} sticks");
    } else {
        assert!(best_move.is_some(), "game with {sticks} sticks");
    }
}

#[test]
fn test_solve_nim_simple() {
    for sticks in 1..=20 {
        let mut solver = SimpleSolver::new();
        let (score, best_move) = solver.best_move(&Nim::new(sticks), sticks + 1);
        check_nim_verdict(sticks, score, best_move);
    }
}

#[test]
fn test_solve_nim_alpha_beta() {
    for sticks in 1..=20 {
        let mut solver = AlphaBeta::new();
        let (score, best_move) = solver.best_move(&Nim::new(sticks), sticks + 1);
        check_nim_verdict(sticks, score, best_move);
    }
}

#[test]
fn test_solve_nim_ttable() {
    for sticks in 1..=20 {
        let mut solver = TTSolver::new();
        let (score, best_move) = solver.best_move(&Nim::new(sticks), sticks + 1);
        check_nim_verdict(sticks, score, best_move);
    }
}

#[test]
fn test_solve_nim_ttable_alpha_beta() {
    for sticks in 1..=20 {
        let mut solver = TTAlphaBeta::new();
        let (score, best_move) = solver.best_move(&Nim::new(sticks), sticks + 1);
        check_nim_verdict(sticks, score, best_move);
    }
}

#[test]
fn test_solve_nim_iterative_deepening() {
    for sticks in 1..=20 {
        let mut solver = IterativeDeepening::new();
        let (score, best_move) = solver.best_move(&Nim::new(sticks), sticks + 1);
        check_nim_verdict(sticks, score, best_move);
    }
}

#[test]
fn test_nim_shared_table_improves_over_calls() {
    // One solver instance, reused: the table only gains precision, and
    // later calls still give the right verdicts.
    let mut solver = TTSolver::new();
    for sticks in 1..=15 {
        let (score, best_move) = solver.best_move(&Nim::new(sticks), sticks + 1);
        check_nim_verdict(sticks, score, best_move);
    }
    for sticks in (1..=15).rev() {
        let (score, best_move) = solver.best_move(&Nim::new(sticks), sticks + 1);
        check_nim_verdict(sticks, score, best_move);
    }
}

#[test]
fn test_nim_rules() {
    let g = Nim::new(5);
    assert_eq!(g.each_move(), vec![1, 2]);
    let g = Nim::new(2);
    assert_eq!(g.each_move(), vec![1, 2]);
    let g = g.with_move(2);
    assert!(matches!(
        g.finished(),
        game_solvers::game::GameResult::Win(game_solvers::game::Player::First)
    ));
}

#[test]
fn test_nim_depth_zero_yields_no_info() {
    let mut solver = SimpleSolver::new();
    let (score, best_move) = solver.best_move(&Nim::new(7), 0);
    assert_eq!(score, game_solvers::score::Score::no_info());
    assert_eq!(best_move, None);
    let mut solver: TTSolver<Nim> = TTSolver::new();
    let (score, best_move) = solver.best_move(&Nim::new(7), 0);
    assert_eq!(score, game_solvers::score::Score::no_info());
    assert_eq!(best_move, None);
}
