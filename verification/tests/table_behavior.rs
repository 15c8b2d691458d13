//! The transposition table's entry lifecycle: entries are merged, never
//! overwritten, so across calls every entry only gains precision; a
//! partial search can leave undetermined entries, a covering one leaves
//! none.

use game_solvers::games::nim::Nim;
use game_solvers::score::{Score, ScoreValue};
use game_solvers::solvers::iter_deep::IterativeDeepening;
use game_solvers::solvers::ttable_solver::TTSolver;

fn refines(new: Score, old: Score) -> bool {
    new.merge(old) == new && old.compatible(new)
}

#[test]
fn test_entries_only_gain_precision() {
    let mut solver: TTSolver<Nim> = TTSolver::new();
    solver.best_move(&Nim::new(9), 3);
    let shallow: Vec<(u64, Score)> = solver.table().iter().map(|(k, s)| (*k, *s)).collect();
    assert!(!shallow.is_empty());
    // A shallow pass cannot settle everything: nine sticks leave more
    // than three plies of game behind some entries.
    assert!(shallow.iter().any(|(_, s)| !s.fully_determined()));

    solver.best_move(&Nim::new(9), 10);
    for (k, old) in &shallow {
        let new = solver.table().get(k).expect("an entry disappeared");
        assert!(refines(*new, *old), "entry {k}: {new:?} no longer refines {old:?}");
    }
    // The deeper pass covers the whole game: everything is settled now.
    for (k, s) in solver.table() {
        assert!(s.fully_determined(), "entry {k}: {s:?}");
    }
}

#[test]
fn test_iterative_deepening_shares_one_table() {
    let mut solver: IterativeDeepening<Nim> = IterativeDeepening::new();
    let (score, m) = solver.best_move(&Nim::new(10), 11);
    assert!(!solver.table().is_empty());
    assert_eq!(m, Some(1));
    assert_eq!(score.score_at_depth(11), ScoreValue::CurrentPlayerWins, "{score:?}");
}
