//! Behavior of the score model: ordering, the ply-step transforms,
//! depth-bounded determination, merging and compatibility.

use game_solvers::score::{DeterminedScore, Outcome, Score, ScoreValue};

#[test]
fn ordering_prefers_fast_wins_and_late_losses() {
    let order = [
        Score::no_info(),
        Score::lose(1),
        Score::lose(2),
        Score::lose(7),
        Score::guaranteed_tie(),
        Score::win(9),
        Score::win(2),
        Score::win(1),
    ];
    for i in 0..order.len() {
        for j in 0..order.len() {
            assert_eq!(order[i].le(order[j]), i <= j, "{:?} vs {:?}", order[i], order[j]);
            let expected = if i <= j { order[j] } else { order[i] };
            assert_eq!(order[i].max(order[j]), expected);
        }
    }
}

#[test]
fn backstep_negates_and_moves_one_ply_out() {
    assert_eq!(Score::win(3).backstep(), Score::lose(4));
    assert_eq!(Score::lose(2).backstep(), Score::win(3));
    assert_eq!(Score::guaranteed_tie().backstep(), Score::guaranteed_tie());
    let stepped = Score::no_info().backstep();
    assert_eq!(stepped, Score { lo: Outcome::Lose(2), hi: Outcome::Win(2) });
    assert!(!stepped.fully_determined());
}

#[test]
fn forwardstep_negates_and_moves_one_ply_in() {
    assert_eq!(Score::win(3).forwardstep(), Score::lose(2));
    assert_eq!(Score::lose(3).forwardstep(), Score::win(2));
    assert_eq!(Score::win(1).forwardstep(), Score::lose(1));
    assert_eq!(Score::guaranteed_tie().forwardstep(), Score::guaranteed_tie());
}

#[test]
fn determined_exact_values_settle_every_depth() {
    for depth in 0..10 {
        assert!(Score::win(3).determined(depth));
        assert!(Score::lose(5).determined(depth));
        assert!(Score::guaranteed_tie().determined(depth));
    }
}

#[test]
fn determined_no_info_settles_only_depth_zero() {
    assert!(Score::no_info().determined(0));
    assert!(!Score::no_info().determined(1));
    // Searched three plies deep without resolution: settles every budget
    // up to three.
    let horizon = Score { lo: Outcome::Lose(4), hi: Outcome::Win(4) };
    assert!(horizon.determined(0));
    assert!(horizon.determined(2));
    assert!(horizon.determined(3));
    assert!(!horizon.determined(4));
}

#[test]
fn determined_is_monotonic_downward() {
    let samples = [
        Score::win(4),
        Score::lose(2),
        Score::guaranteed_tie(),
        Score::no_info(),
        Score { lo: Outcome::Lose(6), hi: Outcome::Win(6) },
        Score { lo: Outcome::Tie, hi: Outcome::Win(5) },
        Score::win(7).break_early(),
    ];
    for s in samples {
        for depth in 0..12u32 {
            if s.determined(depth) {
                for shallower in 0..depth {
                    assert!(s.determined(shallower), "{s:?} at {depth} vs {shallower}");
                }
            }
        }
    }
}

#[test]
fn merge_is_idempotent_and_commutative() {
    let samples = [
        Score::win(4),
        Score::lose(2),
        Score::guaranteed_tie(),
        Score::no_info(),
        Score { lo: Outcome::Lose(6), hi: Outcome::Win(6) },
        Score { lo: Outcome::Tie, hi: Outcome::Win(5) },
    ];
    for a in samples {
        assert_eq!(a.merge(a), a);
        for b in samples {
            if a.compatible(b) {
                assert_eq!(a.merge(b), b.merge(a), "{a:?} with {b:?}");
            }
        }
    }
}

#[test]
fn merge_keeps_the_tightest_of_both() {
    let shallow = Score { lo: Outcome::Lose(3), hi: Outcome::Win(3) };
    let deep = Score { lo: Outcome::Lose(5), hi: Outcome::Win(5) };
    assert_eq!(shallow.merge(deep), deep);
    assert_eq!(deep.merge(shallow), deep);
    assert_eq!(shallow.merge(Score::win(4)), Score::win(4));
    let bound = Score::win(4).break_early();
    let capped = Score { lo: Outcome::Lose(9), hi: Outcome::Win(2) };
    assert_eq!(bound.merge(capped), Score { lo: Outcome::Win(4), hi: Outcome::Win(2) });
}

#[test]
fn compatible_tolerates_bounds_but_not_contradictions() {
    assert!(Score::win(3).compatible(Score::win(3)));
    assert!(!Score::win(3).compatible(Score::win(4)));
    assert!(!Score::win(3).compatible(Score::lose(3)));
    assert!(!Score::guaranteed_tie().compatible(Score::lose(9)));
    assert!(Score::no_info().compatible(Score::win(1)));
    assert!(Score::no_info().compatible(Score::lose(1)));
    // A cutoff keeps only the floor, so anything at or above it agrees.
    let bound = Score::win(5).break_early();
    assert!(bound.compatible(Score::win(5)));
    assert!(bound.compatible(Score::win(2)));
    assert!(!bound.compatible(Score::guaranteed_tie()));
}

#[test]
fn break_early_keeps_only_the_floor() {
    let s = Score::win(5).break_early();
    assert_eq!(s, Score { lo: Outcome::Win(5), hi: Outcome::Win(1) });
    assert!(!s.fully_determined());
    assert_eq!(Score::lose(1).break_early(), Score::no_info());
}

#[test]
fn score_at_depth_projects_against_the_budget() {
    assert_eq!(Score::win(3).score_at_depth(3), ScoreValue::CurrentPlayerWins);
    assert_eq!(Score::win(3).score_at_depth(9), ScoreValue::CurrentPlayerWins);
    assert_eq!(Score::win(3).score_at_depth(2), ScoreValue::Unresolved);
    assert_eq!(Score::lose(2).score_at_depth(2), ScoreValue::OtherPlayerWins);
    assert_eq!(Score::lose(2).score_at_depth(1), ScoreValue::Unresolved);
    assert_eq!(Score::guaranteed_tie().score_at_depth(0), ScoreValue::Tie);
    assert_eq!(Score::no_info().score_at_depth(7), ScoreValue::Unresolved);
}

#[test]
fn truncated_clamps_beyond_the_horizon() {
    assert_eq!(Score::win(2).truncated(3), Score::win(2));
    assert_eq!(Score::lose(3).truncated(3), Score::lose(3));
    assert_eq!(
        Score::win(5).truncated(3),
        Score { lo: Outcome::Lose(4), hi: Outcome::Win(4) }
    );
    assert_eq!(
        Score::lose(5).truncated(3),
        Score { lo: Outcome::Lose(4), hi: Outcome::Win(4) }
    );
    assert_eq!(Score::guaranteed_tie().truncated(0), Score::guaranteed_tie());
}

#[test]
fn determined_score_reads_exact_values_only() {
    assert_eq!(DeterminedScore::of_score(Score::win(4)), DeterminedScore::win(4));
    assert_eq!(DeterminedScore::of_score(Score::lose(2)), DeterminedScore::lose(2));
    assert_eq!(
        DeterminedScore::of_score(Score::guaranteed_tie()),
        DeterminedScore::guaranteed_tie()
    );
    assert_eq!(DeterminedScore::of_score(Score::no_info()), DeterminedScore::Unresolved);
    assert_eq!(
        DeterminedScore::of_score(Score::win(4).break_early()),
        DeterminedScore::Unresolved
    );
}
