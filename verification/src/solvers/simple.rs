//! The exhaustive solver: full minimax over the whole tree, no table, no
//! pruning.  It is the ground-truth oracle the other solvers are compared
//! against, and it is proved to return exactly the mathematical search
//! value [`value`].

use core::marker::PhantomData;

use vstd::prelude::*;

use crate::game::{best_value_from, step_value, true_outcome, value, Game, GameResult};
use crate::laws::{lemma_exhaustive_search_settles, lemma_value_sound};
use crate::score::{DeterminedScore, Score};

verus! {

pub struct SimpleSolver<G>(PhantomData<G>);

impl<G: Game> SimpleSolver<G> {
    pub fn new() -> (r: Self) {
        SimpleSolver(PhantomData)
    }

    /// The value of the move into the successor `game`, from its parent
    /// mover's perspective, with `depth` plies of budget left at the
    /// parent.
    fn score_for_game(game: &G, depth: u32) -> (r: Score)
        requires
            game.wf(),
            depth >= 1,
        ensures
            r == step_value(*game, (depth - 1) as nat),
        decreases depth, 0int,
    {
        match game.finished() {
            GameResult::Win(player) => {
                if player == game.current_player() {
                    Score::lose(1)
                } else {
                    Score::win(1)
                }
            },
            GameResult::Tie => Score::guaranteed_tie(),
            GameResult::NotFinished => Self::solve_impl(game, depth - 1).backstep(),
        }
    }

    fn solve_impl(game: &G, depth: u32) -> (r: Score)
        requires
            game.wf(),
            game.spec_finished() is NotFinished,
        ensures
            r == value(*game, depth as nat),
        decreases depth, 1int,
    {
        if depth == 0 {
            return Score::no_info();
        }
        let moves = game.each_move();
        let n = moves.len();
        if n == 0 {
            return Score::lose(1);
        }
        let mut i = n - 1;
        assert(game.spec_moves().contains(game.spec_moves()[i as int]));
        let child = game.with_move(moves[i]);
        proof {
            game.lemma_moves_ok(game.spec_moves()[i as int]);
        }
        let mut best = Self::score_for_game(&child, depth);
        while i > 0
            invariant
                game.wf(),
                game.spec_finished() is NotFinished,
                moves@ == game.spec_moves(),
                n == moves.len(),
                0 < n,
                0 <= i < n,
                depth >= 1,
                best == best_value_from(*game, i as int, depth as nat),
            decreases i,
        {
            i = i - 1;
            assert(game.spec_moves().contains(game.spec_moves()[i as int]));
            let child = game.with_move(moves[i]);
            proof {
                game.lemma_moves_ok(game.spec_moves()[i as int]);
            }
            let s = Self::score_for_game(&child, depth);
            best = s.accumulate(best);
        }
        best
    }

    /// Scores every legal move of `game` by exhaustive search to `depth`
    /// plies and returns the position's value together with a move whose
    /// score ranks highest under the knowledge order.  With no budget
    /// nothing is learned; with no legal move the mover has lost on the
    /// spot.
    pub fn best_move(&mut self, game: &G, depth: u32) -> (r: (Score, Option<G::Move>))
        requires
            game.wf(),
            game.spec_finished() is NotFinished,
        ensures
            depth == 0 ==> r == (Score::spec_no_info(), None::<G::Move>),
            depth >= 1 ==> r.0 == value(*game, depth as nat),
            depth >= 1 ==> r.0.admits(true_outcome(*game)),
            depth >= 1 && game.spec_moves().len() == 0 ==> r == (
                Score::spec_lose(1),
                None::<G::Move>,
            ),
            depth >= 1 && game.spec_moves().len() > 0 ==> exists|j: int|
                0 <= j < game.spec_moves().len() && r.1 == Some(game.spec_moves()[j]) && forall|
                    j2: int,
                |
                    0 <= j2 < game.spec_moves().len() ==> step_value(
                        game.spec_apply(#[trigger] game.spec_moves()[j2]),
                        (depth - 1) as nat,
                    ).spec_le(step_value(game.spec_apply(game.spec_moves()[j]), (depth - 1) as nat)),
    {
        proof {
            if depth >= 1 {
                lemma_value_sound(*game, depth as nat);
            }
        }
        if depth == 0 {
            return (Score::no_info(), None);
        }
        let moves = game.each_move();
        let n = moves.len();
        if n == 0 {
            return (Score::lose(1), None);
        }
        let mut i = n - 1;
        assert(game.spec_moves().contains(game.spec_moves()[i as int]));
        let child = game.with_move(moves[i]);
        proof {
            game.lemma_moves_ok(game.spec_moves()[i as int]);
        }
        let mut acc = Self::score_for_game(&child, depth);
        let mut best = acc;
        let mut best_mv = moves[i];
        let ghost mut bj: int = i as int;
        while i > 0
            invariant
                game.wf(),
                game.spec_finished() is NotFinished,
                moves@ == game.spec_moves(),
                n == moves.len(),
                0 < n,
                0 <= i < n,
                depth >= 1,
                acc == best_value_from(*game, i as int, depth as nat),
                i as int <= bj < n,
                best_mv == game.spec_moves()[bj],
                step_value(game.spec_apply(game.spec_moves()[bj]), (depth - 1) as nat) == best,
                forall|j2: int|
                    i as int <= j2 < n ==> step_value(
                        game.spec_apply(#[trigger] game.spec_moves()[j2]),
                        (depth - 1) as nat,
                    ).spec_le(best),
            decreases i,
        {
            i = i - 1;
            assert(game.spec_moves().contains(game.spec_moves()[i as int]));
            let child = game.with_move(moves[i]);
            proof {
                game.lemma_moves_ok(game.spec_moves()[i as int]);
            }
            let s = Self::score_for_game(&child, depth);
            acc = s.accumulate(acc);
            if !s.le(best) {
                best = s;
                best_mv = moves[i];
                proof {
                    bj = i as int;
                }
            }
        }
        (acc, Some(best_mv))
    }

    /// Like [`Self::best_move`], but promising the stronger, strictly
    /// exact reading of the result: this solver never prunes, so whenever
    /// its score is settled at all, its ply distance is the true minimal
    /// one.
    pub fn best_move_determined(&mut self, game: &G, depth: u32) -> (r: (
        DeterminedScore,
        Option<G::Move>,
    ))
        requires
            game.wf(),
            game.spec_finished() is NotFinished,
        ensures
            depth == 0 ==> r == (DeterminedScore::Unresolved, None::<G::Move>),
            depth >= 1 ==> r.0 == DeterminedScore::spec_of_score(value(*game, depth as nat)),
            depth >= game.measure() && depth >= 1 ==> r.0 == DeterminedScore::spec_of_outcome(
                true_outcome(*game),
            ),
    {
        let (score, mv) = self.best_move(game, depth);
        if depth == 0 {
            (DeterminedScore::Unresolved, None)
        } else {
            proof {
                if depth >= game.measure() {
                    lemma_exhaustive_search_settles(*game, depth as nat);
                }
            }
            (DeterminedScore::of_score(score), mv)
        }
    }
}

} // verus!
