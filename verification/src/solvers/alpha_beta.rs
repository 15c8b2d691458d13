//! The pruning solver: minimax with a negamax alpha-beta window and no
//! table.  The window is pushed down to each child through
//! [`Score::forwardstep`] and the child's result pulled back up through
//! [`Score::backstep`]; a child strictly above the window's ceiling cuts
//! the remaining siblings off, and the accumulated best is then only a
//! floor, marked so through [`Score::break_early`].  Pruning can leave
//! the score a bound rather than an exact value, but a sound one: it
//! always admits the settled outcome of the position.

use vstd::prelude::*;

use crate::game::{settled_outcome, step_outcome, true_outcome, value, Game, GameResult};
use crate::laws::{
    lemma_best_le, lemma_sound_compatible_with_value, lemma_step_le_best, lemma_true_outcome_unfold,
};
use crate::score::{lemma_backstep_sound, Score};

verus! {

pub struct AlphaBeta;

impl AlphaBeta {
    pub fn new() -> (r: Self) {
        AlphaBeta
    }

    /// The score of the move into the successor `game`, from its parent
    /// mover's perspective, searched inside the parent's window.
    fn score_for_game<G: Game>(game: &G, depth: u32, alpha: Score, beta: Score) -> (r: Score)
        requires
            game.wf(),
            depth >= 1,
            alpha.wf(),
            beta.wf(),
        ensures
            r.wf(),
            r.admits(step_outcome(*game)),
            !(game.spec_finished() is NotFinished) ==> r == Score::spec_exact(
                step_outcome(*game),
            ),
        decreases depth, 0int,
    {
        match game.finished() {
            GameResult::Win(player) => {
                if player == game.current_player() {
                    Score::lose(1)
                } else {
                    Score::win(1)
                }
            },
            GameResult::Tie => Score::guaranteed_tie(),
            GameResult::NotFinished => {
                proof {
                    lemma_forwardstep_wf(alpha);
                    lemma_forwardstep_wf(beta);
                }
                let inner = Self::solve_impl(
                    game,
                    depth - 1,
                    beta.forwardstep(),
                    alpha.forwardstep(),
                );
                proof {
                    lemma_backstep_sound(inner, true_outcome(*game));
                }
                inner.backstep()
            },
        }
    }

    fn solve_impl<G: Game>(game: &G, depth: u32, alpha: Score, beta: Score) -> (r: Score)
        requires
            game.wf(),
            game.spec_finished() is NotFinished,
            alpha.wf(),
            beta.wf(),
        ensures
            r.wf(),
            r.admits(true_outcome(*game)),
            r.compatible(value(*game, depth as nat)),
        decreases depth, 1int,
    {
        proof {
            lemma_true_outcome_unfold(*game);
        }
        if depth == 0 {
            proof {
                lemma_sound_compatible_with_value(*game, depth as nat, Score::spec_no_info());
            }
            return Score::no_info();
        }
        let moves = game.each_move();
        let n = moves.len();
        if n == 0 {
            proof {
                lemma_sound_compatible_with_value(*game, depth as nat, Score::spec_lose(1));
            }
            return Score::lose(1);
        }
        let mut best = Score::lose(1);
        let mut alpha = alpha;
        let mut i: usize = 0;
        while i < n
            invariant
                game.wf(),
                game.spec_finished() is NotFinished,
                moves@ == game.spec_moves(),
                n == moves.len(),
                0 < n,
                0 <= i <= n,
                depth >= 1,
                best.wf(),
                alpha.wf(),
                beta.wf(),
                settled_outcome(*game) == true_outcome(*game),
                settled_outcome(*game).wf(),
                best.lo.key() <= settled_outcome(*game).key(),
                forall|j: int|
                    0 <= j < i ==> #[trigger] step_outcome(
                        game.spec_apply(game.spec_moves()[j]),
                    ).key() <= best.hi.key(),
            decreases n - i,
        {
            assert(game.spec_moves().contains(game.spec_moves()[i as int]));
            let child = game.with_move(moves[i]);
            proof {
                game.lemma_moves_ok(game.spec_moves()[i as int]);
            }
            let score = Self::score_for_game(&child, depth, alpha, beta);
            proof {
                lemma_step_le_best(*game, 0, i as int);
            }
            best = best.accumulate(score);
            if !score.le(beta) {
                let cut = best.break_early();
                proof {
                    lemma_sound_compatible_with_value(*game, depth as nat, cut);
                }
                return cut;
            }
            alpha = alpha.max(score);
            i = i + 1;
        }
        proof {
            lemma_best_le(*game, 0, best.hi.key());
            lemma_sound_compatible_with_value(*game, depth as nat, best);
        }
        best
    }

    /// Scores every legal move of `game` by alpha-beta search to `depth`
    /// plies and returns the position's score together with the move
    /// ranked best.  Pruned subtrees can leave the score a bound rather
    /// than an exact value, so it is to be compared through
    /// [`Score::compatible`], not equality; the bound is sound — it
    /// admits the settled outcome of the position, so a win it announces
    /// for the mover is a real forced win in that many plies.
    pub fn best_move<G: Game>(&mut self, game: &G, depth: u32) -> (r: (Score, Option<G::Move>))
        requires
            game.wf(),
            game.spec_finished() is NotFinished,
        ensures
            r.0.wf(),
            depth == 0 ==> r == (Score::spec_no_info(), None::<G::Move>),
            depth >= 1 ==> (game.spec_moves().len() == 0 <==> r.1 is None),
            depth >= 1 && game.spec_moves().len() == 0 ==> r.0 == Score::spec_lose(1),
            depth >= 1 && r.1 is Some ==> game.spec_moves().contains(r.1->Some_0),
            depth >= 1 ==> r.0.admits(true_outcome(*game)),
            depth >= 1 ==> r.0.compatible(value(*game, depth as nat)),
            depth >= 1 && r.0.fully_determined() ==> r.0 == Score::spec_exact(
                true_outcome(*game),
            ),
    {
        proof {
            lemma_true_outcome_unfold(*game);
        }
        if depth == 0 {
            return (Score::no_info(), None);
        }
        let moves = game.each_move();
        let n = moves.len();
        if n == 0 {
            proof {
                lemma_sound_compatible_with_value(*game, depth as nat, Score::spec_lose(1));
            }
            return (Score::lose(1), None);
        }
        let mut alpha = Score::lose(1);
        let beta = Score::win(1);
        assert(game.spec_moves().contains(game.spec_moves()[0int]));
        let child = game.with_move(moves[0]);
        proof {
            game.lemma_moves_ok(game.spec_moves()[0int]);
        }
        let mut best = Self::score_for_game(&child, depth, alpha, beta);
        let mut acc = best;
        let mut best_mv = moves[0];
        proof {
            lemma_step_le_best(*game, 0, 0);
        }
        alpha = alpha.max(best);
        let mut i: usize = 1;
        while i < n
            invariant
                game.wf(),
                game.spec_finished() is NotFinished,
                moves@ == game.spec_moves(),
                n == moves.len(),
                0 < n,
                1 <= i <= n,
                depth >= 1,
                best.wf(),
                acc.wf(),
                alpha.wf(),
                beta.wf(),
                settled_outcome(*game) == true_outcome(*game),
                settled_outcome(*game).wf(),
                game.spec_moves().contains(best_mv),
                acc.lo.key() <= settled_outcome(*game).key(),
                forall|j: int|
                    0 <= j < i ==> #[trigger] step_outcome(
                        game.spec_apply(game.spec_moves()[j]),
                    ).key() <= acc.hi.key(),
            decreases n - i,
        {
            assert(game.spec_moves().contains(game.spec_moves()[i as int]));
            let child = game.with_move(moves[i]);
            proof {
                game.lemma_moves_ok(game.spec_moves()[i as int]);
            }
            let score = Self::score_for_game(&child, depth, alpha, beta);
            proof {
                lemma_step_le_best(*game, 0, i as int);
            }
            acc = acc.accumulate(score);
            if best.le(score) {
                best = score;
                best_mv = moves[i];
            }
            alpha = alpha.max(score);
            i = i + 1;
        }
        proof {
            lemma_best_le(*game, 0, acc.hi.key());
            lemma_sound_compatible_with_value(*game, depth as nat, acc);
            if acc.fully_determined() {
                crate::score::lemma_exact_admits(acc, true_outcome(*game));
            }
        }
        (acc, Some(best_mv))
    }
}

/// Stepping a window bound down keeps it well-formed: the forward step
/// flips the interval and clamps distances at one ply.
proof fn lemma_forwardstep_wf(s: Score)
    requires
        s.wf(),
    ensures
        s.spec_forwardstep().wf(),
{
}

} // verus!
