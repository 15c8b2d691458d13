//! The iterative deepening driver: for a requested depth it runs the
//! memoizing pruning solver at depths one, two, and so on up to the
//! request, sharing one table across all passes, and returns the result
//! of the final pass.  The shallow passes populate the table with values
//! that tighten the deeper passes' cutoffs and give an anytime
//! intermediate result.

use std::collections::HashMap;

use vstd::prelude::*;

use crate::game::{true_outcome, value, Game};
use crate::score::Score;
use crate::solvers::ttable_alpha_beta::TTAlphaBeta;

verus! {

pub struct IterativeDeepening<G: Game> {
    inner: TTAlphaBeta<G>,
}

impl<G: Game> IterativeDeepening<G> {
    pub closed spec fn inv(self) -> bool {
        self.inner.inv()
    }

    pub closed spec fn spec_table(self) -> Map<u64, Score> {
        self.inner.spec_table()
    }

    pub fn new() -> (r: Self)
        ensures
            r.inv(),
    {
        IterativeDeepening { inner: TTAlphaBeta::new() }
    }

    /// The table shared by all passes, keyed by `Game::key`.
    pub fn table(&self) -> (r: &HashMap<u64, Score>)
        ensures
            r@ == self.spec_table(),
    {
        self.inner.table()
    }

    /// Runs the wrapped solver at every depth up to `depth` over one
    /// shared table and returns the final, deepest pass's result, which
    /// carries that pass's guarantees: a sound score — it admits the
    /// settled outcome of the position — together with the move that
    /// pass ranked best.
    pub fn best_move(&mut self, game: &G, depth: u32) -> (r: (Score, Option<G::Move>))
        requires
            game.wf(),
            game.spec_finished() is NotFinished,
            old(self).inv(),
        ensures
            final(self).inv(),
            r.0.wf(),
            depth == 0 ==> r == (Score::spec_no_info(), None::<G::Move>) && *final(self)
                == *old(self),
            depth >= 1 ==> (game.spec_moves().len() == 0 <==> r.1 is None),
            depth >= 1 && game.spec_moves().len() == 0 ==> r.0 == Score::spec_lose(1),
            depth >= 1 && r.1 is Some ==> game.spec_moves().contains(r.1->Some_0),
            depth >= 1 ==> r.0.admits(true_outcome(*game)),
            depth >= 1 ==> r.0.compatible(value(*game, depth as nat)),
            depth >= 1 && r.0.fully_determined() ==> r.0 == Score::spec_exact(
                true_outcome(*game),
            ),
    {
        if depth == 0 {
            return (Score::no_info(), None);
        }
        let mut result = self.inner.best_move(game, 1);
        let mut d: u32 = 1;
        while d < depth
            invariant
                game.wf(),
                game.spec_finished() is NotFinished,
                self.inner.inv(),
                1 <= d <= depth,
                result.0.wf(),
                game.spec_moves().len() == 0 <==> result.1 is None,
                game.spec_moves().len() == 0 ==> result.0 == Score::spec_lose(1),
                result.1 is Some ==> game.spec_moves().contains(result.1->Some_0),
                result.0.admits(true_outcome(*game)),
                result.0.fully_determined() ==> result.0 == Score::spec_exact(true_outcome(*game)),
            decreases depth - d,
        {
            d = d + 1;
            result = self.inner.best_move(game, d);
        }
        proof {
            crate::laws::lemma_sound_compatible_with_value(*game, depth as nat, result.0);
        }
        result
    }
}

} // verus!
