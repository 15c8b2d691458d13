//! The memoizing pruning solver: alpha-beta windows as in
//! [`crate::solvers::alpha_beta`] combined with the transposition-table
//! lookup-and-merge discipline of [`crate::solvers::ttable_solver`], plus
//! one extra cutoff: a child already determined at the current depth and
//! categorically winning ends the search of its siblings on the spot —
//! one confirmed forced win suffices.  Because subtrees are pruned, its
//! scores and table entries can be bounds rather than exact values, to be
//! compared through [`Score::compatible`] — but they are proved sound:
//! every score it returns or stores admits the settled outcome of its
//! position, so a win it announces is a real forced win.

use std::collections::HashMap;

use vstd::prelude::*;

use crate::game::{
    best_outcome_from, settled_outcome, step_outcome, true_outcome, value, Game, GameResult,
};
use crate::laws::{
    lemma_best_le, lemma_sound_compatible_with_value, lemma_step_le_best, lemma_true_outcome_unfold,
};
use crate::score::{lemma_backstep_sound, Score};
use crate::solvers::ttable_solver::table_refined;

verus! {

broadcast use vstd::std_specs::hash::group_hash_axioms;

pub struct TTAlphaBeta<G: Game> {
    table: HashMap<u64, Score>,
    /// Which position each key stands for; `Game::spec_key` is injective,
    /// so this is determined by the table itself.
    reprs: Ghost<Map<u64, G>>,
}

impl<G: Game> TTAlphaBeta<G> {
    /// Every table entry belongs to a well-formed, unfinished position
    /// with that key, and admits that position's settled outcome.
    pub closed spec fn inv(self) -> bool {
        forall|k: u64| #[trigger] self.table@.contains_key(k) ==> {
            &&& self.reprs@.contains_key(k)
            &&& self.reprs@[k].wf()
            &&& self.reprs@[k].spec_key() == k
            &&& self.reprs@[k].spec_finished() is NotFinished
            &&& self.table@[k].wf()
            &&& self.table@[k].admits(true_outcome(self.reprs@[k]))
        }
    }

    pub closed spec fn spec_table(self) -> Map<u64, Score> {
        self.table@
    }


    /// Every table entry is the sound knowledge of some well-formed,
    /// unfinished position stored under its own key: the entry admits
    /// that position's settled outcome.  Since keys number positions
    /// injectively, two solvers' entries under the same key describe the
    /// same position, so they never contradict each other.
    pub proof fn lemma_entries_sound(self)
        requires
            self.inv(),
        ensures
            forall|k: u64| #[trigger]
                self.spec_table().contains_key(k) ==> self.spec_table()[k].wf() && exists|g: G|
                    #![auto]
                    {
                        &&& g.wf()
                        &&& g.spec_finished() is NotFinished
                        &&& g.spec_key() == k
                        &&& self.spec_table()[k].admits(true_outcome(g))
                    },
    {
        assert forall|k: u64| #[trigger]
            self.spec_table().contains_key(k) implies self.spec_table()[k].wf() && exists|g: G|
                #![auto]
                {
                    &&& g.wf()
                    &&& g.spec_finished() is NotFinished
                    &&& g.spec_key() == k
                    &&& self.spec_table()[k].admits(true_outcome(g))
                } by {
            let g0 = self.reprs@[k];
            assert(g0.wf() && g0.spec_finished() is NotFinished && g0.spec_key() == k
                && self.spec_table()[k].admits(true_outcome(g0)));
        }
    }

    pub fn new() -> (r: Self)
        ensures
            r.inv(),
            r.spec_table() == Map::<u64, Score>::empty(),
    {
        let r = TTAlphaBeta { table: HashMap::new(), reprs: Ghost(Map::empty()) };
        proof {
            assert(r.table@ =~= Map::<u64, Score>::empty());
        }
        r
    }

    /// The table of everything searched so far, keyed by `Game::key`.
    pub fn table(&self) -> (r: &HashMap<u64, Score>)
        ensures
            r@ == self.spec_table(),
    {
        &self.table
    }

    /// The score of the move into the successor `game`, from its parent
    /// mover's perspective, searched inside the parent's window with
    /// `depth` plies of budget left below `game`: terminal successors are
    /// scored outright, anything else through the table.
    fn backstepped_score_for_game(&mut self, game: &G, depth: u32, alpha: Score, beta: Score) -> (r:
        Score)
        requires
            game.wf(),
            alpha.wf(),
            beta.wf(),
            old(self).inv(),
        ensures
            final(self).inv(),
            table_refined(final(self).spec_table(), old(self).spec_table()),
            r.wf(),
            r.admits(step_outcome(*game)),
            !(game.spec_finished() is NotFinished) ==> r == Score::spec_exact(step_outcome(*game))
                && *final(self) == *old(self),
            game.spec_finished() is NotFinished && old(self).spec_table().contains_key(
                game.spec_key(),
            ) && old(self).spec_table()[game.spec_key()].determined(depth) ==> *final(self)
                == *old(self) && r == old(self).spec_table()[game.spec_key()].spec_backstep(),
            game.spec_finished() is NotFinished ==> final(self).spec_table().contains_key(
                game.spec_key(),
            ) && r == final(self).spec_table()[game.spec_key()].spec_backstep(),
            game.spec_finished() is NotFinished && !(old(self).spec_table().contains_key(
                game.spec_key(),
            ) && old(self).spec_table()[game.spec_key()].determined(depth)) ==> exists|fresh:
                Score|
                {
                    &&& #[trigger] fresh.admits(true_outcome(*game))
                    &&& fresh.wf()
                    &&& final(self).spec_table()[game.spec_key()].refines(fresh)
                },
        decreases depth, 1int,
    {
        match game.finished() {
            GameResult::Win(player) => {
                let r = if player == game.current_player() {
                    Score::lose(1)
                } else {
                    Score::win(1)
                };
                return r;
            },
            GameResult::Tie => {
                return Score::guaranteed_tie();
            },
            GameResult::NotFinished => {},
        }
        let k = game.key();
        let hit = self.table.get(&k);
        if hit.is_some() {
            let score = *hit.unwrap();
            if score.determined(depth) {
                proof {
                    self.reprs@[k].lemma_key_injective(*game);
                    lemma_backstep_sound(score, true_outcome(*game));
                }
                return score.backstep();
            }
        }
        let score = self.solve_impl(game, depth, beta.forwardstep(), alpha.forwardstep());
        let prev = self.table.get(&k);
        let merged = if prev.is_some() {
            let p = *prev.unwrap();
            proof {
                self.reprs@[k].lemma_key_injective(*game);
            }
            p.merge(score)
        } else {
            score
        };
        self.table.insert(k, merged);
        proof {
            self.reprs = Ghost(self.reprs@.insert(k, *game));
            lemma_backstep_sound(merged, true_outcome(*game));
            assert(score.admits(true_outcome(*game)) && score.wf()
                && self.spec_table()[game.spec_key()].refines(score));
        }
        merged.backstep()
    }

    fn solve_impl(&mut self, game: &G, depth: u32, alpha: Score, beta: Score) -> (r: Score)
        requires
            game.wf(),
            game.spec_finished() is NotFinished,
            alpha.wf(),
            beta.wf(),
            old(self).inv(),
        ensures
            final(self).inv(),
            table_refined(final(self).spec_table(), old(self).spec_table()),
            r.wf(),
            r.admits(true_outcome(*game)),
            r.compatible(value(*game, depth as nat)),
        decreases depth, 0int,
    {
        proof {
            lemma_true_outcome_unfold(*game);
        }
        if depth == 0 {
            proof {
                lemma_sound_compatible_with_value(*game, depth as nat, Score::spec_no_info());
            }
            return Score::no_info();
        }
        let moves = game.each_move();
        let n = moves.len();
        if n == 0 {
            proof {
                lemma_sound_compatible_with_value(*game, depth as nat, Score::spec_lose(1));
            }
            return Score::lose(1);
        }
        let ghost t0 = self.spec_table();
        let mut best = Score::lose(1);
        let mut alpha = alpha;
        let mut i: usize = 0;
        while i < n
            invariant
                game.wf(),
                game.spec_finished() is NotFinished,
                moves@ == game.spec_moves(),
                n == moves.len(),
                0 < n,
                0 <= i <= n,
                depth >= 1,
                best.wf(),
                alpha.wf(),
                beta.wf(),
                self.inv(),
                t0 == old(self).spec_table(),
                table_refined(self.spec_table(), t0),
                settled_outcome(*game) == true_outcome(*game),
                settled_outcome(*game).wf(),
                best.lo.key() <= settled_outcome(*game).key(),
                forall|j: int|
                    0 <= j < i ==> #[trigger] step_outcome(
                        game.spec_apply(game.spec_moves()[j]),
                    ).key() <= best.hi.key(),
            decreases n - i,
        {
            assert(game.spec_moves().contains(game.spec_moves()[i as int]));
            let child = game.with_move(moves[i]);
            proof {
                game.lemma_moves_ok(game.spec_moves()[i as int]);
            }
            let ghost tpre = self.spec_table();
            let score = self.backstepped_score_for_game(&child, depth - 1, alpha, beta);
            proof {
                crate::solvers::ttable_solver::lemma_table_refined_trans(
                    self.spec_table(),
                    tpre,
                    t0,
                );
                lemma_step_le_best(*game, 0, i as int);
            }
            best = best.accumulate(score);
            if (score.determined(depth) && score.score_at_depth(depth).is_winning()) || !score.le(
                beta,
            ) {
                let cut = best.break_early();
                proof {
                    lemma_sound_compatible_with_value(*game, depth as nat, cut);
                }
                return cut;
            }
            alpha = alpha.max(score);
            i = i + 1;
        }
        proof {
            lemma_best_le(*game, 0, best.hi.key());
            lemma_sound_compatible_with_value(*game, depth as nat, best);
        }
        best
    }

    /// Scores every legal move of `game` by memoized alpha-beta search to
    /// `depth` plies and returns the position's score together with the
    /// move ranked best.  Pruning can leave the score a bound, to be
    /// compared through [`Score::compatible`] — but a sound one: it
    /// admits the settled outcome of the position, so a win it announces
    /// for the mover is a real forced win in that many plies.
    pub fn best_move(&mut self, game: &G, depth: u32) -> (r: (Score, Option<G::Move>))
        requires
            game.wf(),
            game.spec_finished() is NotFinished,
            old(self).inv(),
        ensures
            final(self).inv(),
            table_refined(final(self).spec_table(), old(self).spec_table()),
            r.0.wf(),
            depth == 0 ==> r == (Score::spec_no_info(), None::<G::Move>) && *final(self) == *old(
                self,
            ),
            depth >= 1 ==> (game.spec_moves().len() == 0 <==> r.1 is None),
            depth >= 1 && game.spec_moves().len() == 0 ==> r.0 == Score::spec_lose(1),
            depth >= 1 && r.1 is Some ==> game.spec_moves().contains(r.1->Some_0),
            depth >= 1 ==> r.0.admits(true_outcome(*game)),
            depth >= 1 ==> r.0.compatible(value(*game, depth as nat)),
            depth >= 1 && r.0.fully_determined() ==> r.0 == Score::spec_exact(
                true_outcome(*game),
            ),
    {
        proof {
            lemma_true_outcome_unfold(*game);
        }
        if depth == 0 {
            return (Score::no_info(), None);
        }
        let moves = game.each_move();
        let n = moves.len();
        if n == 0 {
            proof {
                lemma_sound_compatible_with_value(*game, depth as nat, Score::spec_lose(1));
            }
            return (Score::lose(1), None);
        }
        let ghost t0 = self.spec_table();
        let mut alpha = Score::lose(1);
        let beta = Score::win(1);
        assert(game.spec_moves().contains(game.spec_moves()[0int]));
        let child = game.with_move(moves[0]);
        proof {
            game.lemma_moves_ok(game.spec_moves()[0int]);
        }
        let mut best = self.backstepped_score_for_game(&child, depth - 1, alpha, beta);
        let mut acc = best;
        let mut best_mv = moves[0];
        proof {
            lemma_step_le_best(*game, 0, 0);
        }
        alpha = alpha.max(best);
        let mut i: usize = 1;
        while i < n
            invariant
                game.wf(),
                game.spec_finished() is NotFinished,
                moves@ == game.spec_moves(),
                n == moves.len(),
                0 < n,
                1 <= i <= n,
                depth >= 1,
                best.wf(),
                acc.wf(),
                alpha.wf(),
                beta.wf(),
                self.inv(),
                t0 == old(self).spec_table(),
                table_refined(self.spec_table(), t0),
                settled_outcome(*game) == true_outcome(*game),
                settled_outcome(*game).wf(),
                game.spec_moves().contains(best_mv),
                acc.lo.key() <= settled_outcome(*game).key(),
                forall|j: int|
                    0 <= j < i ==> #[trigger] step_outcome(
                        game.spec_apply(game.spec_moves()[j]),
                    ).key() <= acc.hi.key(),
            decreases n - i,
        {
            assert(game.spec_moves().contains(game.spec_moves()[i as int]));
            let child = game.with_move(moves[i]);
            proof {
                game.lemma_moves_ok(game.spec_moves()[i as int]);
            }
            let ghost tpre = self.spec_table();
            let score = self.backstepped_score_for_game(&child, depth - 1, alpha, beta);
            proof {
                crate::solvers::ttable_solver::lemma_table_refined_trans(
                    self.spec_table(),
                    tpre,
                    t0,
                );
                lemma_step_le_best(*game, 0, i as int);
            }
            acc = acc.accumulate(score);
            if best.le(score) {
                best = score;
                best_mv = moves[i];
            }
            alpha = alpha.max(score);
            i = i + 1;
        }
        proof {
            lemma_best_le(*game, 0, acc.hi.key());
            lemma_sound_compatible_with_value(*game, depth as nat, acc);
            if acc.fully_determined() {
                crate::score::lemma_exact_admits(acc, true_outcome(*game));
            }
        }
        (acc, Some(best_mv))
    }
}

} // verus!
