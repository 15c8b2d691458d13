//! The memoizing exhaustive solver: full minimax as in
//! [`crate::solvers::simple`], with a transposition table consulted before
//! every expansion.  A cached score settled for the remaining budget is
//! reused without re-expansion; a freshly computed score is merged into
//! any existing entry, never overwritten, so the table's precision only
//! grows.  Because this solver never prunes, every entry it stores is
//! sound — it admits the settled outcome of its position — and a search
//! whose budget covers the remaining game leaves every entry fully
//! determined and returns the settled outcome exactly.

use std::collections::HashMap;

use vstd::prelude::*;

use crate::game::{
    best_outcome_from, settled_outcome, step_outcome, true_outcome, value, Game, GameResult,
};
use crate::laws::{
    lemma_best_le, lemma_sound_compatible_with_value, lemma_step_le_best, lemma_true_outcome_unfold,
};
use crate::score::{
    lemma_backstep_sound, lemma_exact_admits, lemma_key_injective, DeterminedScore, Score,
};

verus! {

broadcast use vstd::std_specs::hash::group_hash_axioms;

/// All the entries of `new` were already present in `old_t` or are new;
/// the ones already present have only gained precision.
pub open spec fn table_refined(new: Map<u64, Score>, old_t: Map<u64, Score>) -> bool {
    forall|k: u64| #[trigger]
        old_t.contains_key(k) ==> new.contains_key(k) && new[k].refines(old_t[k])
}

pub struct TTSolver<G: Game> {
    table: HashMap<u64, Score>,
    /// Which position each key stands for; `Game::spec_key` is injective,
    /// so this is determined by the table itself.
    reprs: Ghost<Map<u64, G>>,
}

impl<G: Game> TTSolver<G> {
    /// Every table entry belongs to a well-formed, unfinished position
    /// with that key, and admits that position's settled outcome.
    pub closed spec fn inv(self) -> bool {
        forall|k: u64| #[trigger] self.table@.contains_key(k) ==> {
            &&& self.reprs@.contains_key(k)
            &&& self.reprs@[k].wf()
            &&& self.reprs@[k].spec_key() == k
            &&& self.reprs@[k].spec_finished() is NotFinished
            &&& self.table@[k].wf()
            &&& self.table@[k].admits(true_outcome(self.reprs@[k]))
        }
    }

    /// No entry has any ambiguity left.
    pub closed spec fn fully_det(self) -> bool {
        forall|k: u64| #[trigger]
            self.table@.contains_key(k) ==> self.table@[k].fully_determined()
    }

    pub closed spec fn spec_table(self) -> Map<u64, Score> {
        self.table@
    }

    /// What full determination of the table means, entry by entry.
    pub proof fn lemma_fully_det_meaning(self)
        ensures
            self.fully_det() <==> forall|k: u64| #[trigger]
                self.spec_table().contains_key(k) ==> self.spec_table()[k].fully_determined(),
    {
        if self.fully_det() {
            assert forall|k: u64| #[trigger]
                self.spec_table().contains_key(k) implies self.spec_table()[k].fully_determined() by {
                assert(self.table@.contains_key(k));
            }
        }
        if forall|k: u64| #[trigger]
            self.spec_table().contains_key(k) ==> self.spec_table()[k].fully_determined() {
            assert forall|k: u64| #[trigger]
                self.table@.contains_key(k) implies self.table@[k].fully_determined() by {
                assert(self.spec_table().contains_key(k));
            }
        }
    }


    /// Every table entry is the sound knowledge of some well-formed,
    /// unfinished position stored under its own key: the entry admits
    /// that position's settled outcome.  Since keys number positions
    /// injectively, two solvers' entries under the same key describe the
    /// same position, so they never contradict each other.
    pub proof fn lemma_entries_sound(self)
        requires
            self.inv(),
        ensures
            forall|k: u64| #[trigger]
                self.spec_table().contains_key(k) ==> self.spec_table()[k].wf() && exists|g: G|
                    #![auto]
                    {
                        &&& g.wf()
                        &&& g.spec_finished() is NotFinished
                        &&& g.spec_key() == k
                        &&& self.spec_table()[k].admits(true_outcome(g))
                    },
    {
        assert forall|k: u64| #[trigger]
            self.spec_table().contains_key(k) implies self.spec_table()[k].wf() && exists|g: G|
                #![auto]
                {
                    &&& g.wf()
                    &&& g.spec_finished() is NotFinished
                    &&& g.spec_key() == k
                    &&& self.spec_table()[k].admits(true_outcome(g))
                } by {
            let g0 = self.reprs@[k];
            assert(g0.wf() && g0.spec_finished() is NotFinished && g0.spec_key() == k
                && self.spec_table()[k].admits(true_outcome(g0)));
        }
    }

    pub fn new() -> (r: Self)
        ensures
            r.inv(),
            r.fully_det(),
            r.spec_table() == Map::<u64, Score>::empty(),
    {
        let r = TTSolver { table: HashMap::new(), reprs: Ghost(Map::empty()) };
        proof {
            assert(r.table@ =~= Map::<u64, Score>::empty());
        }
        r
    }

    /// The table of everything searched so far, keyed by `Game::key`.
    pub fn table(&self) -> (r: &HashMap<u64, Score>)
        ensures
            r@ == self.spec_table(),
    {
        &self.table
    }

    /// The value of the move into the successor `game`, from its parent
    /// mover's perspective, with `depth` plies of budget left below
    /// `game`: terminal successors are scored outright, anything else
    /// through the table.
    fn backstepped_score_for_game(&mut self, game: &G, depth: u32) -> (r: Score)
        requires
            game.wf(),
            old(self).inv(),
        ensures
            final(self).inv(),
            table_refined(final(self).spec_table(), old(self).spec_table()),
            r.wf(),
            r.admits(step_outcome(*game)),
            !(game.spec_finished() is NotFinished) ==> r == Score::spec_exact(step_outcome(*game))
                && *final(self) == *old(self),
            game.spec_finished() is NotFinished && old(self).spec_table().contains_key(
                game.spec_key(),
            ) && old(self).spec_table()[game.spec_key()].determined(depth) ==> *final(self)
                == *old(self) && r == old(self).spec_table()[game.spec_key()].spec_backstep(),
            game.spec_finished() is NotFinished ==> final(self).spec_table().contains_key(
                game.spec_key(),
            ) && r == final(self).spec_table()[game.spec_key()].spec_backstep(),
            game.spec_finished() is NotFinished && !(old(self).spec_table().contains_key(
                game.spec_key(),
            ) && old(self).spec_table()[game.spec_key()].determined(depth)) ==> exists|fresh:
                Score|
                {
                    &&& #[trigger] fresh.admits(true_outcome(*game))
                    &&& fresh.wf()
                    &&& final(self).spec_table()[game.spec_key()].refines(fresh)
                },
            old(self).fully_det() && (game.spec_finished() is NotFinished
                ==> depth >= game.measure()) ==> final(self).fully_det() && r == Score::spec_exact(
                step_outcome(*game),
            ),
        decreases depth, 1int,
    {
        match game.finished() {
            GameResult::Win(player) => {
                let r = if player == game.current_player() {
                    Score::lose(1)
                } else {
                    Score::win(1)
                };
                return r;
            },
            GameResult::Tie => {
                return Score::guaranteed_tie();
            },
            GameResult::NotFinished => {},
        }
        let k = game.key();
        let hit = self.table.get(&k);
        if hit.is_some() {
            let score = *hit.unwrap();
            if score.determined(depth) {
                proof {
                    self.reprs@[k].lemma_key_injective(*game);
                    lemma_backstep_sound(score, true_outcome(*game));
                    if old(self).fully_det() {
                        lemma_exact_admits(score, true_outcome(*game));
                    }
                }
                return score.backstep();
            }
        }
        let score = self.solve_impl(game, depth);
        let prev = self.table.get(&k);
        let merged = if prev.is_some() {
            let p = *prev.unwrap();
            proof {
                self.reprs@[k].lemma_key_injective(*game);
            }
            p.merge(score)
        } else {
            score
        };
        self.table.insert(k, merged);
        proof {
            self.reprs = Ghost(self.reprs@.insert(k, *game));
            lemma_backstep_sound(merged, true_outcome(*game));
            assert(score.admits(true_outcome(*game)) && score.wf()
                && self.spec_table()[game.spec_key()].refines(score));
        }
        merged.backstep()
    }

    fn solve_impl(&mut self, game: &G, depth: u32) -> (r: Score)
        requires
            game.wf(),
            game.spec_finished() is NotFinished,
            old(self).inv(),
        ensures
            final(self).inv(),
            table_refined(final(self).spec_table(), old(self).spec_table()),
            r.wf(),
            r.admits(true_outcome(*game)),
            r.compatible(value(*game, depth as nat)),
            depth == 0 ==> r == Score::spec_no_info() && *final(self) == *old(self),
            depth >= 1 && game.spec_moves().len() == 0 ==> r == Score::spec_lose(1)
                && *final(self) == *old(self),
            old(self).fully_det() && depth >= game.measure() ==> final(self).fully_det() && r
                == Score::spec_exact(true_outcome(*game)),
        decreases depth, 0int,
    {
        proof {
            game.lemma_measure_pos();
            lemma_true_outcome_unfold(*game);
        }
        if depth == 0 {
            proof {
                lemma_sound_compatible_with_value(*game, depth as nat, Score::spec_no_info());
            }
            return Score::no_info();
        }
        let moves = game.each_move();
        let n = moves.len();
        if n == 0 {
            proof {
                lemma_sound_compatible_with_value(*game, depth as nat, Score::spec_lose(1));
            }
            return Score::lose(1);
        }
        let ghost t0 = self.spec_table();
        let ghost det0 = old(self).fully_det();
        let ghost covering = det0 && depth >= game.measure();
        let mut i = n - 1;
        assert(game.spec_moves().contains(game.spec_moves()[i as int]));
        let child = game.with_move(moves[i]);
        proof {
            game.lemma_moves_ok(game.spec_moves()[i as int]);
        }
        let mut acc = self.backstepped_score_for_game(&child, depth - 1);
        while i > 0
            invariant
                game.wf(),
                game.spec_finished() is NotFinished,
                moves@ == game.spec_moves(),
                n == moves.len(),
                0 < n,
                0 <= i < n,
                depth >= 1,
                self.inv(),
                table_refined(self.spec_table(), t0),
                covering == (det0 && depth >= game.measure()),
                acc.wf(),
                acc.admits(best_outcome_from(*game, i as int)),
                covering ==> self.fully_det() && acc == Score::spec_exact(
                    best_outcome_from(*game, i as int),
                ),
            decreases i,
        {
            i = i - 1;
            assert(game.spec_moves().contains(game.spec_moves()[i as int]));
            let child = game.with_move(moves[i]);
            proof {
                game.lemma_moves_ok(game.spec_moves()[i as int]);
            }
            let ghost tpre = self.spec_table();
            let s = self.backstepped_score_for_game(&child, depth - 1);
            proof {
                lemma_table_refined_trans(self.spec_table(), tpre, t0);
            }
            acc = s.accumulate(acc);
        }
        proof {
            lemma_sound_compatible_with_value(*game, depth as nat, acc);
        }
        acc
    }

    /// Scores every legal move of `game` to `depth` plies through the
    /// table and returns the position's score together with the move
    /// ranked best.  Entries only gain precision; once the budget covers
    /// the remaining game (and the table holds nothing vaguer), the
    /// result is the settled outcome of the position, exactly, the move
    /// achieves it, and every entry of the table is fully determined.
    pub fn best_move(&mut self, game: &G, depth: u32) -> (r: (Score, Option<G::Move>))
        requires
            game.wf(),
            game.spec_finished() is NotFinished,
            old(self).inv(),
        ensures
            final(self).inv(),
            table_refined(final(self).spec_table(), old(self).spec_table()),
            r.0.wf(),
            depth == 0 ==> r == (Score::spec_no_info(), None::<G::Move>) && *final(self) == *old(self),
            depth >= 1 && game.spec_moves().len() == 0 ==> r == (
                Score::spec_lose(1),
                None::<G::Move>,
            ),
            depth >= 1 && game.spec_moves().len() > 0 ==> r.1 is Some,
            old(self).fully_det() && depth >= game.measure() ==> final(self).fully_det() && r.0
                == Score::spec_exact(true_outcome(*game)),
            old(self).fully_det() && depth >= game.measure() && game.spec_moves().len() > 0
                ==> r.1 is Some && step_outcome(game.spec_apply(r.1->Some_0)) == true_outcome(
                *game,
            ),
            depth >= 1 ==> r.0.admits(true_outcome(*game)),
            depth >= 1 ==> r.0.compatible(value(*game, depth as nat)),
    {
        proof {
            game.lemma_measure_pos();
            lemma_true_outcome_unfold(*game);
        }
        if depth == 0 {
            return (Score::no_info(), None);
        }
        let moves = game.each_move();
        let n = moves.len();
        if n == 0 {
            proof {
                lemma_sound_compatible_with_value(*game, depth as nat, Score::spec_lose(1));
            }
            return (Score::lose(1), None);
        }
        let ghost t0 = self.spec_table();
        let ghost det0 = old(self).fully_det();
        let ghost covering = det0 && depth >= game.measure();
        let mut i = n - 1;
        assert(game.spec_moves().contains(game.spec_moves()[i as int]));
        let child = game.with_move(moves[i]);
        proof {
            game.lemma_moves_ok(game.spec_moves()[i as int]);
        }
        let mut best = self.backstepped_score_for_game(&child, depth - 1);
        let mut acc = best;
        let mut best_mv = moves[i];
        proof {
            lemma_step_le_best(*game, 0, i as int);
        }
        while i > 0
            invariant
                game.wf(),
                game.spec_finished() is NotFinished,
                moves@ == game.spec_moves(),
                n == moves.len(),
                0 < n,
                0 <= i < n,
                depth >= 1,
                self.inv(),
                table_refined(self.spec_table(), t0),
                covering == (det0 && depth >= game.measure()),
                best.wf(),
                acc.wf(),
                acc.lo.key() <= settled_outcome(*game).key(),
                forall|j: int|
                    i as int <= j < n ==> #[trigger] step_outcome(
                        game.spec_apply(game.spec_moves()[j]),
                    ).key() <= acc.hi.key(),
                game.spec_moves().contains(best_mv),
                covering ==> self.fully_det() && acc == Score::spec_exact(
                    best_outcome_from(*game, i as int),
                ),
                covering ==> best == Score::spec_exact(best_outcome_from(*game, i as int)),
                covering ==> Score::spec_exact(step_outcome(game.spec_apply(best_mv))) == best,
            decreases i,
        {
            i = i - 1;
            assert(game.spec_moves().contains(game.spec_moves()[i as int]));
            let child = game.with_move(moves[i]);
            proof {
                game.lemma_moves_ok(game.spec_moves()[i as int]);
            }
            let ghost tpre = self.spec_table();
            let s = self.backstepped_score_for_game(&child, depth - 1);
            proof {
                lemma_table_refined_trans(self.spec_table(), tpre, t0);
                lemma_step_le_best(*game, 0, i as int);
                if covering {
                    let a = step_outcome(game.spec_apply(game.spec_moves()[i as int]));
                    let b = best_outcome_from(*game, i as int + 1);
                    if a.key() == b.key() {
                        lemma_key_injective(a, b);
                    }
                }
            }
            acc = s.accumulate(acc);
            if best.le(s) {
                best = s;
                best_mv = moves[i];
            }
        }
        proof {
            lemma_best_le(*game, 0, acc.hi.key());
            lemma_sound_compatible_with_value(*game, depth as nat, acc);
        }
        (acc, Some(best_mv))
    }

    /// Like [`Self::best_move`], but promising the stronger, strictly
    /// exact reading of the result: this solver never prunes, so a budget
    /// covering the remaining game yields the true minimal ply distance.
    pub fn best_move_determined(&mut self, game: &G, depth: u32) -> (r: (
        DeterminedScore,
        Option<G::Move>,
    ))
        requires
            game.wf(),
            game.spec_finished() is NotFinished,
            old(self).inv(),
        ensures
            final(self).inv(),
            table_refined(final(self).spec_table(), old(self).spec_table()),
            depth == 0 ==> r == (DeterminedScore::Unresolved, None::<G::Move>),
            old(self).fully_det() && depth >= game.measure() ==> final(self).fully_det() && r.0
                == DeterminedScore::spec_of_outcome(true_outcome(*game)),
            old(self).fully_det() && depth >= game.measure() && game.spec_moves().len() > 0
                ==> r.1 is Some && step_outcome(game.spec_apply(r.1->Some_0)) == true_outcome(
                *game,
            ),
    {
        let (score, mv) = self.best_move(game, depth);
        if depth == 0 {
            (DeterminedScore::Unresolved, None)
        } else {
            (DeterminedScore::of_score(score), mv)
        }
    }
}

/// Gaining precision is transitive across a chain of table updates.
pub proof fn lemma_table_refined_trans(c: Map<u64, Score>, b: Map<u64, Score>, a: Map<u64, Score>)
    requires
        table_refined(c, b),
        table_refined(b, a),
    ensures
        table_refined(c, a),
{
}

} // verus!
