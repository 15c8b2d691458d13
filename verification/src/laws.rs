//! The library-wide guarantees, stated and proved once, in public proof
//! functions that callers can invoke.

use vstd::prelude::*;

use crate::game::{
    best_outcome_from, best_value_from, settled_outcome, step_outcome, step_value, true_outcome,
    value, Game,
};
use crate::score::{lemma_key_injective, Outcome, Score};

verus! {

/// `determined` is monotonic downward: knowledge that settles a search to
/// `depth` plies settles every shallower search too.
pub proof fn lemma_determined_monotonic(s: Score, depth: u32, shallower: u32)
    requires
        s.wf(),
        s.determined(depth),
        shallower <= depth,
    ensures
        s.determined(shallower),
{
}

/// Merging a score with itself changes nothing.
pub proof fn lemma_merge_idempotent(s: Score)
    requires
        s.wf(),
    ensures
        s.spec_merge(s) == s,
{
}

/// Merging is commutative on scores that do not contradict each other —
/// and two sound scores for the same position never do.
pub proof fn lemma_merge_commutative(a: Score, b: Score)
    requires
        a.wf(),
        b.wf(),
        a.compatible(b),
    ensures
        a.spec_merge(b) == b.spec_merge(a),
{
}

/// Merging never regresses precision: the merge refines both of its
/// inputs, and it is the tightest such score — any other score refining
/// both inputs refines the merge as well.
pub proof fn lemma_merge_tightest(a: Score, b: Score, c: Score)
    requires
        a.wf(),
        b.wf(),
        a.compatible(b),
    ensures
        a.spec_merge(b).wf(),
        a.spec_merge(b).refines(a),
        a.spec_merge(b).refines(b),
        c.refines(a) && c.refines(b) ==> c.refines(a.spec_merge(b)),
{
}

/// Compatibility is reflexive on well-formed scores and symmetric.
pub proof fn lemma_compatible_symmetric(a: Score, b: Score)
    requires
        a.wf(),
        b.wf(),
    ensures
        a.compatible(a),
        a.compatible(b) == b.compatible(a),
{
}

/// The value of a move whose successor may still be searched deep enough
/// to cover it is its settled outcome, exactly.
proof fn lemma_step_settles<G: Game>(c: G, depth: nat)
    requires
        c.wf(),
        c.spec_finished() is NotFinished ==> depth >= c.measure(),
    ensures
        step_value(c, depth) == Score::spec_exact(step_outcome(c)),
        step_outcome(c).wf(),
    decreases depth, 3int, 0int,
{
    if c.spec_finished() is NotFinished {
        lemma_value_settles(c, depth);
        lemma_value_settles(c, c.measure());
    }
}

proof fn lemma_best_from_settles<G: Game>(g: G, i: int, depth: nat)
    requires
        g.wf(),
        g.spec_finished() is NotFinished,
        depth >= g.measure(),
        depth >= 1,
        0 <= i < g.spec_moves().len(),
    ensures
        best_value_from(g, i, depth) == Score::spec_exact(best_outcome_from(g, i)),
        best_outcome_from(g, i).wf(),
    decreases depth, 1int, g.spec_moves().len() - i,
{
    let m = g.spec_moves()[i];
    assert(g.spec_moves().contains(m));
    g.lemma_moves_ok(m);
    let c = g.spec_apply(m);
    lemma_step_settles(c, (depth - 1) as nat);
    if i + 1 < g.spec_moves().len() {
        lemma_best_from_settles(g, i + 1, depth);
        let a = step_outcome(c);
        let b = best_outcome_from(g, i + 1);
        if a.key() == b.key() {
            lemma_key_injective(a, b);
        }
    }
}

/// A search whose budget covers the whole remaining game settles the
/// position exactly: its value is a single outcome, the best the mover's
/// moves lead to.
proof fn lemma_value_settles<G: Game>(g: G, depth: nat)
    requires
        g.wf(),
        g.spec_finished() is NotFinished,
        depth >= g.measure(),
    ensures
        value(g, depth) == Score::spec_exact(settled_outcome(g)),
        settled_outcome(g).wf(),
    decreases depth, 2int, 0int,
{
    g.lemma_measure_pos();
    if g.spec_moves().len() > 0 {
        lemma_best_from_settles(g, 0, depth);
    }
}

/// Every move's settled outcome is bounded by the best from any earlier
/// index.
pub proof fn lemma_step_le_best<G: Game>(g: G, i: int, j: int)
    requires
        0 <= i <= j < g.spec_moves().len(),
    ensures
        step_outcome(g.spec_apply(g.spec_moves()[j])).key() <= best_outcome_from(g, i).key(),
    decreases j - i,
{
    if i < j {
        lemma_step_le_best(g, i + 1, j);
    }
}

/// An upper bound on every move's settled outcome bounds their best.
pub proof fn lemma_best_le<G: Game>(g: G, i: int, x: int)
    requires
        0 <= i < g.spec_moves().len(),
        forall|j: int|
            i <= j < g.spec_moves().len() ==> #[trigger] step_outcome(
                g.spec_apply(g.spec_moves()[j]),
            ).key() <= x,
    ensures
        best_outcome_from(g, i).key() <= x,
    decreases g.spec_moves().len() - i,
{
    if i + 1 < g.spec_moves().len() {
        lemma_best_le(g, i + 1, x);
    }
}

/// The settled outcome of an unfinished position unfolds one ply: it is
/// an immediate loss with no move available, and otherwise the best
/// outcome among the moves.
pub proof fn lemma_true_outcome_unfold<G: Game>(g: G)
    requires
        g.wf(),
        g.spec_finished() is NotFinished,
    ensures
        true_outcome(g) == settled_outcome(g),
        true_outcome(g).wf(),
{
    lemma_value_settles(g, g.measure());
}

/// Any exhaustive search deep enough to cover the remaining game returns
/// the settled outcome of the position, exactly and fully determined.  In
/// particular any two such searches — whatever their budgets, memoized or
/// not — agree on the verdict at every probing depth.
pub proof fn lemma_exhaustive_search_settles<G: Game>(g: G, depth: nat)
    requires
        g.wf(),
        g.spec_finished() is NotFinished,
        depth >= g.measure(),
    ensures
        value(g, depth) == Score::spec_exact(true_outcome(g)),
        value(g, depth).fully_determined(),
        true_outcome(g).wf(),
    decreases depth,
{
    lemma_value_settles(g, depth);
    lemma_value_settles(g, g.measure());
}

/// A bounded exhaustive search never overclaims: whatever the budget,
/// the value of the move into a successor admits that move's settled
/// outcome.
proof fn lemma_step_value_sound<G: Game>(c: G, depth: nat)
    requires
        c.wf(),
    ensures
        step_value(c, depth).wf(),
        step_value(c, depth).admits(step_outcome(c)),
    decreases depth, 3int, 0int,
{
    if c.spec_finished() is NotFinished {
        lemma_true_outcome_unfold(c);
        lemma_value_sound(c, depth);
        crate::score::lemma_backstep_sound(value(c, depth), true_outcome(c));
    }
}

proof fn lemma_best_from_sound<G: Game>(g: G, i: int, depth: nat)
    requires
        g.wf(),
        g.spec_finished() is NotFinished,
        depth >= 1,
        0 <= i < g.spec_moves().len(),
    ensures
        best_value_from(g, i, depth).wf(),
        best_value_from(g, i, depth).admits(best_outcome_from(g, i)),
    decreases depth, 1int, g.spec_moves().len() - i,
{
    let m = g.spec_moves()[i];
    assert(g.spec_moves().contains(m));
    g.lemma_moves_ok(m);
    let c = g.spec_apply(m);
    lemma_step_value_sound(c, (depth - 1) as nat);
    if i + 1 < g.spec_moves().len() {
        lemma_best_from_sound(g, i + 1, depth);
    }
}

/// A bounded exhaustive search is sound at every budget: its value
/// admits the settled outcome of the position, whether or not the budget
/// covers the remaining game.
pub proof fn lemma_value_sound<G: Game>(g: G, depth: nat)
    requires
        g.wf(),
        g.spec_finished() is NotFinished,
    ensures
        value(g, depth).wf(),
        value(g, depth).admits(true_outcome(g)),
    decreases depth, 2int, 0int,
{
    lemma_true_outcome_unfold(g);
    if depth > 0 && g.spec_moves().len() > 0 {
        lemma_best_from_sound(g, 0, depth);
    }
}

/// Two sound scores for the same position — each admitting that
/// position's settled outcome — never contradict each other.
pub proof fn lemma_sound_scores_compatible(a: Score, b: Score, o: Outcome)
    requires
        a.admits(o),
        b.admits(o),
    ensures
        a.compatible(b),
        b.compatible(a),
{
}

/// A solver whose score admits the settled outcome of the position — as
/// every solver of this library ensures — never contradicts the
/// exhaustive search at the same position and any depth, covering or
/// not.
pub proof fn lemma_sound_compatible_with_value<G: Game>(g: G, depth: nat, s: Score)
    requires
        g.wf(),
        g.spec_finished() is NotFinished,
        s.admits(true_outcome(g)),
    ensures
        s.compatible(value(g, depth)),
        value(g, depth).compatible(s),
        value(g, depth).fully_determined() ==> value(g, depth) == Score::spec_exact(
            true_outcome(g),
        ),
{
    lemma_true_outcome_unfold(g);
    lemma_value_sound(g, depth);
    if value(g, depth).fully_determined() {
        crate::score::lemma_exact_admits(value(g, depth), true_outcome(g));
    }
}

/// The exhaustive solvers agree exactly: two covering searches return the
/// same score, and so the same verdict at every probing depth.
pub proof fn lemma_exhaustive_solvers_agree<G: Game>(g: G, d1: nat, d2: nat, probe: u32)
    requires
        g.wf(),
        g.spec_finished() is NotFinished,
        d1 >= g.measure(),
        d2 >= g.measure(),
    ensures
        value(g, d1) == value(g, d2),
        value(g, d1).spec_score_at_depth(probe) == value(g, d2).spec_score_at_depth(probe),
{
    lemma_exhaustive_search_settles(g, d1);
    lemma_exhaustive_search_settles(g, d2);
}

} // verus!
