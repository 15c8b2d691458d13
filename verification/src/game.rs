//! The capability contract a game must satisfy to be searched, and the
//! mathematical value of a bounded exhaustive search.

use vstd::prelude::*;

use crate::score::{Outcome, Score};

verus! {

#[derive(Clone, Copy, PartialEq, Eq, Structural, Debug, Hash)]
pub enum Player {
    First,
    Second,
}

impl Player {
    pub open spec fn spec_other(self) -> Player {
        match self {
            Player::First => Player::Second,
            Player::Second => Player::First,
        }
    }

    #[verifier::when_used_as_spec(spec_other)]
    pub fn other(self) -> (r: Player)
        ensures
            r == self.spec_other(),
    {
        match self {
            Player::First => Player::Second,
            Player::Second => Player::First,
        }
    }
}

#[derive(Clone, Copy, PartialEq, Eq, Structural, Debug, Hash)]
pub enum GameResult {
    Win(Player),
    Tie,
    NotFinished,
}

/// What a position type must offer to be searched.
///
/// The executable methods are mirrored by specification functions; each
/// implementation proves that the two agree, that applying a legal move
/// shrinks the `measure` (so every game is finite), and that `key` numbers
/// well-formed positions injectively (so a transposition table may be keyed
/// by it).
pub trait Game: Sized {
    type Move: Copy;

    /// Positions reachable by legal play satisfy this.
    spec fn wf(self) -> bool;

    /// An upper bound on the number of plies the game can still last.
    spec fn measure(self) -> nat;

    spec fn spec_finished(self) -> GameResult;

    spec fn spec_current_player(self) -> Player;

    /// The legal moves, in the fixed order `each_move` yields them.
    spec fn spec_moves(self) -> Seq<Self::Move>;

    spec fn spec_apply(self, m: Self::Move) -> Self;

    /// An injective numbering of well-formed positions.
    spec fn spec_key(self) -> u64;

    fn finished(&self) -> (r: GameResult)
        requires
            self.wf(),
        ensures
            r == self.spec_finished(),
    ;

    fn current_player(&self) -> (r: Player)
        requires
            self.wf(),
        ensures
            r == self.spec_current_player(),
    ;

    fn each_move(&self) -> (r: Vec<Self::Move>)
        requires
            self.wf(),
            self.spec_finished() is NotFinished,
        ensures
            r@ == self.spec_moves(),
    ;

    fn with_move(&self, m: Self::Move) -> (r: Self)
        requires
            self.wf(),
            self.spec_finished() is NotFinished,
            self.spec_moves().contains(m),
        ensures
            r == self.spec_apply(m),
    ;

    fn key(&self) -> (r: u64)
        requires
            self.wf(),
        ensures
            r == self.spec_key(),
    ;

    /// An unfinished game has at least one ply left to play.
    proof fn lemma_measure_pos(self)
        requires
            self.wf(),
            self.spec_finished() is NotFinished,
        ensures
            self.measure() >= 1,
    ;

    /// A legal move leads to a well-formed position and brings the game
    /// strictly closer to its end.
    proof fn lemma_moves_ok(self, m: Self::Move)
        requires
            self.wf(),
            self.spec_finished() is NotFinished,
            self.spec_moves().contains(m),
        ensures
            self.spec_apply(m).wf(),
            self.spec_apply(m).measure() < self.measure(),
    ;

    /// Two well-formed positions with the same key are the same position.
    proof fn lemma_key_injective(self, other: Self)
        requires
            self.wf(),
            other.wf(),
            self.spec_key() == other.spec_key(),
        ensures
            self == other,
    ;
}

/// The value of the move into the successor `c`, seen from the player to
/// move at its parent, when `c` may still be searched `depth` plies deep:
/// a terminal successor is an immediate outcome one ply away, any other
/// successor is worth its own value one ply stepped back.
pub open spec fn step_value<G: Game>(c: G, depth: nat) -> Score
    decreases depth, 3int, 0int,
{
    match c.spec_finished() {
        GameResult::Win(p) => if p == c.spec_current_player() {
            Score::spec_lose(1)
        } else {
            Score::spec_win(1)
        },
        GameResult::Tie => Score::spec_tie(),
        GameResult::NotFinished => value(c, depth).spec_backstep(),
    }
}

/// The value of the moves of `g` from index `i` on, at parent budget
/// `depth >= 1`: the moves' values folded bound-wise, so that knowledge
/// from unequally resolved successors combines without overclaiming.
pub open spec fn best_value_from<G: Game>(g: G, i: int, depth: nat) -> Score
    decreases depth, 1int, g.spec_moves().len() - i,
{
    if depth == 0 {
        Score::spec_no_info()
    } else if i + 1 >= g.spec_moves().len() {
        step_value(g.spec_apply(g.spec_moves()[i]), (depth - 1) as nat)
    } else {
        step_value(g.spec_apply(g.spec_moves()[i]), (depth - 1) as nat).spec_accumulate(
            best_value_from(g, i + 1, depth),
        )
    }
}

/// The value of an exhaustive search of `g` to `depth` plies, from the
/// perspective of the player to move at `g`: nothing at depth zero, an
/// immediate loss when no move exists, and otherwise the best of the
/// moves' values.  This recursion is the ground truth every solver is
/// measured against.
pub open spec fn value<G: Game>(g: G, depth: nat) -> Score
    decreases depth, 2int, 0int,
{
    if depth == 0 {
        Score::spec_no_info()
    } else if g.spec_moves().len() == 0 {
        Score::spec_lose(1)
    } else {
        best_value_from(g, 0, depth)
    }
}

/// The settled outcome of `g`: what a search deep enough to cover the
/// whole remaining game concludes.
pub open spec fn true_outcome<G: Game>(g: G) -> Outcome {
    value(g, g.measure()).lo
}

/// The settled outcome of the move into the successor `c`, from the
/// mover's perspective at its parent.
pub open spec fn step_outcome<G: Game>(c: G) -> Outcome {
    match c.spec_finished() {
        GameResult::Win(p) => if p == c.spec_current_player() {
            Outcome::Lose(1)
        } else {
            Outcome::Win(1)
        },
        GameResult::Tie => Outcome::Tie,
        GameResult::NotFinished => true_outcome(c).spec_negstep(),
    }
}

/// The best settled outcome among the moves of `g` from index `i` on.
pub open spec fn best_outcome_from<G: Game>(g: G, i: int) -> Outcome
    decreases g.spec_moves().len() - i,
{
    if i + 1 >= g.spec_moves().len() {
        step_outcome(g.spec_apply(g.spec_moves()[i]))
    } else {
        let a = step_outcome(g.spec_apply(g.spec_moves()[i]));
        let b = best_outcome_from(g, i + 1);
        if b.key() <= a.key() {
            a
        } else {
            b
        }
    }
}

/// The settled outcome of an unfinished position: an immediate loss when
/// the mover has no move, otherwise the best its moves lead to.
pub open spec fn settled_outcome<G: Game>(g: G) -> Outcome {
    if g.spec_moves().len() == 0 {
        Outcome::Lose(1)
    } else {
        best_outcome_from(g, 0)
    }
}

} // verus!
