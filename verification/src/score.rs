//! Depth-bounded, comparable, mergeable game values.
//!
//! A [`Score`] records what a bounded search has learned about a position,
//! always from the perspective of the player about to move there.  The
//! possible final outcomes form a chain, worst to best for that player:
//!
//! ```text
//! Lose(1) < Lose(2) < ... < Tie < ... < Win(2) < Win(1)
//! ```
//!
//! (a faster win is better, a later loss is better).  A `Score` is a pair of
//! bounds on that chain: the true outcome of the position lies between
//! `lo` and `hi` inclusive.  An exact value has `lo == hi`; `no_info` spans
//! the whole chain; a score returned by a pruning cutoff keeps only its
//! lower bound.  `merge` intersects two such intervals, so precision can
//! only grow, and `compatible` asks whether two intervals overlap.

use vstd::prelude::*;

verus! {

/// One point on the outcome chain: a forced loss in exactly `k` plies, a
/// guaranteed tie, or a forced win in exactly `k` plies (`k >= 1`).
#[derive(Clone, Copy, PartialEq, Eq, Structural, Debug, Hash)]
pub enum Outcome {
    Lose(u32),
    Tie,
    Win(u32),
}

/// The verdict of a search relative to a claimed depth.
#[derive(Clone, Copy, PartialEq, Eq, Structural, Debug, Hash)]
pub enum ScoreValue {
    CurrentPlayerWins,
    OtherPlayerWins,
    Tie,
    Unresolved,
}

impl ScoreValue {
    pub open spec fn spec_is_winning(self) -> bool {
        self is CurrentPlayerWins
    }

    #[verifier::when_used_as_spec(spec_is_winning)]
    pub fn is_winning(self) -> (r: bool)
        ensures
            r == self.spec_is_winning(),
    {
        matches!(self, ScoreValue::CurrentPlayerWins)
    }
}

impl Outcome {
    /// A ply distance of zero is meaningless: outcomes are at least one
    /// move away.
    pub open spec fn wf(self) -> bool {
        match self {
            Outcome::Lose(k) => k >= 1,
            Outcome::Tie => true,
            Outcome::Win(k) => k >= 1,
        }
    }

    /// Position of this outcome on the chain, as an integer.  Losses sit
    /// lowest (later is higher), ties in the middle, wins on top (sooner is
    /// higher).
    pub open spec fn key(self) -> int {
        match self {
            Outcome::Lose(k) => k as int,
            Outcome::Tie => 0x1_0000_0000,
            Outcome::Win(k) => 0x2_0000_0000 - k,
        }
    }

    /// The same outcome seen one ply farther from the root: a win for the
    /// player at a child is a loss for the player at its parent, one ply
    /// later.  Distances saturate at `u32::MAX` (never reached by a search,
    /// whose distances stay below the requested depth plus two).
    pub open spec fn spec_negstep(self) -> Outcome {
        match self {
            Outcome::Lose(k) => Outcome::Win(sat_inc(k)),
            Outcome::Tie => Outcome::Tie,
            Outcome::Win(k) => Outcome::Lose(sat_inc(k)),
        }
    }

    /// The dual transform, one ply closer to the leaves, used on window
    /// bounds.  Distances bottom out at one ply.
    pub open spec fn spec_fwdstep(self) -> Outcome {
        match self {
            Outcome::Lose(k) => Outcome::Win(sat_dec(k)),
            Outcome::Tie => Outcome::Tie,
            Outcome::Win(k) => Outcome::Lose(sat_dec(k)),
        }
    }
}

pub open spec fn sat_inc(k: u32) -> u32 {
    if k == u32::MAX {
        k
    } else {
        (k + 1) as u32
    }
}

pub open spec fn sat_dec(k: u32) -> u32 {
    if k <= 1 {
        1
    } else {
        (k - 1) as u32
    }
}

/// `a` is no better than `b` for the player to move.
pub open spec fn outcome_le(a: Outcome, b: Outcome) -> bool {
    a.key() <= b.key()
}

/// What a search has learned about a position, from the perspective of the
/// player to move there: the true outcome lies between `lo` and `hi` on the
/// outcome chain.
#[derive(Clone, Copy, PartialEq, Eq, Structural, Debug, Hash)]
pub struct Score {
    pub lo: Outcome,
    pub hi: Outcome,
}

impl Score {
    pub open spec fn wf(self) -> bool {
        self.lo.wf() && self.hi.wf() && outcome_le(self.lo, self.hi)
    }

    /// The outcome `o` is consistent with this knowledge.
    pub open spec fn admits(self, o: Outcome) -> bool {
        self.lo.key() <= o.key() <= self.hi.key()
    }

    /// `self` is at least as precise as `other`: everything `self` admits,
    /// `other` admits too.
    pub open spec fn refines(self, other: Score) -> bool {
        other.lo.key() <= self.lo.key() && self.hi.key() <= other.hi.key()
    }

    pub open spec fn spec_exact(o: Outcome) -> Score {
        Score { lo: o, hi: o }
    }

    pub open spec fn spec_win(k: u32) -> Score {
        Score::spec_exact(Outcome::Win(k))
    }

    pub open spec fn spec_lose(k: u32) -> Score {
        Score::spec_exact(Outcome::Lose(k))
    }

    pub open spec fn spec_tie() -> Score {
        Score::spec_exact(Outcome::Tie)
    }

    pub open spec fn spec_no_info() -> Score {
        Score { lo: Outcome::Lose(1), hi: Outcome::Win(1) }
    }

    /// An exact forced win in `k` plies.
    pub fn win(k: u32) -> (r: Score)
        requires
            k >= 1,
        ensures
            r == Score::spec_win(k),
            r.wf(),
            r.fully_determined(),
    {
        Score { lo: Outcome::Win(k), hi: Outcome::Win(k) }
    }

    /// An exact forced loss in `k` plies.
    pub fn lose(k: u32) -> (r: Score)
        requires
            k >= 1,
        ensures
            r == Score::spec_lose(k),
            r.wf(),
            r.fully_determined(),
    {
        Score { lo: Outcome::Lose(k), hi: Outcome::Lose(k) }
    }

    /// An exact tie; its distance is irrelevant.
    pub fn guaranteed_tie() -> (r: Score)
        ensures
            r == Score::spec_tie(),
            r.wf(),
            r.fully_determined(),
    {
        Score { lo: Outcome::Tie, hi: Outcome::Tie }
    }

    /// The budget ran out before anything was resolved: every outcome is
    /// still possible.
    pub fn no_info() -> (r: Score)
        ensures
            r == Score::spec_no_info(),
            r.wf(),
    {
        Score { lo: Outcome::Lose(1), hi: Outcome::Win(1) }
    }

    /// No ambiguity remains at any depth.
    pub open spec fn spec_fully_determined(self) -> bool {
        self.lo == self.hi
    }

    #[verifier::when_used_as_spec(spec_fully_determined)]
    pub fn fully_determined(self) -> (r: bool)
        ensures
            r == self.spec_fully_determined(),
    {
        self.lo == self.hi
    }

    pub open spec fn spec_backstep(self) -> Score {
        Score { lo: self.hi.spec_negstep(), hi: self.lo.spec_negstep() }
    }

    /// This knowledge as seen one ply closer to the root: both bounds are
    /// negated (and so swap roles) and move one ply out.
    pub fn backstep(self) -> (r: Score)
        ensures
            r == self.spec_backstep(),
    {
        Score { lo: negstep(self.hi), hi: negstep(self.lo) }
    }

    pub open spec fn spec_forwardstep(self) -> Score {
        Score { lo: self.hi.spec_fwdstep(), hi: self.lo.spec_fwdstep() }
    }

    /// The dual transform applied to alpha/beta window bounds pushed one
    /// ply down to a child: negate and swap roles.
    pub fn forwardstep(self) -> (r: Score)
        ensures
            r == self.spec_forwardstep(),
    {
        Score { lo: fwdstep(self.hi), hi: fwdstep(self.lo) }
    }

    /// Knowledge order for the search: prefer the higher guaranteed floor,
    /// then the more settled score.  Under it any resolved value ranks
    /// above `no_info`, wins above ties above losses, faster wins and later
    /// losses higher.
    pub open spec fn spec_le(self, other: Score) -> bool {
        self.lo.key() < other.lo.key() || (self.lo == other.lo && other.hi.key() <= self.hi.key())
    }

    pub fn le(self, other: Score) -> (r: bool)
        ensures
            r == self.spec_le(other),
    {
        let sl = key_of(self.lo);
        let ol = key_of(other.lo);
        if sl < ol {
            true
        } else if sl == ol {
            proof {
                lemma_key_injective(self.lo, other.lo);
            }
            key_of(other.hi) <= key_of(self.hi)
        } else {
            false
        }
    }

    pub open spec fn spec_max(self, other: Score) -> Score {
        if self.spec_le(other) {
            other
        } else {
            self
        }
    }

    /// The better of two scores under the knowledge order.
    pub fn max(self, other: Score) -> (r: Score)
        ensures
            r == self.spec_max(other),
    {
        if self.le(other) {
            other
        } else {
            self
        }
    }

    pub open spec fn spec_accumulate(self, other: Score) -> Score {
        Score {
            lo: if self.lo.key() <= other.lo.key() {
                other.lo
            } else {
                self.lo
            },
            hi: if self.hi.key() <= other.hi.key() {
                other.hi
            } else {
                self.hi
            },
        }
    }

    /// Bound-wise best of two scores: the weakest knowledge implied by
    /// "the true value is the better of the two".  Used when folding child
    /// scores that may be unequally resolved.
    pub fn accumulate(self, other: Score) -> (r: Score)
        ensures
            r == self.spec_accumulate(other),
    {
        Score {
            lo: if key_of(self.lo) <= key_of(other.lo) {
                other.lo
            } else {
                self.lo
            },
            hi: if key_of(self.hi) <= key_of(other.hi) {
                other.hi
            } else {
                self.hi
            },
        }
    }

    /// Neither score contradicts the other's proven bounds.
    pub open spec fn spec_compatible(self, other: Score) -> bool {
        self.lo.key() <= other.hi.key() && other.lo.key() <= self.hi.key()
    }

    #[verifier::when_used_as_spec(spec_compatible)]
    pub fn compatible(self, other: Score) -> (r: bool)
        ensures
            r == self.spec_compatible(other),
    {
        key_of(self.lo) <= key_of(other.hi) && key_of(other.lo) <= key_of(self.hi)
    }

    pub open spec fn spec_merge(self, other: Score) -> Score {
        if self.spec_compatible(other) {
            Score {
                lo: if self.lo.key() <= other.lo.key() {
                    other.lo
                } else {
                    self.lo
                },
                hi: if other.hi.key() <= self.hi.key() {
                    other.hi
                } else {
                    self.hi
                },
            }
        } else {
            other
        }
    }

    /// The tightest score consistent with both inputs: the intersection of
    /// the two intervals.  Two sound scores for the same position always
    /// overlap; if the inputs contradict each other outright, the newer
    /// measurement `other` is kept.
    pub fn merge(self, other: Score) -> (r: Score)
        ensures
            r == self.spec_merge(other),
            self.compatible(other) ==> r.refines(self) && r.refines(other),
    {
        if self.compatible(other) {
            Score {
                lo: if key_of(self.lo) <= key_of(other.lo) {
                    other.lo
                } else {
                    self.lo
                },
                hi: if key_of(other.hi) <= key_of(self.hi) {
                    other.hi
                } else {
                    self.hi
                },
            }
        } else {
            other
        }
    }

    /// This score settles what a search to exactly `depth` plies would be
    /// owed: either it is exact, or it already shows that no win and no
    /// loss lies within `depth` plies.  A cached entry may be reused
    /// without re-expansion precisely when this holds.
    pub open spec fn spec_determined(self, depth: u32) -> bool {
        self.lo == self.hi || (self.lo.key() > depth && self.hi.key() < 0x2_0000_0000 - depth)
    }

    #[verifier::when_used_as_spec(spec_determined)]
    pub fn determined(self, depth: u32) -> (r: bool)
        ensures
            r == self.spec_determined(depth),
    {
        if self.lo == self.hi {
            true
        } else {
            key_of(self.lo) > depth as i64 && key_of(self.hi) < 0x2_0000_0000i64 - depth as i64
        }
    }

    /// The verdict this score supports for a search to `depth` plies:
    /// a win or loss whose distance fits the budget, a tie whose other
    /// side is excluded within the budget, or no verdict at all.
    pub open spec fn spec_score_at_depth(self, depth: u32) -> ScoreValue {
        if self.lo.key() >= 0x2_0000_0000 - depth {
            ScoreValue::CurrentPlayerWins
        } else if self.hi.key() <= depth {
            ScoreValue::OtherPlayerWins
        } else if (self.lo == Outcome::Tie && self.hi.key() < 0x2_0000_0000 - depth) || (self.hi
            == Outcome::Tie && self.lo.key() > depth) {
            ScoreValue::Tie
        } else {
            ScoreValue::Unresolved
        }
    }

    #[verifier::when_used_as_spec(spec_score_at_depth)]
    pub fn score_at_depth(self, depth: u32) -> (r: ScoreValue)
        ensures
            r == self.spec_score_at_depth(depth),
    {
        let d = depth as i64;
        if key_of(self.lo) >= 0x2_0000_0000i64 - d {
            ScoreValue::CurrentPlayerWins
        } else if key_of(self.hi) <= d {
            ScoreValue::OtherPlayerWins
        } else if (self.lo == Outcome::Tie && key_of(self.hi) < 0x2_0000_0000i64 - d) || (self.hi
            == Outcome::Tie && key_of(self.lo) > d) {
            ScoreValue::Tie
        } else {
            ScoreValue::Unresolved
        }
    }

    pub open spec fn spec_break_early(self) -> Score {
        Score { lo: self.lo, hi: Outcome::Win(1) }
    }

    /// Mark this score as the product of a pruning cutoff: unexplored
    /// alternatives could only raise the value, so only the floor is kept.
    pub fn break_early(self) -> (r: Score)
        ensures
            r == self.spec_break_early(),
    {
        Score { lo: self.lo, hi: Outcome::Win(1) }
    }

    pub open spec fn spec_truncated(self, depth: u32) -> Score {
        Score {
            lo: match self.lo {
                Outcome::Lose(k) => if k > depth {
                    Outcome::Lose(sat_inc(depth))
                } else {
                    Outcome::Lose(k)
                },
                Outcome::Tie => Outcome::Tie,
                Outcome::Win(k) => if k > depth {
                    Outcome::Lose(sat_inc(depth))
                } else {
                    Outcome::Win(k)
                },
            },
            hi: match self.hi {
                Outcome::Lose(k) => if k > depth {
                    Outcome::Win(sat_inc(depth))
                } else {
                    Outcome::Lose(k)
                },
                Outcome::Tie => Outcome::Tie,
                Outcome::Win(k) => if k > depth {
                    Outcome::Win(sat_inc(depth))
                } else {
                    Outcome::Win(k)
                },
            },
        }
    }

    /// Clamp knowledge that reaches past `depth` plies down to that
    /// horizon, so that results of searches of unequal efficiency can be
    /// compared: a win or loss farther than `depth` away dissolves into
    /// "unresolved within `depth`".
    pub fn truncated(self, depth: u32) -> (r: Score)
        ensures
            r == self.spec_truncated(depth),
    {
        let lo = match self.lo {
            Outcome::Lose(k) => if k > depth {
                Outcome::Lose(sat_inc_exec(depth))
            } else {
                Outcome::Lose(k)
            },
            Outcome::Tie => Outcome::Tie,
            Outcome::Win(k) => if k > depth {
                Outcome::Lose(sat_inc_exec(depth))
            } else {
                Outcome::Win(k)
            },
        };
        let hi = match self.hi {
            Outcome::Lose(k) => if k > depth {
                Outcome::Win(sat_inc_exec(depth))
            } else {
                Outcome::Lose(k)
            },
            Outcome::Tie => Outcome::Tie,
            Outcome::Win(k) => if k > depth {
                Outcome::Win(sat_inc_exec(depth))
            } else {
                Outcome::Win(k)
            },
        };
        Score { lo, hi }
    }
}

/// A strictly exact game value: an exact ply distance or a guaranteed tie,
/// never a loose bound.  Only solvers that never prune can promise one;
/// `Unresolved` stands for a budget that ran out first.
#[derive(Clone, Copy, PartialEq, Eq, Structural, Debug, Hash)]
pub enum DeterminedScore {
    Win(u32),
    Lose(u32),
    Tie,
    Unresolved,
}

impl DeterminedScore {
    pub open spec fn spec_of_score(s: Score) -> DeterminedScore {
        if s.lo == s.hi {
            match s.lo {
                Outcome::Win(k) => DeterminedScore::Win(k),
                Outcome::Lose(k) => DeterminedScore::Lose(k),
                Outcome::Tie => DeterminedScore::Tie,
            }
        } else {
            DeterminedScore::Unresolved
        }
    }

    /// The exact value a score carries, if it carries one.
    pub fn of_score(s: Score) -> (r: DeterminedScore)
        ensures
            r == DeterminedScore::spec_of_score(s),
    {
        if s.lo == s.hi {
            match s.lo {
                Outcome::Win(k) => DeterminedScore::Win(k),
                Outcome::Lose(k) => DeterminedScore::Lose(k),
                Outcome::Tie => DeterminedScore::Tie,
            }
        } else {
            DeterminedScore::Unresolved
        }
    }

    pub open spec fn spec_of_outcome(o: Outcome) -> DeterminedScore {
        match o {
            Outcome::Win(k) => DeterminedScore::Win(k),
            Outcome::Lose(k) => DeterminedScore::Lose(k),
            Outcome::Tie => DeterminedScore::Tie,
        }
    }

    pub fn win(k: u32) -> (r: DeterminedScore)
        requires
            k >= 1,
        ensures
            r == DeterminedScore::Win(k),
    {
        DeterminedScore::Win(k)
    }

    pub fn lose(k: u32) -> (r: DeterminedScore)
        requires
            k >= 1,
        ensures
            r == DeterminedScore::Lose(k),
    {
        DeterminedScore::Lose(k)
    }

    pub fn guaranteed_tie() -> (r: DeterminedScore)
        ensures
            r == DeterminedScore::Tie,
    {
        DeterminedScore::Tie
    }
}

/// Chain position as a machine integer; all outcome comparisons go through
/// it.  The range fits `i64` comfortably: losses in `[1, 2^32)`, the tie at
/// `2^32`, wins in `(2^32, 2^33)`.
pub fn key_of(o: Outcome) -> (r: i64)
    ensures
        r == o.key(),
{
    match o {
        Outcome::Lose(k) => k as i64,
        Outcome::Tie => 0x1_0000_0000i64,
        Outcome::Win(k) => 0x2_0000_0000i64 - k as i64,
    }
}

pub fn sat_inc_exec(k: u32) -> (r: u32)
    ensures
        r == sat_inc(k),
{
    if k == u32::MAX {
        k
    } else {
        k + 1
    }
}

pub fn negstep(o: Outcome) -> (r: Outcome)
    ensures
        r == o.spec_negstep(),
{
    match o {
        Outcome::Lose(k) => Outcome::Win(sat_inc_exec(k)),
        Outcome::Tie => Outcome::Tie,
        Outcome::Win(k) => Outcome::Lose(sat_inc_exec(k)),
    }
}

pub fn fwdstep(o: Outcome) -> (r: Outcome)
    ensures
        r == o.spec_fwdstep(),
{
    match o {
        Outcome::Lose(k) => Outcome::Win(if k <= 1 {
            1
        } else {
            k - 1
        }),
        Outcome::Tie => Outcome::Tie,
        Outcome::Win(k) => Outcome::Lose(if k <= 1 {
            1
        } else {
            k - 1
        }),
    }
}

/// Chain positions identify outcomes: distinct outcomes sit at distinct
/// keys.
pub proof fn lemma_key_injective(a: Outcome, b: Outcome)
    requires
        a.key() == b.key(),
    ensures
        a == b,
{
}

/// Stepping an outcome out by one ply flips the chain order.
pub proof fn lemma_negstep_antitone(a: Outcome, b: Outcome)
    requires
        a.wf(),
        b.wf(),
        a.key() <= b.key(),
    ensures
        b.spec_negstep().wf(),
        b.spec_negstep().key() <= a.spec_negstep().key(),
{
}

/// Stepping knowledge back to the parent keeps it well-formed.
pub proof fn lemma_backstep_wf(s: Score)
    requires
        s.wf(),
    ensures
        s.spec_backstep().wf(),
{
    lemma_negstep_antitone(s.lo, s.hi);
    lemma_negstep_antitone(s.lo, s.lo);
}

/// Stepping knowledge back to the parent keeps it well-formed and sound:
/// whatever outcome it admitted, the stepped-back score admits that
/// outcome stepped back.
pub proof fn lemma_backstep_sound(s: Score, o: Outcome)
    requires
        s.wf(),
        o.wf(),
        s.admits(o),
    ensures
        s.spec_backstep().wf(),
        s.spec_backstep().admits(o.spec_negstep()),
        s.fully_determined() ==> s.spec_backstep() == Score::spec_exact(o.spec_negstep()),
{
    lemma_negstep_antitone(s.lo, s.hi);
    lemma_negstep_antitone(s.lo, o);
    lemma_negstep_antitone(o, s.hi);
    if s.fully_determined() {
        lemma_key_injective(s.lo, o);
    }
}

/// A score with no ambiguity left that still admits `o` is exactly `o`.
pub proof fn lemma_exact_admits(s: Score, o: Outcome)
    requires
        s.fully_determined(),
        s.admits(o),
    ensures
        s == Score::spec_exact(o),
{
    lemma_key_injective(s.lo, o);
}

} // verus!
