//! Game-theoretic values and optimal moves for deterministic,
//! perfect-information, two-player zero-sum games, bounded by a
//! caller-supplied search-depth budget.
//!
//! The core is the depth-bounded [`score::Score`] model — a mergeable,
//! comparable interval of outcomes — and the family of search algorithms
//! built on it: exhaustive minimax ([`solvers::simple::SimpleSolver`]),
//! alpha-beta pruning ([`solvers::alpha_beta::AlphaBeta`]),
//! transposition-table memoization ([`solvers::ttable_solver::TTSolver`]),
//! the combination of the two
//! ([`solvers::ttable_alpha_beta::TTAlphaBeta`]) and iterative deepening
//! ([`solvers::iter_deep::IterativeDeepening`]).  Game rules enter
//! through the [`game::Game`] contract; a few small games used as
//! fixtures live under [`games`].
//!
//! What is proved, beyond each function's own contract:
//! - the exhaustive solver returns exactly the mathematical search value
//!   [`game::value`], and any search whose budget covers the remaining
//!   game settles the position's one true outcome
//!   ([`laws::lemma_exhaustive_search_settles`]);
//! - the memoized exhaustive solver returns that same settled outcome at
//!   covering depths, its chosen move achieves it, its table entries
//!   always admit the settled outcome of their position and only gain
//!   precision, and a covering search leaves every entry fully
//!   determined;
//! - every solver's score admits the settled outcome of the position and
//!   is therefore compatible with the exhaustive search value at the same
//!   position and depth, covering or not
//!   ([`laws::lemma_value_sound`], [`laws::lemma_sound_compatible_with_value`]);
//!   in particular a win a pruning solver announces is a real forced win;
//! - the score algebra behaves: `determined` is monotonic downward,
//!   `merge` is idempotent, commutative and the tightest refinement of
//!   its inputs ([`laws`]).

pub mod game;
pub mod games;
pub mod laws;
pub mod score;
pub mod solvers;
