//! A small connect game: five columns, four rows, three in a row wins.
//! A move names a column; the piece falls to the lowest empty cell of
//! that column.  Cells are numbered column-major, the bottom cell of
//! column `c` at index `4 * c`; a cell holds 0 when empty, 1 for the
//! first player's piece and 2 for the second player's.

use vstd::prelude::*;

use crate::game::{Game, GameResult, Player};
use crate::games::{
    board_key, empties, lemma_board_key_bound, lemma_board_key_injective, lemma_empties_update,
    lemma_pow4_le, pow4,
};

verus! {

broadcast use vstd::array::group_array_axioms;

/// The player holding pieces `v` owns three cells in a row, column or
/// diagonal.
pub open spec fn has_connect(s: Seq<u8>, v: u8) -> bool {
    ||| (s[0] == v && s[4] == v && s[8] == v)
    ||| (s[4] == v && s[8] == v && s[12] == v)
    ||| (s[8] == v && s[12] == v && s[16] == v)
    ||| (s[1] == v && s[5] == v && s[9] == v)
    ||| (s[5] == v && s[9] == v && s[13] == v)
    ||| (s[9] == v && s[13] == v && s[17] == v)
    ||| (s[2] == v && s[6] == v && s[10] == v)
    ||| (s[6] == v && s[10] == v && s[14] == v)
    ||| (s[10] == v && s[14] == v && s[18] == v)
    ||| (s[3] == v && s[7] == v && s[11] == v)
    ||| (s[7] == v && s[11] == v && s[15] == v)
    ||| (s[11] == v && s[15] == v && s[19] == v)
    ||| (s[0] == v && s[1] == v && s[2] == v)
    ||| (s[1] == v && s[2] == v && s[3] == v)
    ||| (s[4] == v && s[5] == v && s[6] == v)
    ||| (s[5] == v && s[6] == v && s[7] == v)
    ||| (s[8] == v && s[9] == v && s[10] == v)
    ||| (s[9] == v && s[10] == v && s[11] == v)
    ||| (s[12] == v && s[13] == v && s[14] == v)
    ||| (s[13] == v && s[14] == v && s[15] == v)
    ||| (s[16] == v && s[17] == v && s[18] == v)
    ||| (s[17] == v && s[18] == v && s[19] == v)
    ||| (s[0] == v && s[5] == v && s[10] == v)
    ||| (s[1] == v && s[6] == v && s[11] == v)
    ||| (s[4] == v && s[9] == v && s[14] == v)
    ||| (s[5] == v && s[10] == v && s[15] == v)
    ||| (s[8] == v && s[13] == v && s[18] == v)
    ||| (s[9] == v && s[14] == v && s[19] == v)
    ||| (s[2] == v && s[5] == v && s[8] == v)
    ||| (s[3] == v && s[6] == v && s[9] == v)
    ||| (s[6] == v && s[9] == v && s[12] == v)
    ||| (s[7] == v && s[10] == v && s[13] == v)
    ||| (s[10] == v && s[13] == v && s[16] == v)
    ||| (s[11] == v && s[14] == v && s[17] == v)
}

/// The columns below `n` whose top cell is still empty, in increasing
/// order.
pub open spec fn open_cols(s: Seq<u8>, n: nat) -> Seq<u8>
    decreases n,
{
    if n == 0 {
        Seq::empty()
    } else {
        open_cols(s, (n - 1) as nat) + if s[(n - 1) * 4 + 3] == 0 {
            seq![(n - 1) as u8]
        } else {
            Seq::empty()
        }
    }
}

/// Everything listed as an open column is one.
pub proof fn lemma_open_cols_members(s: Seq<u8>, n: nat)
    requires
        n * 4 <= s.len(),
        n <= 5,
    ensures
        forall|j: int| #![auto]
            0 <= j < open_cols(s, n).len() ==> open_cols(s, n)[j] < n && s[open_cols(s, n)[j] * 4
                + 3] == 0,
    decreases n,
{
    if n > 0 {
        lemma_open_cols_members(s, (n - 1) as nat);
        let pre = open_cols(s, (n - 1) as nat);
        let all = open_cols(s, n);
        assert forall|j: int| 0 <= j < all.len() implies all[j] < n && s[all[j] * 4 + 3] == 0 by {
            if j < pre.len() {
                assert(all[j] == pre[j]);
            } else {
                assert(all[j] == (n - 1) as u8);
            }
        }
    }
}

/// The lowest empty cell of column `c`.
pub open spec fn landing(s: Seq<u8>, c: int) -> int {
    if s[c * 4] == 0 {
        c * 4
    } else if s[c * 4 + 1] == 0 {
        c * 4 + 1
    } else if s[c * 4 + 2] == 0 {
        c * 4 + 2
    } else {
        c * 4 + 3
    }
}

#[derive(Clone, Copy, PartialEq, Eq, Debug, Hash)]
pub struct ConnectThree {
    pub cells: [u8; 20],
    pub turn: Player,
}

impl ConnectThree {
    /// The empty board, first player to move.
    pub fn new() -> (r: ConnectThree)
        ensures
            r.wf(),
            r.spec_finished() is NotFinished,
            r.spec_current_player() == Player::First,
            r.measure() == 20,
            forall|j: int| 0 <= j < 20 ==> r.cells@[j] == 0,
    {
        let r = ConnectThree {
            cells: [0, 0, 0, 0, 0, 0, 0, 0, 0, 0, 0, 0, 0, 0, 0, 0, 0, 0, 0, 0],
            turn: Player::First,
        };
        proof {
            reveal_with_fuel(empties, 21);
            assert(r.measure() == 20);
        }
        r
    }
}

impl Game for ConnectThree {
    type Move = u8;

    open spec fn wf(self) -> bool {
        &&& forall|j: int| 0 <= j < 20 ==> self.cells@[j] < 3
        &&& forall|j: int|
            0 <= j < 20 && j % 4 != 0 ==> (#[trigger] self.cells@[j] != 0 ==> self.cells@[j - 1]
                != 0)
    }

    open spec fn measure(self) -> nat {
        empties(self.cells@, 20)
    }

    open spec fn spec_finished(self) -> GameResult {
        if has_connect(self.cells@, 1) {
            GameResult::Win(Player::First)
        } else if has_connect(self.cells@, 2) {
            GameResult::Win(Player::Second)
        } else if self.cells@[3] != 0 && self.cells@[7] != 0 && self.cells@[11] != 0
            && self.cells@[15] != 0 && self.cells@[19] != 0 {
            GameResult::Tie
        } else {
            GameResult::NotFinished
        }
    }

    open spec fn spec_current_player(self) -> Player {
        self.turn
    }

    open spec fn spec_moves(self) -> Seq<u8> {
        open_cols(self.cells@, 5)
    }

    open spec fn spec_apply(self, m: u8) -> ConnectThree {
        ConnectThree {
            cells: vstd::array::spec_array_update(
                self.cells,
                landing(self.cells@, m as int),
                match self.turn {
                    Player::First => 1u8,
                    Player::Second => 2u8,
                },
            ),
            turn: self.turn.spec_other(),
        }
    }

    open spec fn spec_key(self) -> u64 {
        (board_key(self.cells@, 20) * 2 + match self.turn {
            Player::First => 0int,
            Player::Second => 1int,
        }) as u64
    }

    fn finished(&self) -> (r: GameResult) {
        if connect_won(&self.cells, 1) {
            return GameResult::Win(Player::First);
        }
        if connect_won(&self.cells, 2) {
            return GameResult::Win(Player::Second);
        }
        let s = &self.cells;
        let full = s[3] != 0 && s[7] != 0 && s[11] != 0 && s[15] != 0 && s[19] != 0;
        if full {
            GameResult::Tie
        } else {
            GameResult::NotFinished
        }
    }

    fn current_player(&self) -> (r: Player) {
        self.turn
    }

    fn each_move(&self) -> (r: Vec<u8>) {
        let mut r: Vec<u8> = Vec::new();
        let mut c: usize = 0;
        while c < 5
            invariant
                0 <= c <= 5,
                r@ == open_cols(self.cells@, c as nat),
            decreases 5 - c,
        {
            if self.cells[c * 4 + 3] == 0 {
                r.push(c as u8);
            }
            proof {
                assert(r@ =~= open_cols(self.cells@, (c + 1) as nat));
            }
            c = c + 1;
        }
        r
    }

    fn with_move(&self, m: u8) -> (r: ConnectThree) {
        proof {
            lemma_open_cols_members(self.cells@, 5);
            let ms = self.spec_moves();
            let j = choose|j: int| 0 <= j < ms.len() && ms[j] == m;
        }
        let c = m as usize;
        let row_base = c * 4;
        let target = if self.cells[row_base] == 0 {
            row_base
        } else if self.cells[row_base + 1] == 0 {
            row_base + 1
        } else if self.cells[row_base + 2] == 0 {
            row_base + 2
        } else {
            row_base + 3
        };
        let mut cells = self.cells;
        cells[target] = match self.turn {
            Player::First => 1u8,
            Player::Second => 2u8,
        };
        let r = ConnectThree { cells, turn: self.turn.other() };
        proof {
            assert(r.cells@ =~= self.spec_apply(m).cells@);
            assert(r.cells == self.spec_apply(m).cells);
        }
        r
    }

    fn key(&self) -> (r: u64) {
        let mut k: u64 = 0;
        let mut i: usize = 0;
        while i < 20
            invariant
                0 <= i <= 20,
                0 <= k < pow4(i as nat),
                k == board_key(self.cells@, i as nat),
                self.wf(),
            decreases 20 - i,
        {
            proof {
                reveal_with_fuel(pow4, 21);
                lemma_pow4_le((i + 1) as nat, 20);
            }
            k = k * 4 + self.cells[i] as u64;
            i = i + 1;
        }
        proof {
            reveal_with_fuel(pow4, 21);
        }
        k * 2 + match self.turn {
            Player::First => 0u64,
            Player::Second => 1u64,
        }
    }

    proof fn lemma_measure_pos(self) {
        let s = self.cells@;
        if s[3] == 0 {
            lemma_empties_nonzero_at(s, 3, 20);
        } else if s[7] == 0 {
            lemma_empties_nonzero_at(s, 7, 20);
        } else if s[11] == 0 {
            lemma_empties_nonzero_at(s, 11, 20);
        } else if s[15] == 0 {
            lemma_empties_nonzero_at(s, 15, 20);
        } else {
            lemma_empties_nonzero_at(s, 19, 20);
        }
    }

    proof fn lemma_moves_ok(self, m: u8) {
        let s = self.cells@;
        lemma_open_cols_members(s, 5);
        let ms = self.spec_moves();
        let j = choose|j: int| 0 <= j < ms.len() && ms[j] == m;
        let target = landing(s, m as int);
        let v = match self.turn {
            Player::First => 1u8,
            Player::Second => 2u8,
        };
        lemma_empties_update(s, target, v, 20);
        let t = s.update(target, v);
        assert(self.spec_apply(m).cells@ == t);
        assert forall|i: int|
            0 <= i < 20 && i % 4 != 0 && #[trigger] t[i] != 0 implies t[i - 1] != 0 by {
            if i == target {
                assert(t[i - 1] == s[i - 1]);
            } else if i - 1 == target {
            } else {
                assert(t[i] == s[i] && t[i - 1] == s[i - 1]);
            }
        }
    }

    proof fn lemma_key_injective(self, other: ConnectThree) {
        let a = board_key(self.cells@, 20);
        let b = board_key(other.cells@, 20);
        lemma_board_key_bound(self.cells@, 20);
        lemma_board_key_bound(other.cells@, 20);
        let ba = match self.turn {
            Player::First => 0int,
            Player::Second => 1int,
        };
        let bb = match other.turn {
            Player::First => 0int,
            Player::Second => 1int,
        };
        reveal_with_fuel(pow4, 21);
        assert(a * 2 + ba == b * 2 + bb);
        assert((a - b) * 2 == bb - ba) by (nonlinear_arith)
            requires
                a * 2 + ba == b * 2 + bb,
        ;
        assert(a == b && ba == bb) by (nonlinear_arith)
            requires
                (a - b) * 2 == bb - ba,
                0 <= ba < 2,
                0 <= bb < 2,
        ;
        lemma_board_key_injective(self.cells@, other.cells@, 20);
        assert(self.cells@ =~= other.cells@);
        assert(self.cells == other.cells);
        assert(self.turn == other.turn);
    }
}

/// Whether the player holding pieces `v` has three in a row anywhere.
fn connect_won(cells: &[u8; 20], v: u8) -> (r: bool)
    ensures
        r == has_connect(cells@, v),
{
    let s = cells;
    (s[0] == v && s[4] == v && s[8] == v) || (s[4] == v && s[8] == v && s[12] == v) || (s[8] == v && s[12] == v && s[16] == v) || (s[1] == v && s[5] == v && s[9] == v) || (s[5] == v && s[9] == v && s[13] == v) || (s[9] == v && s[13] == v && s[17] == v) || (s[2] == v && s[6] == v && s[10] == v) || (s[6] == v && s[10] == v && s[14] == v) || (s[10] == v && s[14] == v && s[18] == v) || (s[3] == v && s[7] == v && s[11] == v) || (s[7] == v && s[11] == v && s[15] == v) || (s[11] == v && s[15] == v && s[19] == v) || (s[0] == v && s[1] == v && s[2] == v) || (s[1] == v && s[2] == v && s[3] == v) || (s[4] == v && s[5] == v && s[6] == v) || (s[5] == v && s[6] == v && s[7] == v) || (s[8] == v && s[9] == v && s[10] == v) || (s[9] == v && s[10] == v && s[11] == v) || (s[12] == v && s[13] == v && s[14] == v) || (s[13] == v && s[14] == v && s[15] == v) || (s[16] == v && s[17] == v && s[18] == v) || (s[17] == v && s[18] == v && s[19] == v) || (s[0] == v && s[5] == v && s[10] == v) || (s[1] == v && s[6] == v && s[11] == v) || (s[4] == v && s[9] == v && s[14] == v) || (s[5] == v && s[10] == v && s[15] == v) || (s[8] == v && s[13] == v && s[18] == v) || (s[9] == v && s[14] == v && s[19] == v) || (s[2] == v && s[5] == v && s[8] == v) || (s[3] == v && s[6] == v && s[9] == v) || (s[6] == v && s[9] == v && s[12] == v) || (s[7] == v && s[10] == v && s[13] == v) || (s[10] == v && s[13] == v && s[16] == v) || (s[11] == v && s[14] == v && s[17] == v)
}

/// A board with an empty cell in range has at least one empty cell
/// counted.
proof fn lemma_empties_nonzero_at(s: Seq<u8>, i: int, n: nat)
    requires
        0 <= i < n <= s.len(),
        s[i] == 0,
    ensures
        empties(s, n) >= 1,
    decreases n,
{
    if i < n - 1 {
        lemma_empties_nonzero_at(s, i, (n - 1) as nat);
    }
}

} // verus!
