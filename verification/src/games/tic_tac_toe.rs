//! Tic-tac-toe on the classic three-by-three board.  Cells are numbered
//! row-major; a cell holds 0 when empty, 1 for the first player's mark
//! and 2 for the second player's.  From the empty board, optimal play by
//! both sides ends in a tie.

use vstd::prelude::*;

use crate::game::{Game, GameResult, Player};
use crate::games::{
    board_key, empties, lemma_board_key_bound, lemma_board_key_injective, lemma_empties_update,
    lemma_pow4_le, pow4,
};

verus! {

broadcast use vstd::array::group_array_axioms;

/// The cells, in row-major order, that a player owns when they hold a
/// full row, column or diagonal.
pub open spec fn has_line(s: Seq<u8>, v: u8) -> bool {
    ||| (s[0] == v && s[1] == v && s[2] == v)
    ||| (s[3] == v && s[4] == v && s[5] == v)
    ||| (s[6] == v && s[7] == v && s[8] == v)
    ||| (s[0] == v && s[3] == v && s[6] == v)
    ||| (s[1] == v && s[4] == v && s[7] == v)
    ||| (s[2] == v && s[5] == v && s[8] == v)
    ||| (s[0] == v && s[4] == v && s[8] == v)
    ||| (s[2] == v && s[4] == v && s[6] == v)
}

/// The indices below `n` of the empty cells, in increasing order.
pub open spec fn empty_cells(s: Seq<u8>, n: nat) -> Seq<u8>
    decreases n,
{
    if n == 0 {
        Seq::empty()
    } else {
        empty_cells(s, (n - 1) as nat) + if s[n - 1] == 0 {
            seq![(n - 1) as u8]
        } else {
            Seq::empty()
        }
    }
}

/// Everything listed as an empty cell is one.
pub proof fn lemma_empty_cells_members(s: Seq<u8>, n: nat)
    requires
        n <= s.len(),
        n <= 255,
    ensures
        forall|j: int| #![auto]
            0 <= j < empty_cells(s, n).len() ==> empty_cells(s, n)[j] < n && s[empty_cells(
                s,
                n,
            )[j] as int] == 0,
    decreases n,
{
    if n > 0 {
        lemma_empty_cells_members(s, (n - 1) as nat);
        let pre = empty_cells(s, (n - 1) as nat);
        let all = empty_cells(s, n);
        assert forall|j: int| 0 <= j < all.len() implies all[j] < n && s[all[j] as int] == 0 by {
            if j < pre.len() {
                assert(all[j] == pre[j]);
            } else {
                assert(all[j] == (n - 1) as u8);
            }
        }
    }
}

#[derive(Clone, Copy, PartialEq, Eq, Debug, Hash)]
pub struct TicTacToe {
    pub cells: [u8; 9],
    pub turn: Player,
}

impl TicTacToe {
    /// The empty board, first player to move.
    pub fn new() -> (r: TicTacToe)
        ensures
            r.wf(),
            r.spec_finished() is NotFinished,
            r.spec_current_player() == Player::First,
            r.measure() == 9,
            forall|j: int| 0 <= j < 9 ==> r.cells@[j] == 0,
    {
        let r = TicTacToe { cells: [0, 0, 0, 0, 0, 0, 0, 0, 0], turn: Player::First };
        proof {
            reveal_with_fuel(empties, 10);
            assert(r.measure() == 9);
        }
        r
    }
}

impl Game for TicTacToe {
    type Move = u8;

    open spec fn wf(self) -> bool {
        forall|j: int| 0 <= j < 9 ==> self.cells@[j] < 3
    }

    open spec fn measure(self) -> nat {
        empties(self.cells@, 9)
    }

    open spec fn spec_finished(self) -> GameResult {
        if has_line(self.cells@, 1) {
            GameResult::Win(Player::First)
        } else if has_line(self.cells@, 2) {
            GameResult::Win(Player::Second)
        } else if forall|j: int| 0 <= j < 9 ==> self.cells@[j] != 0 {
            GameResult::Tie
        } else {
            GameResult::NotFinished
        }
    }

    open spec fn spec_current_player(self) -> Player {
        self.turn
    }

    open spec fn spec_moves(self) -> Seq<u8> {
        empty_cells(self.cells@, 9)
    }

    open spec fn spec_apply(self, m: u8) -> TicTacToe {
        TicTacToe {
            cells: vstd::array::spec_array_update(
                self.cells,
                m as int,
                match self.turn {
                    Player::First => 1u8,
                    Player::Second => 2u8,
                },
            ),
            turn: self.turn.spec_other(),
        }
    }

    open spec fn spec_key(self) -> u64 {
        (board_key(self.cells@, 9) * 2 + match self.turn {
            Player::First => 0int,
            Player::Second => 1int,
        }) as u64
    }

    fn finished(&self) -> (r: GameResult) {
        let s = &self.cells;
        let first = (s[0] == 1 && s[1] == 1 && s[2] == 1) || (s[3] == 1 && s[4] == 1 && s[5] == 1)
            || (s[6] == 1 && s[7] == 1 && s[8] == 1) || (s[0] == 1 && s[3] == 1 && s[6] == 1) || (
        s[1] == 1 && s[4] == 1 && s[7] == 1) || (s[2] == 1 && s[5] == 1 && s[8] == 1) || (s[0] == 1
            && s[4] == 1 && s[8] == 1) || (s[2] == 1 && s[4] == 1 && s[6] == 1);
        if first {
            return GameResult::Win(Player::First);
        }
        let second = (s[0] == 2 && s[1] == 2 && s[2] == 2) || (s[3] == 2 && s[4] == 2 && s[5] == 2)
            || (s[6] == 2 && s[7] == 2 && s[8] == 2) || (s[0] == 2 && s[3] == 2 && s[6] == 2) || (
        s[1] == 2 && s[4] == 2 && s[7] == 2) || (s[2] == 2 && s[5] == 2 && s[8] == 2) || (s[0] == 2
            && s[4] == 2 && s[8] == 2) || (s[2] == 2 && s[4] == 2 && s[6] == 2);
        if second {
            return GameResult::Win(Player::Second);
        }
        let full = s[0] != 0 && s[1] != 0 && s[2] != 0 && s[3] != 0 && s[4] != 0 && s[5] != 0
            && s[6] != 0 && s[7] != 0 && s[8] != 0;
        if full {
            GameResult::Tie
        } else {
            GameResult::NotFinished
        }
    }

    fn current_player(&self) -> (r: Player) {
        self.turn
    }

    fn each_move(&self) -> (r: Vec<u8>) {
        let mut r: Vec<u8> = Vec::new();
        let mut i: usize = 0;
        while i < 9
            invariant
                0 <= i <= 9,
                r@ == empty_cells(self.cells@, i as nat),
            decreases 9 - i,
        {
            if self.cells[i] == 0 {
                r.push(i as u8);
            }
            proof {
                assert(r@ =~= empty_cells(self.cells@, (i + 1) as nat));
            }
            i = i + 1;
        }
        r
    }

    fn with_move(&self, m: u8) -> (r: TicTacToe) {
        proof {
            lemma_empty_cells_members(self.cells@, 9);
            let ms = self.spec_moves();
            let j = choose|j: int| 0 <= j < ms.len() && ms[j] == m;
        }
        let mut cells = self.cells;
        cells[m as usize] = match self.turn {
            Player::First => 1u8,
            Player::Second => 2u8,
        };
        TicTacToe { cells, turn: self.turn.other() }
    }

    fn key(&self) -> (r: u64) {
        let mut k: u64 = 0;
        let mut i: usize = 0;
        proof {
            reveal_with_fuel(pow4, 11);
        }
        while i < 9
            invariant
                0 <= i <= 9,
                0 <= k < pow4(i as nat),
                k == board_key(self.cells@, i as nat),
                self.wf(),
            decreases 9 - i,
        {
            proof {
                reveal_with_fuel(pow4, 11);
                lemma_pow4_le((i + 1) as nat, 9);
            }
            k = k * 4 + self.cells[i] as u64;
            i = i + 1;
        }
        k * 2 + match self.turn {
            Player::First => 0u64,
            Player::Second => 1u64,
        }
    }

    proof fn lemma_measure_pos(self) {
        let s = self.cells@;
        let c = choose|j: int| 0 <= j < 9 && s[j] == 0;
        lemma_empties_nonzero(s, c, 9);
    }

    proof fn lemma_moves_ok(self, m: u8) {
        let s = self.cells@;
        lemma_empty_cells_members(s, 9);
        let ms = self.spec_moves();
        let j = choose|j: int| 0 <= j < ms.len() && ms[j] == m;
        lemma_empties_update(
            s,
            m as int,
            match self.turn {
                Player::First => 1u8,
                Player::Second => 2u8,
            },
            9,
        );
        assert(self.spec_apply(m).cells@ == s.update(
            m as int,
            match self.turn {
                Player::First => 1u8,
                Player::Second => 2u8,
            },
        ));
    }

    proof fn lemma_key_injective(self, other: TicTacToe) {
        let a = board_key(self.cells@, 9);
        let b = board_key(other.cells@, 9);
        lemma_board_key_bound(self.cells@, 9);
        lemma_board_key_bound(other.cells@, 9);
        let ba = match self.turn {
            Player::First => 0int,
            Player::Second => 1int,
        };
        let bb = match other.turn {
            Player::First => 0int,
            Player::Second => 1int,
        };
        reveal_with_fuel(pow4, 11);
        assert(a * 2 + ba == b * 2 + bb);
        assert((a - b) * 2 == bb - ba) by (nonlinear_arith)
            requires
                a * 2 + ba == b * 2 + bb,
        ;
        assert(a == b && ba == bb) by (nonlinear_arith)
            requires
                (a - b) * 2 == bb - ba,
                0 <= ba < 2,
                0 <= bb < 2,
        ;
        lemma_board_key_injective(self.cells@, other.cells@, 9);
        assert(self.cells@ =~= other.cells@);
        assert(self.cells == other.cells);
        assert(self.turn == other.turn);
    }
}

/// A board with an empty cell in range has at least one empty cell
/// counted.
proof fn lemma_empties_nonzero(s: Seq<u8>, i: int, n: nat)
    requires
        0 <= i < n <= s.len(),
        s[i] == 0,
    ensures
        empties(s, n) >= 1,
    decreases n,
{
    if i < n - 1 {
        lemma_empties_nonzero(s, i, (n - 1) as nat);
    }
}

} // verus!
