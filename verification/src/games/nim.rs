//! Nim with a single pile: each turn the mover takes one stick or two;
//! whoever takes the last stick wins.  The mover loses under optimal
//! play exactly when the pile is a multiple of three, and a winning
//! mover always reduces the pile to a multiple of three.

use vstd::prelude::*;

use crate::game::{Game, GameResult, Player};

verus! {

#[derive(Clone, Copy, PartialEq, Eq, Structural, Debug, Hash)]
pub struct Nim {
    pub sticks: u32,
    pub turn: Player,
}

impl Nim {
    /// A fresh pile of `sticks` sticks, first player to move.
    pub fn new(sticks: u32) -> (r: Nim)
        ensures
            r == (Nim { sticks, turn: Player::First }),
            r.wf(),
            r.measure() == sticks,
            sticks >= 1 ==> r.spec_finished() is NotFinished,
    {
        Nim { sticks, turn: Player::First }
    }

}

impl Game for Nim {
    type Move = u32;

    open spec fn wf(self) -> bool {
        true
    }

    open spec fn measure(self) -> nat {
        self.sticks as nat
    }

    open spec fn spec_finished(self) -> GameResult {
        if self.sticks == 0 {
            GameResult::Win(self.turn.spec_other())
        } else {
            GameResult::NotFinished
        }
    }

    open spec fn spec_current_player(self) -> Player {
        self.turn
    }

    open spec fn spec_moves(self) -> Seq<u32> {
        Seq::new(if self.sticks < 2 {
            self.sticks as nat
        } else {
            2
        }, |i: int| (i + 1) as u32)
    }

    open spec fn spec_apply(self, m: u32) -> Nim {
        Nim { sticks: (self.sticks - m) as u32, turn: self.turn.spec_other() }
    }

    open spec fn spec_key(self) -> u64 {
        (self.sticks as u64 * 2 + match self.turn {
            Player::First => 0u64,
            Player::Second => 1u64,
        } as int) as u64
    }

    fn finished(&self) -> (r: GameResult) {
        if self.sticks == 0 {
            GameResult::Win(self.turn.other())
        } else {
            GameResult::NotFinished
        }
    }

    fn current_player(&self) -> (r: Player) {
        self.turn
    }

    fn each_move(&self) -> (r: Vec<u32>) {
        let take = if self.sticks < 2 {
            self.sticks
        } else {
            2
        };
        let mut r: Vec<u32> = Vec::new();
        let mut m: u32 = 1;
        while m <= take
            invariant
                take <= 2,
                1 <= m <= take + 1,
                r@ == Seq::new((m - 1) as nat, |i: int| (i + 1) as u32),
            decreases take + 1 - m,
        {
            r.push(m);
            proof {
                assert(r@ =~= Seq::new(m as nat, |i: int| (i + 1) as u32));
            }
            m = m + 1;
        }
        proof {
            assert(r@ =~= self.spec_moves());
        }
        r
    }

    fn with_move(&self, m: u32) -> (r: Nim) {
        Nim { sticks: self.sticks - m, turn: self.turn.other() }
    }

    fn key(&self) -> (r: u64) {
        self.sticks as u64 * 2 + match self.turn {
            Player::First => 0u64,
            Player::Second => 1u64,
        }
    }

    proof fn lemma_measure_pos(self) {
    }

    proof fn lemma_moves_ok(self, m: u32) {
    }

    proof fn lemma_key_injective(self, other: Nim) {
    }
}

} // verus!
