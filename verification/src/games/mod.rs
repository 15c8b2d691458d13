//! Small concrete games implementing the [`crate::game::Game`] contract,
//! used as fixtures, together with shared helpers for board-shaped
//! positions: counting the empty cells (the games' measure) and numbering
//! boards injectively (their table key).

pub mod connect_three;
pub mod nim;
pub mod tic_tac_toe;

use vstd::prelude::*;

verus! {

/// How many of the first `n` cells are empty.
pub open spec fn empties(s: Seq<u8>, n: nat) -> nat
    decreases n,
{
    if n == 0 {
        0
    } else {
        empties(s, (n - 1) as nat) + if s[n - 1] == 0 {
            1nat
        } else {
            0nat
        }
    }
}

/// Filling an empty cell lowers the count of empty cells by one.
pub proof fn lemma_empties_update(s: Seq<u8>, i: int, v: u8, n: nat)
    requires
        0 <= i < n <= s.len(),
        s[i] == 0,
        v != 0,
    ensures
        empties(s.update(i, v), n) + 1 == empties(s, n),
    decreases n,
{
    let t = s.update(i, v);
    if i == n - 1 {
        lemma_empties_agree(s, t, (n - 1) as nat);
    } else {
        lemma_empties_update(s, i, v, (n - 1) as nat);
    }
}

/// The count only looks at the first `n` cells.
pub proof fn lemma_empties_agree(s: Seq<u8>, t: Seq<u8>, n: nat)
    requires
        n <= s.len(),
        n <= t.len(),
        forall|j: int| 0 <= j < n ==> s[j] == t[j],
    ensures
        empties(s, n) == empties(t, n),
    decreases n,
{
    if n > 0 {
        lemma_empties_agree(s, t, (n - 1) as nat);
    }
}

/// The first `n` cells of the board read as a base-four number, least
/// significant cell last.
pub open spec fn board_key(s: Seq<u8>, n: nat) -> int
    decreases n,
{
    if n == 0 {
        0
    } else {
        board_key(s, (n - 1) as nat) * 4 + s[n - 1]
    }
}

pub open spec fn pow4(n: nat) -> int
    decreases n,
{
    if n == 0 {
        1
    } else {
        4 * pow4((n - 1) as nat)
    }
}

pub proof fn lemma_board_key_bound(s: Seq<u8>, n: nat)
    requires
        n <= s.len(),
        forall|j: int| 0 <= j < n ==> s[j] < 4,
    ensures
        0 <= board_key(s, n) < pow4(n),
    decreases n,
{
    if n > 0 {
        lemma_board_key_bound(s, (n - 1) as nat);
    }
}

pub proof fn lemma_pow4_pos(n: nat)
    ensures
        pow4(n) >= 1,
    decreases n,
{
    if n > 0 {
        lemma_pow4_pos((n - 1) as nat);
    }
}

pub proof fn lemma_pow4_le(a: nat, b: nat)
    requires
        a <= b,
    ensures
        pow4(a) <= pow4(b),
    decreases b,
{
    if a < b {
        lemma_pow4_le(a, (b - 1) as nat);
        lemma_pow4_pos((b - 1) as nat);
    }
}

/// Boards whose cells hold base-four digits are numbered injectively.
pub proof fn lemma_board_key_injective(s1: Seq<u8>, s2: Seq<u8>, n: nat)
    requires
        n <= s1.len(),
        n <= s2.len(),
        forall|j: int| 0 <= j < n ==> s1[j] < 4,
        forall|j: int| 0 <= j < n ==> s2[j] < 4,
        board_key(s1, n) == board_key(s2, n),
    ensures
        forall|j: int| 0 <= j < n ==> s1[j] == s2[j],
    decreases n,
{
    if n > 0 {
        let a1 = board_key(s1, (n - 1) as nat);
        let a2 = board_key(s2, (n - 1) as nat);
        assert(a1 * 4 + s1[n - 1] == a2 * 4 + s2[n - 1]);
        assert((a1 - a2) * 4 == s2[n - 1] - s1[n - 1]) by (nonlinear_arith)
            requires
                a1 * 4 + s1[n - 1] == a2 * 4 + s2[n - 1],
        ;
        assert(a1 == a2 && s1[n - 1] == s2[n - 1]) by (nonlinear_arith)
            requires
                (a1 - a2) * 4 == s2[n - 1] - s1[n - 1],
                0 <= s1[n - 1] < 4,
                0 <= s2[n - 1] < 4,
        ;
        lemma_board_key_injective(s1, s2, (n - 1) as nat);
    }
}

} // verus!
