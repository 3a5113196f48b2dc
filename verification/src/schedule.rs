//! Key scheduling: from a key to the initial permutation state.
use vstd::prelude::*;
use crate::permutation::{
    identity_cells, is_permutation, lemma_identity_is_permutation, lemma_swap_keeps_permutation,
    swap_cells, State,
};

verus! {

/// The scheduler between two rounds: the cells and the running index.
pub struct Schedule {
    pub cells: Seq<u8>,
    pub j: int,
}

/// The scheduler after its first `n` rounds on `key`.
///
/// It starts from the identity with `j = 0`. Round `i` (counted from 0)
/// advances `j` by cell `i` and by the key byte at `i mod len(key)`,
/// modulo 256, and then exchanges cells `i` and `j`.
pub open spec fn ksa_rounds(key: Seq<u8>, n: nat) -> Schedule
    decreases n,
{
    if n == 0 {
        Schedule { cells: identity_cells(), j: 0 }
    } else {
        let before = ksa_rounds(key, (n - 1) as nat);
        let i = n - 1;
        let j = (before.j + before.cells[i] + key[i % (key.len() as int)]) % 256;
        Schedule { cells: swap_cells(before.cells, i, j), j }
    }
}

/// The permutation that the scheduler derives from `key`: the cells after
/// all 256 rounds.
pub open spec fn ksa_spec(key: Seq<u8>) -> Seq<u8> {
    ksa_rounds(key, 256).cells
}

/// After any number of rounds up to 256 the cells are a permutation and the
/// running index is a cell index.
pub proof fn lemma_ksa_rounds_permutation(key: Seq<u8>, n: nat)
    requires
        n <= 256,
    ensures
        is_permutation(ksa_rounds(key, n).cells),
        0 <= ksa_rounds(key, n).j < 256,
    decreases n,
{
    if n == 0 {
        lemma_identity_is_permutation();
    } else {
        lemma_ksa_rounds_permutation(key, (n - 1) as nat);
        let before = ksa_rounds(key, (n - 1) as nat);
        lemma_swap_keeps_permutation(before.cells, n - 1, ksa_rounds(key, n).j);
    }
}

/// The scheduler's output holds every value from 0 to 255 exactly once,
/// whatever the key of at least one byte.
pub proof fn lemma_ksa_is_permutation(key: Seq<u8>)
    requires
        key.len() >= 1,
    ensures
        is_permutation(ksa_spec(key)),
{
    lemma_ksa_rounds_permutation(key, 256);
}

/// Derives the permutation state from `key`.
///
/// The key is read cyclically, so it must hold at least one byte.
pub fn ksa(key: &[u8]) -> (state: State)
    requires
        key@.len() >= 1,
    ensures
        state@ == ksa_spec(key@),
        state.wf(),
{
    let mut state = State::identity();
    let n = key.len();
    let mut j: usize = 0;
    let mut i: usize = 0;
    while i < 256
        invariant
            i <= 256,
            j < 256,
            n == key@.len(),
            n >= 1,
            state@ == ksa_rounds(key@, i as nat).cells,
            j == ksa_rounds(key@, i as nat).j,
            state.wf(),
        decreases 256 - i,
    {
        j = (j + state.get(i as u8) as usize + key[i % n] as usize) % 256;
        state.swap(i as u8, j as u8);
        i += 1;
    }
    state
}

} // verus!
