//! Keystream generation and its combination with a message.
use vstd::prelude::*;
use crate::permutation::{is_permutation, lemma_swap_keeps_permutation, swap_cells, State};

verus! {

/// The keystream engine between two steps: the cells and its two indices.
pub struct Engine {
    pub cells: Seq<u8>,
    pub i: int,
    pub j: int,
}

/// One step of the engine: `i` advances by one, `j` advances by the content
/// of cell `i`, both modulo 256, and cells `i` and `j` are exchanged.
pub open spec fn prga_step(e: Engine) -> Engine {
    let i = (e.i + 1) % 256;
    let j = (e.j + e.cells[i]) % 256;
    Engine { cells: swap_cells(e.cells, i, j), i, j }
}

/// The engine after `n` steps, started on `cells` with both indices at 0.
pub open spec fn prga_run(cells: Seq<u8>, n: nat) -> Engine
    decreases n,
{
    if n == 0 {
        Engine { cells, i: 0, j: 0 }
    } else {
        prga_step(prga_run(cells, (n - 1) as nat))
    }
}

/// The byte that the engine emits in the state `e` that a step has left:
/// the content of the cell whose index is the sum of cells `i` and `j`,
/// modulo 256.
pub open spec fn emitted(e: Engine) -> u8 {
    e.cells[(e.cells[e.i] + e.cells[e.j]) % 256]
}

/// Byte `k` (counted from 0) of the keystream that starts on `cells`.
pub open spec fn keystream_byte(cells: Seq<u8>, k: nat) -> u8 {
    emitted(prga_run(cells, k + 1))
}

/// The first `n` bytes of the keystream that starts on `cells`.
pub open spec fn keystream(cells: Seq<u8>, n: nat) -> Seq<u8> {
    Seq::new(n, |k: int| keystream_byte(cells, k as nat))
}

/// `message` combined bytewise with `pad` by exclusive or.
pub open spec fn xor_bytes(message: Seq<u8>, pad: Seq<u8>) -> Seq<u8> {
    Seq::new(message.len(), |k: int| message[k] ^ pad[k])
}

/// The engine keeps a permutation a permutation, and its indices stay cell
/// indices.
pub proof fn lemma_prga_run_permutation(cells: Seq<u8>, n: nat)
    requires
        is_permutation(cells),
    ensures
        is_permutation(prga_run(cells, n).cells),
        0 <= prga_run(cells, n).i < 256,
        0 <= prga_run(cells, n).j < 256,
    decreases n,
{
    if n > 0 {
        lemma_prga_run_permutation(cells, (n - 1) as nat);
        let before = prga_run(cells, (n - 1) as nat);
        let after = prga_step(before);
        lemma_swap_keeps_permutation(before.cells, after.i, after.j);
    }
}

/// Runs the engine over `text`, one step per byte, and returns `text`
/// combined with the keystream.
///
/// The state is left as the engine's last step left it.
pub fn prga(state: &mut State, text: &[u8]) -> (out: Vec<u8>)
    ensures
        out@ == xor_bytes(text@, keystream(old(state)@, text@.len())),
        out@.len() == text@.len(),
        final(state)@ == prga_run(old(state)@, text@.len()).cells,
        old(state).wf() ==> final(state).wf(),
{
    let len = text.len();
    let mut out: Vec<u8> = Vec::with_capacity(len);
    let mut i: usize = 0;
    let mut j: usize = 0;
    let mut k: usize = 0;
    while k < len
        invariant
            k <= len,
            len == text@.len(),
            i < 256,
            j < 256,
            state@ == prga_run(old(state)@, k as nat).cells,
            i == prga_run(old(state)@, k as nat).i,
            j == prga_run(old(state)@, k as nat).j,
            old(state).wf() ==> state.wf(),
            out@.len() == k,
            forall|m: int| 0 <= m < k ==> out@[m] == text@[m] ^ keystream_byte(old(state)@, m as nat),
        decreases len - k,
    {
        i = (i + 1) % 256;
        j = (j + state.get(i as u8) as usize) % 256;
        state.swap(i as u8, j as u8);
        let si = state.get(i as u8);
        let sj = state.get(j as u8);
        let pad = state.get(((si as usize + sj as usize) % 256) as u8);
        out.push(text[k] ^ pad);
        assert(pad == keystream_byte(old(state)@, k as nat));
        k += 1;
    }
    proof {
        assert(out@ =~= xor_bytes(text@, keystream(old(state)@, text@.len())));
    }
    out
}

} // verus!
