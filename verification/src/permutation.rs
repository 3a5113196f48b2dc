//! The 256-cell permutation state shared by both phases of the cipher.
use vstd::prelude::*;

verus! {

/// `v` is the content of at least one cell of `s`.
pub open spec fn occurs(s: Seq<u8>, v: u8) -> bool {
    exists|i: int| 0 <= i < s.len() && s[i] == v
}

/// `s` holds every byte value exactly once: it has 256 cells, every value
/// occurs in it, and no two cells hold the same value.
pub open spec fn is_permutation(s: Seq<u8>) -> bool {
    &&& s.len() == 256
    &&& forall|v: u8| #[trigger] occurs(s, v)
    &&& forall|i: int, j: int| 0 <= i < 256 && 0 <= j < 256 && i != j ==> s[i] != s[j]
}

/// The identity permutation: cell `i` holds `i`.
pub open spec fn identity_cells() -> Seq<u8> {
    Seq::new(256, |i: int| i as u8)
}

/// `s` with the contents of cells `i` and `j` exchanged.
pub open spec fn swap_cells(s: Seq<u8>, i: int, j: int) -> Seq<u8> {
    s.update(i, s[j]).update(j, s[i])
}

/// The identity is a permutation.
pub proof fn lemma_identity_is_permutation()
    ensures
        is_permutation(identity_cells()),
{
    let s = identity_cells();
    assert forall|v: u8| #[trigger] occurs(s, v) by {
        assert(s[v as int] == v);
    }
}

/// Exchanging two cells of a permutation gives a permutation.
pub proof fn lemma_swap_keeps_permutation(s: Seq<u8>, i: int, j: int)
    requires
        is_permutation(s),
        0 <= i < 256,
        0 <= j < 256,
    ensures
        is_permutation(swap_cells(s, i, j)),
{
    let t = swap_cells(s, i, j);
    assert forall|v: u8| #[trigger] occurs(t, v) by {
        assert(occurs(s, v));
        let w = choose|w: int| 0 <= w < s.len() && s[w] == v;
        let moved = if w == i {
            j
        } else if w == j {
            i
        } else {
            w
        };
        assert(t[moved] == v);
    }
}

/// The permutation state: a fixed array of 256 bytes.
pub struct State {
    cells: [u8; 256],
}

impl State {
    /// The cells as a sequence of 256 bytes.
    pub closed spec fn view(&self) -> Seq<u8> {
        self.cells@
    }

    /// The state holds every byte value exactly once.
    pub open spec fn wf(&self) -> bool {
        is_permutation(self@)
    }

    /// The identity permutation.
    pub fn identity() -> (state: State)
        ensures
            state@ == identity_cells(),
            state.wf(),
    {
        let mut cells = [0u8; 256];
        let mut i: usize = 0;
        while i < 256
            invariant
                i <= 256,
                forall|k: int| 0 <= k < i ==> cells@[k] == k as u8,
            decreases 256 - i,
        {
            cells[i] = i as u8;
            i += 1;
        }
        proof {
            assert(cells@ =~= identity_cells());
            lemma_identity_is_permutation();
        }
        State { cells }
    }

    /// The content of cell `i`.
    pub fn get(&self, i: u8) -> (v: u8)
        ensures
            v == self@[i as int],
    {
        self.cells[i as usize]
    }

    /// Exchanges the contents of cells `i` and `j`.
    pub fn swap(&mut self, i: u8, j: u8)
        ensures
            final(self)@ == swap_cells(old(self)@, i as int, j as int),
            old(self).wf() ==> final(self).wf(),
    {
        let a = self.cells[i as usize];
        let b = self.cells[j as usize];
        self.cells[i as usize] = b;
        self.cells[j as usize] = a;
        proof {
            if old(self).wf() {
                lemma_swap_keeps_permutation(old(self)@, i as int, j as int);
            }
        }
    }

    /// A copy of the 256 cells.
    pub fn to_array(&self) -> (cells: [u8; 256])
        ensures
            cells@ == self@,
    {
        self.cells
    }
}

} // verus!
