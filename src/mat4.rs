//! Index layout of a 4x4 matrix stored row-major in sixteen slots.
//!
//! The element at row `r`, column `c` lives at slot `r * 4 + c`. The
//! operations here only move elements, so they are generic over the element
//! type and hold for any numeric representation.
use vstd::prelude::*;

verus! {

/// Slot of row `r`, column `c`.
pub open spec fn slot(r: int, c: int) -> int {
    r * 4 + c
}

/// The transpose of a row-major 4x4 matrix given as a sequence of sixteen slots.
pub open spec fn transposed<T>(m: Seq<T>) -> Seq<T> {
    Seq::new(16, |i: int| m[slot(i % 4, i / 4)])
}

/// Swaps the slots `i` and `j`.
fn swap_slots<T: Copy>(m: &mut [T; 16], i: usize, j: usize)
    requires
        i < 16,
        j < 16,
    ensures
        final(m)@ == old(m)@.update(i as int, old(m)@[j as int]).update(j as int, old(m)@[i as int]),
{
    let a = m[i];
    let b = m[j];
    m[i] = b;
    m[j] = a;
}

/// Swaps rows and columns in place: afterwards row `r`, column `c` holds what
/// row `c`, column `r` held.
pub fn transpose<T: Copy>(m: &mut [T; 16])
    ensures
        final(m)@ == transposed(old(m)@),
{
    swap_slots(m, 1, 4);
    swap_slots(m, 2, 8);
    swap_slots(m, 3, 12);
    swap_slots(m, 6, 9);
    swap_slots(m, 7, 13);
    swap_slots(m, 11, 14);
    assert(m@ =~= transposed(old(m)@));
}

/// Transposing twice gives back the matrix.
pub proof fn lemma_transpose_involution<T>(m: Seq<T>)
    requires
        m.len() == 16,
    ensures
        transposed(transposed(m)) == m,
{
    assert(transposed(transposed(m)) =~= m);
}

} // verus!
