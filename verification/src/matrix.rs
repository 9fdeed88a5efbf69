//! The layout of a 4×4 matrix: sixteen entries, column by column. Entry
//! `4 * c + r` is the one in column `c` and row `r`. What is here moves
//! entries and does no arithmetic, so it holds for any kind of entry.

use vstd::prelude::*;

verus! {

/// The position of the entry in column `column` and row `row`.
pub open spec fn at(column: int, row: int) -> int {
    4 * column + row
}

/// The identity matrix over the entries `zero` and `one`: `one` on the
/// diagonal, `zero` elsewhere.
pub open spec fn identity_of<T>(zero: T, one: T) -> Seq<T> {
    Seq::new(
        16,
        |i: int|
            if i % 5 == 0 {
                one
            } else {
                zero
            },
    )
}

/// The transposed matrix: rows become columns.
pub open spec fn transposed<T>(m: Seq<T>) -> Seq<T> {
    Seq::new(16, |i: int| m[at(i % 4, i / 4)])
}

/// Overwrites `m` with the identity matrix over `zero` and `one`.
pub fn identity<T: Copy>(m: &mut [T; 16], zero: T, one: T)
    ensures
        final(m)@ == identity_of(zero, one),
{
    let mut i: usize = 0;
    while i < 16
        invariant
            i <= 16,
            forall|j: int| 0 <= j < i ==> m@[j] == identity_of(zero, one)[j],
        decreases 16 - i,
    {
        if i % 5 == 0 {
            m[i] = one;
        } else {
            m[i] = zero;
        }
        i += 1;
    }
    assert(m@ =~= identity_of(zero, one));
}

/// Exchanges the entries at positions `a` and `b`.
fn exchange<T: Copy>(m: &mut [T; 16], a: usize, b: usize)
    requires
        a < 16,
        b < 16,
    ensures
        final(m)@ == old(m)@.update(a as int, old(m)@[b as int]).update(b as int, old(m)@[a as int]),
{
    let x = m[a];
    let y = m[b];
    m[a] = y;
    m[b] = x;
}

/// Transposes `m` in place.
pub fn transpose<T: Copy>(m: &mut [T; 16])
    ensures
        final(m)@ == transposed(old(m)@),
        forall|column: int, row: int|
            0 <= column < 4 && 0 <= row < 4 ==> final(m)@[at(column, row)] == old(m)@[at(
                row,
                column,
            )],
{
    exchange(m, 1, 4);
    exchange(m, 2, 8);
    exchange(m, 3, 12);
    exchange(m, 6, 9);
    exchange(m, 7, 13);
    exchange(m, 11, 14);
    assert(m@ =~= transposed(old(m)@));
}

/// Transposing twice gives the matrix back.
pub proof fn lemma_transpose_twice<T>(m: Seq<T>)
    requires
        m.len() == 16,
    ensures
        transposed(transposed(m)) == m,
{
    assert(transposed(transposed(m)) =~= m);
}

/// The identity matrix is its own transpose.
pub proof fn lemma_identity_symmetric<T>(zero: T, one: T)
    ensures
        transposed(identity_of(zero, one)) == identity_of(zero, one),
{
    assert(transposed(identity_of(zero, one)) =~= identity_of(zero, one));
}

} // verus!
