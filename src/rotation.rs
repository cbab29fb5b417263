//! Quarter turns of a square grid.

use crate::matrix::{cells_of, is_square, swap_columns, transpose_in_place, CellMatrix};
use vstd::prelude::*;

verus! {

/// `c` turned a quarter clockwise: the left column becomes the top row.
pub open spec fn rotated_right(c: Seq<Seq<u8>>) -> Seq<Seq<u8>> {
    let n = c.len() as int;
    Seq::new(c.len(), |r: int| Seq::new(c.len(), |col: int| c[n - 1 - col][r]))
}

/// `c` turned a quarter counter-clockwise: the top row becomes the left column.
pub open spec fn rotated_left(c: Seq<Seq<u8>>) -> Seq<Seq<u8>> {
    let n = c.len() as int;
    Seq::new(c.len(), |r: int| Seq::new(c.len(), |col: int| c[col][n - 1 - r]))
}

/// `c` turned `k` quarters clockwise (counter-clockwise when `k` is negative).
pub open spec fn turned(c: Seq<Seq<u8>>, k: int) -> Seq<Seq<u8>>
    decreases (if k >= 0 { k } else { -k }),
{
    if k > 0 {
        rotated_right(turned(c, k - 1))
    } else if k < 0 {
        rotated_left(turned(c, k + 1))
    } else {
        c
    }
}

pub proof fn lemma_rotations_square(c: Seq<Seq<u8>>)
    requires
        is_square(c, c.len()),
    ensures
        is_square(rotated_right(c), c.len()),
        is_square(rotated_left(c), c.len()),
{
}

pub proof fn lemma_left_undoes_right(c: Seq<Seq<u8>>)
    requires
        is_square(c, c.len()),
    ensures
        rotated_left(rotated_right(c)) == c,
        rotated_right(rotated_left(c)) == c,
{
    assert(rotated_left(rotated_right(c)) =~~= c);
    assert(rotated_right(rotated_left(c)) =~~= c);
}

pub proof fn lemma_turned_square(c: Seq<Seq<u8>>, k: int)
    requires
        is_square(c, c.len()),
    ensures
        is_square(turned(c, k), c.len()),
    decreases (if k >= 0 { k } else { -k }),
{
    if k > 0 {
        lemma_turned_square(c, k - 1);
        lemma_rotations_square(turned(c, k - 1));
    } else if k < 0 {
        lemma_turned_square(c, k + 1);
        lemma_rotations_square(turned(c, k + 1));
    }
}

/// Turning a grid that was already turned right once is one more quarter
/// turn.
pub proof fn lemma_turned_after_right(c: Seq<Seq<u8>>, k: int)
    requires
        is_square(c, c.len()),
    ensures
        turned(rotated_right(c), k) == turned(c, k + 1),
    decreases (if k >= 0 { k } else { -k }),
{
    lemma_rotations_square(c);
    assert(turned(c, 0) == c);
    assert(turned(c, 1) == rotated_right(turned(c, 0)));
    assert(turned(c, -1) == rotated_left(turned(c, 0)));
    if k > 0 {
        lemma_turned_after_right(c, k - 1);
    } else if k < 0 {
        lemma_turned_after_right(c, k + 1);
        if k + 1 == 0 {
            lemma_left_undoes_right(c);
        } else {
            assert(turned(c, k + 1) == rotated_left(turned(c, k + 2)));
        }
    }
}

/// Turning a grid that was already turned left once is one quarter turn less.
pub proof fn lemma_turned_after_left(c: Seq<Seq<u8>>, k: int)
    requires
        is_square(c, c.len()),
    ensures
        turned(rotated_left(c), k) == turned(c, k - 1),
    decreases (if k >= 0 { k } else { -k }),
{
    lemma_rotations_square(c);
    assert(turned(c, 0) == c);
    assert(turned(c, 1) == rotated_right(turned(c, 0)));
    assert(turned(c, -1) == rotated_left(turned(c, 0)));
    if k > 0 {
        lemma_turned_after_left(c, k - 1);
        if k - 1 == 0 {
            lemma_left_undoes_right(c);
        } else {
            assert(turned(c, k - 1) == rotated_right(turned(c, k - 2)));
        }
    } else if k < 0 {
        lemma_turned_after_left(c, k + 1);
    }
}

/// Turning by `a` quarters and then by `b` is turning by `a + b`.
pub proof fn lemma_turns_add(c: Seq<Seq<u8>>, a: int, b: int)
    requires
        is_square(c, c.len()),
    ensures
        turned(turned(c, a), b) == turned(c, a + b),
    decreases (if a >= 0 { a } else { -a }),
{
    if a > 0 {
        lemma_turned_square(c, a - 1);
        lemma_turned_after_right(turned(c, a - 1), b);
        lemma_turns_add(c, a - 1, b + 1);
    } else if a < 0 {
        lemma_turned_square(c, a + 1);
        lemma_turned_after_left(turned(c, a + 1), b);
        lemma_turns_add(c, a + 1, b - 1);
    }
}

/// Whatever quarter turns the grid takes, `k` net of them, undoing the
/// counted turns gives the same display grid as before: with the grid at
/// `turned(c, k)` and the count at `rotation + k`, the display is still
/// `turned(c, -rotation)`.
pub proof fn lemma_display_unchanged_by_turns(c: Seq<Seq<u8>>, rotation: int, k: int)
    requires
        is_square(c, c.len()),
    ensures
        turned(turned(c, k), -(rotation + k)) == turned(c, -rotation),
{
    lemma_turns_add(c, k, -(rotation + k));
}

/// Four quarter turns in the same sense give back the grid.
pub proof fn lemma_four_turns(c: Seq<Seq<u8>>)
    requires
        is_square(c, c.len()),
    ensures
        rotated_right(rotated_right(rotated_right(rotated_right(c)))) == c,
        rotated_left(rotated_left(rotated_left(rotated_left(c)))) == c,
{
    assert(rotated_right(rotated_right(rotated_right(rotated_right(c)))) =~~= c);
    assert(rotated_left(rotated_left(rotated_left(rotated_left(c)))) =~~= c);
}

/// Mirrors columns `0..i` with their partners `n-1-i..n`; the middle is left
/// as it was.
spec fn half_mirrored(c: Seq<Seq<u8>>, i: int) -> Seq<Seq<u8>> {
    let n = c.len() as int;
    Seq::new(
        c.len(),
        |r: int|
            Seq::new(
                c.len(),
                |col: int|
                    if col < i || col >= n - i {
                        c[r][n - 1 - col]
                    } else {
                        c[r][col]
                    },
            ),
    )
}

/// Reverses the order of the columns of a square matrix.
fn mirror_columns(m: &mut CellMatrix, n: usize)
    requires
        n > 0,
        is_square(cells_of(*old(m)), n as nat),
    ensures
        cells_of(*final(m)) == half_mirrored(cells_of(*old(m)), (n / 2) as int),
{
    let ghost c = cells_of(*m);
    let half = n / 2;
    let mut i: usize = 0;
    assert(half_mirrored(c, 0) =~~= c);
    while i < half
        invariant
            n > 0,
            half == n / 2,
            i <= half,
            is_square(c, n as nat),
            cells_of(*m) == half_mirrored(c, i as int),
        decreases half - i,
    {
        swap_columns(m, i, n - 1 - i);
        i = i + 1;
        assert(cells_of(*m) =~~= half_mirrored(c, i as int));
    }
}

/// `m` turned a quarter clockwise: transposed, then its columns mirrored.
pub fn rotate_board_right(m: CellMatrix, n: usize) -> (r: CellMatrix)
    requires
        n > 0,
        is_square(cells_of(m), n as nat),
    ensures
        cells_of(r) == rotated_right(cells_of(m)),
{
    let ghost c = cells_of(m);
    let mut m = m;
    transpose_in_place(&mut m);
    mirror_columns(&mut m, n);
    assert(cells_of(m) =~~= rotated_right(c));
    m
}

/// `m` turned a quarter counter-clockwise: its columns mirrored, then
/// transposed.
pub fn rotate_board_left(m: CellMatrix, n: usize) -> (r: CellMatrix)
    requires
        n > 0,
        is_square(cells_of(m), n as nat),
    ensures
        cells_of(r) == rotated_left(cells_of(m)),
{
    let ghost c = cells_of(m);
    let mut m = m;
    mirror_columns(&mut m, n);
    assert(is_square(cells_of(m), n as nat));
    transpose_in_place(&mut m);
    assert(cells_of(m) =~~= rotated_left(c));
    m
}

} // verus!
