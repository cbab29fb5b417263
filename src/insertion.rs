//! Perimeter addressing and the lane-landing rule.
//!
//! The slots around an `n` by `n` board are numbered clockwise from the top
//! left corner: `[0, n)` along the top edge, `[n, 2n)` down the right edge,
//! `[2n, 3n)` along the bottom edge and `[3n, 4n)` up the left edge.

use crate::error::GameError;
use vstd::prelude::*;

verus! {

/// The edge a tile enters from.
#[derive(Debug, Clone, Copy, PartialEq, Eq, Structural)]
pub enum InsertionDirection {
    FromTop,
    FromRight,
    FromBottom,
    FromLeft,
}

/// The edge owning slot `s` on a board of side `n`, if `s` is on the perimeter.
pub open spec fn edge_of(n: int, s: int) -> Option<InsertionDirection> {
    if 0 <= s < n {
        Some(InsertionDirection::FromTop)
    } else if n <= s < 2 * n {
        Some(InsertionDirection::FromRight)
    } else if 2 * n <= s < 3 * n {
        Some(InsertionDirection::FromBottom)
    } else if 3 * n <= s < 4 * n {
        Some(InsertionDirection::FromLeft)
    } else {
        None
    }
}

/// The first slot of an edge.
pub open spec fn edge_base(d: InsertionDirection, n: int) -> int {
    match d {
        InsertionDirection::FromTop => 0,
        InsertionDirection::FromRight => n,
        InsertionDirection::FromBottom => 2 * n,
        InsertionDirection::FromLeft => 3 * n,
    }
}

/// The column (top and bottom edges) or row (left and right edges) that slot
/// `s` feeds. The bottom and left edges count backwards, so that slots run
/// clockwise around the board.
pub open spec fn side_index(d: InsertionDirection, n: int, s: int) -> int {
    let lane = s - edge_base(d, n);
    match d {
        InsertionDirection::FromBottom | InsertionDirection::FromLeft => n - 1 - lane,
        _ => lane,
    }
}

/// The first index `j >= i` of `l` whose cell is occupied (when `occupied`) or
/// empty (when not); `l.len()` if there is none.
pub open spec fn first_from(l: Seq<u8>, i: int, occupied: bool) -> int
    decreases l.len() - i,
{
    if i >= l.len() {
        l.len() as int
    } else if (l[i] != 0) == occupied {
        i
    } else {
        first_from(l, i + 1, occupied)
    }
}

/// Where a tile lands in a lane listed from the entry edge inward, or `None`
/// when the lane has no room.
///
/// An empty lane takes the tile at its far end. Otherwise, from the first
/// occupied cell `k` the tile goes to the first empty cell beyond it; if the
/// lane is solid from `k` to the far end, it lands just before `k`.
pub open spec fn landing(l: Seq<u8>) -> Option<int> {
    let k = first_from(l, 0, true);
    if k == l.len() {
        Some(l.len() - 1)
    } else if first_from(l, k, false) < l.len() {
        Some(first_from(l, k, false))
    } else if k > 0 {
        Some(k - 1)
    } else {
        None
    }
}

/// Whether a line in board order (top to bottom, left to right) is entered
/// from its far end.
pub open spec fn enters_reversed(d: InsertionDirection) -> bool {
    d == InsertionDirection::FromBottom || d == InsertionDirection::FromRight
}

/// Where a tile entering from `d` lands in `line`, given in board order; the
/// result is an index of `line`.
pub open spec fn landing_in_line(d: InsertionDirection, line: Seq<u8>) -> Option<int> {
    if enters_reversed(d) {
        match landing(line.reverse()) {
            Some(j) => Some(line.len() - 1 - j),
            None => None,
        }
    } else {
        landing(line)
    }
}

proof fn lemma_first_from_bounds(l: Seq<u8>, i: int, occupied: bool)
    requires
        0 <= i,
    ensures
        i <= first_from(l, i, occupied) <= l.len() || (i > l.len() && first_from(l, i, occupied) == l.len()),
        first_from(l, i, occupied) < l.len() ==> (l[first_from(l, i, occupied)] != 0) == occupied,
        forall|j: int| i <= j < first_from(l, i, occupied) ==> (#[trigger] l[j] != 0) != occupied,
    decreases l.len() - i,
{
    if i < l.len() && (l[i] != 0) != occupied {
        lemma_first_from_bounds(l, i + 1, occupied);
    }
}

/// For a board of side `n >= 2`, every slot of `[0, 4n)` lies on exactly one
/// edge, and the edges split the perimeter into four runs of `n` slots, in
/// the order top, right, bottom, left.
pub proof fn lemma_edges_partition(n: int, s: int)
    requires
        n >= 2,
        0 <= s < 4 * n,
    ensures
        edge_of(n, s) is Some,
        edge_base(edge_of(n, s)->Some_0, n) <= s < edge_base(edge_of(n, s)->Some_0, n) + n,
        forall|d: InsertionDirection| edge_base(d, n) <= s < edge_base(d, n) + n ==> edge_of(n, s) == Some(d),
        edge_of(n, s) == Some(InsertionDirection::FromTop) <==> 0 <= s < n,
        edge_of(n, s) == Some(InsertionDirection::FromRight) <==> n <= s < 2 * n,
        edge_of(n, s) == Some(InsertionDirection::FromBottom) <==> 2 * n <= s < 3 * n,
        edge_of(n, s) == Some(InsertionDirection::FromLeft) <==> 3 * n <= s < 4 * n,
        0 <= side_index(edge_of(n, s)->Some_0, n, s) < n,
{
}

/// The number of empty cells of `l`.
pub open spec fn empties(l: Seq<u8>) -> int
    decreases l.len(),
{
    if l.len() == 0 {
        0
    } else {
        empties(l.drop_last()) + if l.last() == 0 { 1int } else { 0 }
    }
}

proof fn lemma_empties_update(l: Seq<u8>, j: int)
    requires
        0 <= j < l.len(),
        l[j] == 0,
    ensures
        empties(l.update(j, 1)) == empties(l) - 1,
    decreases l.len(),
{
    let u = l.update(j, 1);
    if j == l.len() - 1 {
        assert(u.drop_last() =~= l.drop_last());
    } else {
        lemma_empties_update(l.drop_last(), j);
        assert(u.drop_last() =~= l.drop_last().update(j, 1));
    }
}

proof fn lemma_empties_zero(l: Seq<u8>)
    requires
        empties(l) <= 0,
    ensures
        solid(l),
        empties(l) == 0,
    decreases l.len(),
{
    if l.len() > 0 {
        lemma_empties_nonneg(l.drop_last());
        lemma_empties_zero(l.drop_last());
        assert forall|i: int| 0 <= i < l.len() implies #[trigger] l[i] != 0 by {
            if i < l.len() - 1 {
                assert(l.drop_last()[i] == l[i]);
            }
        }
    }
}

proof fn lemma_empties_nonneg(l: Seq<u8>)
    ensures
        0 <= empties(l) <= l.len(),
    decreases l.len(),
{
    if l.len() > 0 {
        lemma_empties_nonneg(l.drop_last());
    }
}

/// Each tile that a lane takes fills one of its empty cells, so a lane with
/// `e` empty cells takes at most `e` tiles before it is solid and turns the
/// next one away; a lane with no empty cell turns every tile away.
pub proof fn lemma_lane_fills(d: InsertionDirection, line: Seq<u8>)
    requires
        line.len() > 0,
    ensures
        0 <= empties(line) <= line.len(),
        landing_in_line(d, line) matches Some(j) ==> empties(line.update(j, 1)) == empties(line) - 1,
        empties(line) == 0 ==> landing_in_line(d, line) is None,
{
    lemma_landing_in_line(d, line);
    lemma_empties_nonneg(line);
    if let Some(j) = landing_in_line(d, line) {
        lemma_empties_update(line, j);
    }
    if empties(line) == 0 {
        lemma_empties_zero(line);
    }
}

/// A lane whose every cell is occupied.
pub open spec fn solid(l: Seq<u8>) -> bool {
    forall|i: int| 0 <= i < l.len() ==> #[trigger] l[i] != 0
}

/// A tile lands on an empty cell of the lane, and a lane turns a tile away
/// exactly when it is solid.
pub proof fn lemma_landing(l: Seq<u8>)
    requires
        l.len() > 0,
    ensures
        landing(l) matches Some(j) ==> 0 <= j < l.len() && l[j] == 0,
        landing(l) is None <==> solid(l),
{
    lemma_first_from_bounds(l, 0, true);
    let k = first_from(l, 0, true);
    if k < l.len() {
        lemma_first_from_bounds(l, k, false);
        let e = first_from(l, k, false);
        if e >= l.len() && k == 0 {
            assert forall|i: int| 0 <= i < l.len() implies #[trigger] l[i] != 0 by {
                assert(k <= i < e);
            }
        }
        if k > 0 {
            assert(l[0] == 0);
        }
        if e < l.len() {
            assert(l[e] == 0);
        }
    } else {
        assert(l[l.len() - 1] == 0);
    }
}

/// The same holds of a line in board order, whichever edge it is entered
/// from.
pub proof fn lemma_landing_in_line(d: InsertionDirection, line: Seq<u8>)
    requires
        line.len() > 0,
    ensures
        landing_in_line(d, line) matches Some(j) ==> 0 <= j < line.len() && line[j] == 0,
        landing_in_line(d, line) is None <==> solid(line),
{
    if enters_reversed(d) {
        let rev = line.reverse();
        lemma_landing(rev);
        if solid(rev) {
            assert forall|i: int| 0 <= i < line.len() implies #[trigger] line[i] != 0 by {
                assert(rev[line.len() - 1 - i] == line[i]);
            }
        }
        if solid(line) {
            assert forall|i: int| 0 <= i < rev.len() implies #[trigger] rev[i] != 0 by {
                assert(line[line.len() - 1 - i] == rev[i]);
            }
        }
    } else {
        lemma_landing(line);
    }
}

/// Scans `l` from `i` for the first cell that is occupied (or empty).
fn scan(l: &Vec<u8>, i: usize, occupied: bool) -> (r: usize)
    requires
        i <= l.len(),
    ensures
        r == first_from(l@, i as int, occupied),
{
    let mut j: usize = i;
    while j < l.len()
        invariant
            i <= j <= l.len(),
            first_from(l@, j as int, occupied) == first_from(l@, i as int, occupied),
        decreases l.len() - j,
    {
        if (l[j] != 0) == occupied {
            return j;
        }
        j = j + 1;
    }
    j
}

/// Finds where a tile lands in a lane listed from the entry edge inward.
fn land(l: &Vec<u8>) -> (r: Option<usize>)
    requires
        l.len() > 0,
    ensures
        r matches Some(j) ==> landing(l@) == Some(j as int) && j < l.len(),
        r is None ==> landing(l@) is None,
{
    let k = scan(l, 0, true);
    if k == l.len() {
        return Some(l.len() - 1);
    }
    proof {
        lemma_first_from_bounds(l@, 0, true);
    }
    let j = scan(l, k, false);
    if j < l.len() {
        Some(j)
    } else if k > 0 {
        Some(k - 1)
    } else {
        None
    }
}

impl InsertionDirection {
    /// The column (top and bottom edges) or row (left and right edges) that
    /// `slot` feeds on a board of side `n`.
    pub fn get_side_index(&self, n: usize, slot: usize) -> (r: usize)
        requires
            edge_of(n as int, slot as int) == Some(*self),
        ensures
            r == side_index(*self, n as int, slot as int),
            r < n,
    {
        match self {
            InsertionDirection::FromTop => slot,
            InsertionDirection::FromRight => slot - n,
            InsertionDirection::FromBottom => n - 1 - (slot - 2 * n),
            InsertionDirection::FromLeft => n - 1 - (slot - 3 * n),
        }
    }

    /// The edge that `slot` lies on for a board of side `n`.
    pub fn for_board_insertion(n: usize, slot: usize) -> (r: Result<InsertionDirection, GameError>)
        ensures
            edge_of(n as int, slot as int) matches Some(d) ==> r == Ok::<InsertionDirection, GameError>(d),
            edge_of(n as int, slot as int) is None ==> r == Err::<InsertionDirection, GameError>(
                GameError::InvalidPlacementLocation(slot),
            ),
    {
        if slot < n {
            return Ok(InsertionDirection::FromTop);
        }
        let past_top = slot - n;
        if past_top < n {
            return Ok(InsertionDirection::FromRight);
        }
        let past_right = past_top - n;
        if past_right < n {
            return Ok(InsertionDirection::FromBottom);
        }
        let past_bottom = past_right - n;
        if past_bottom < n {
            return Ok(InsertionDirection::FromLeft);
        }
        Err(GameError::InvalidPlacementLocation(slot))
    }

    /// Drops a tile into `line`, a row or column given in board order, from
    /// this edge. Marks the landing cell occupied and returns its index, or
    /// fails with `NoSpace` and leaves the line as it was.
    pub fn place(&self, line: &mut Vec<u8>) -> (r: Result<usize, GameError>)
        requires
            old(line).len() > 0,
        ensures
            landing_in_line(*self, old(line)@) matches Some(j) ==> r == Ok::<usize, GameError>(
                j as usize,
            ) && final(line)@ == old(line)@.update(j, 1u8),
            landing_in_line(*self, old(line)@) is None ==> r == Err::<usize, GameError>(
                GameError::NoSpace,
            ) && final(line)@ == old(line)@,
    {
        let len = line.len();
        if self.enters_reversed() {
            let mut lane: Vec<u8> = Vec::new();
            let mut i: usize = 0;
            while i < len
                invariant
                    len == line.len(),
                    i <= len,
                    lane@ == line@.reverse().subrange(0, i as int),
                decreases len - i,
            {
                lane.push(line[len - 1 - i]);
                i = i + 1;
                proof {
                    assert(lane@ =~= line@.reverse().subrange(0, i as int));
                }
            }
            assert(lane@ =~= line@.reverse());
            match land(&lane) {
                Some(j) => {
                    let at = len - 1 - j;
                    line.set(at, 1);
                    Ok(at)
                },
                None => Err(GameError::NoSpace),
            }
        } else {
            match land(line) {
                Some(j) => {
                    line.set(j, 1);
                    Ok(j)
                },
                None => Err(GameError::NoSpace),
            }
        }
    }

    /// Whether this edge enters a line in board order from its far end.
    pub fn enters_reversed(&self) -> (r: bool)
        ensures
            r == enters_reversed(*self),
    {
        match self {
            InsertionDirection::FromBottom | InsertionDirection::FromRight => true,
            _ => false,
        }
    }
}

} // verus!
