//! The game board: an `n` by `n` occupancy grid fed from its perimeter, with
//! line clearing, quarter turns and a projection of the grid that turns undo.

use crate::error::GameError;
use crate::insertion::{edge_of, landing_in_line, lemma_landing_in_line, side_index, InsertionDirection};
use crate::matrix::{cells_of, copy, empty_cells, get_cell, is_square, ncols, set_cell, with_cell, zeros, CellMatrix};
use crate::rotation::{
    lemma_rotations_square, lemma_turned_after_left, lemma_turned_after_right, lemma_turned_square, rotate_board_left,
    rotate_board_right, rotated_left, rotated_right, turned,
};
use crate::score::{after_boost, after_score, after_time, can_boost, fresh_score, with_drop_reset, with_mult, GameScore, ScoreModel};
use vstd::prelude::*;

verus! {

/// A square board with its score.
#[derive(Debug)]
pub struct GameBoard {
    board: CellMatrix,
    n: usize,
    offset: i64,
    display_board: CellMatrix,
    rows_clearing: bool,
    score: GameScore,
}

/// What a board holds.
pub ghost struct BoardModel {
    /// The side of the board.
    pub n: nat,
    /// The grid that placements act on, turned with the board.
    pub cells: Seq<Seq<u8>>,
    /// The grid as it stands with every turn undone.
    pub display: Seq<Seq<u8>>,
    /// Quarter turns made since the board was built; clockwise counts up.
    pub rotation: int,
    /// Whether full lines are cleared.
    pub clearing: bool,
    /// The score.
    pub score: ScoreModel,
}

impl View for GameBoard {
    type V = BoardModel;

    closed spec fn view(&self) -> BoardModel {
        BoardModel {
            n: self.n as nat,
            cells: cells_of(self.board),
            display: cells_of(self.display_board),
            rotation: self.offset as int,
            clearing: self.rows_clearing,
            score: self.score@,
        }
    }
}

/// Rows of cells, read out of a vector of rows.
pub open spec fn rows_view(v: Seq<Vec<u8>>) -> Seq<Seq<u8>> {
    Seq::new(v.len(), |i: int| v[i]@)
}

/// Whether `d` enters through a column.
pub open spec fn vertical(d: InsertionDirection) -> bool {
    d == InsertionDirection::FromTop || d == InsertionDirection::FromBottom
}

/// The lane that edge `d` feeds at index `idx`, in board order: column `idx`
/// for the top and bottom edges, row `idx` for the others.
pub open spec fn line_of(c: Seq<Seq<u8>>, d: InsertionDirection, idx: int) -> Seq<u8> {
    if vertical(d) {
        Seq::new(c.len(), |r: int| c[r][idx])
    } else {
        c[idx]
    }
}

/// The `(column, row)` of index `j` of the lane that `d` feeds at `idx`.
pub open spec fn landing_cell(d: InsertionDirection, idx: int, j: int) -> (int, int) {
    if vertical(d) {
        (idx, j)
    } else {
        (j, idx)
    }
}

/// Whether every cell of row `r` is occupied.
pub open spec fn row_full(c: Seq<Seq<u8>>, r: int) -> bool {
    forall|j: int| 0 <= j < c.len() ==> #[trigger] c[r][j] != 0
}

/// Whether every cell of column `col` is occupied.
pub open spec fn col_full(c: Seq<Seq<u8>>, col: int) -> bool {
    forall|i: int| 0 <= i < c.len() ==> #[trigger] c[i][col] != 0
}

/// Whether row `r` clears after a tile entered from `d` at `idx`: the entered
/// row when full (horizontal entry), or any full row (vertical entry).
pub open spec fn clears_row(c: Seq<Seq<u8>>, d: InsertionDirection, idx: int, r: int) -> bool {
    row_full(c, r) && (vertical(d) || r == idx)
}

/// Whether column `col` clears after a tile entered from `d` at `idx`: the
/// entered column when full (vertical entry), or any full column (horizontal
/// entry).
pub open spec fn clears_col(c: Seq<Seq<u8>>, d: InsertionDirection, idx: int, col: int) -> bool {
    col_full(c, col) && (!vertical(d) || col == idx)
}

/// How many of the first `k` rows clear.
pub open spec fn count_rows(c: Seq<Seq<u8>>, d: InsertionDirection, idx: int, k: int) -> int
    decreases k,
{
    if k <= 0 {
        0
    } else {
        count_rows(c, d, idx, k - 1) + if clears_row(c, d, idx, k - 1) { 1int } else { 0 }
    }
}

/// How many of the first `k` columns clear.
pub open spec fn count_cols(c: Seq<Seq<u8>>, d: InsertionDirection, idx: int, k: int) -> int
    decreases k,
{
    if k <= 0 {
        0
    } else {
        count_cols(c, d, idx, k - 1) + if clears_col(c, d, idx, k - 1) { 1int } else { 0 }
    }
}

/// How many lines clear after a tile entered from `d` at `idx`.
pub open spec fn total_cleared(c: Seq<Seq<u8>>, d: InsertionDirection, idx: int) -> int {
    count_rows(c, d, idx, c.len() as int) + count_cols(c, d, idx, c.len() as int)
}

/// The grid with every clearing line emptied, all judged on `c` as it was.
pub open spec fn after_clear(c: Seq<Seq<u8>>, d: InsertionDirection, idx: int) -> Seq<Seq<u8>> {
    Seq::new(
        c.len(),
        |r: int|
            Seq::new(
                c[r].len(),
                |col: int|
                    if clears_row(c, d, idx, r) || clears_col(c, d, idx, col) {
                        0u8
                    } else {
                        c[r][col]
                    },
            ),
    )
}

/// `x` capped at `u32::MAX`.
pub open spec fn cap32(x: int) -> int {
    if x > u32::MAX {
        u32::MAX as int
    } else {
        x
    }
}

/// The score after lines clear: the clear multiplier rises with the square of
/// their number, then each cleared line scores `n` points.
pub open spec fn score_after_clear(s: ScoreModel, total: int, n: int) -> ScoreModel {
    if total > 0 {
        after_score(with_mult(s, cap32(total)), cap32(total * n))
    } else {
        s
    }
}

/// The score after a placement: first whatever clearing earns, then one
/// point for the placement under the multiplier that clearing left, then a
/// fresh drop timer.
pub open spec fn score_after_place(s: ScoreModel, clearing: bool, total: int, n: int) -> ScoreModel {
    with_drop_reset(
        after_score(
            if clearing {
                score_after_clear(s, total, n)
            } else {
                s
            },
            1,
        ),
    )
}

/// An empty `n` by `n` board, not turned, with clearing off and a fresh
/// score.
pub open spec fn fresh_board(n: nat) -> BoardModel {
    BoardModel {
        n,
        cells: empty_cells(n),
        display: empty_cells(n),
        rotation: 0,
        clearing: false,
        score: fresh_score(),
    }
}

/// What a placement at `slot` does to board `m`, leaving `after` and
/// returning `r`.
pub open spec fn placed(m: BoardModel, slot: usize, r: Result<(usize, usize), GameError>, after: BoardModel) -> bool {
    let n = m.n as int;
    match edge_of(n, slot as int) {
        None => r == Err::<(usize, usize), GameError>(GameError::InvalidPlacementLocation(slot)) && after == m,
        Some(d) => {
            let idx = side_index(d, n, slot as int);
            match landing_in_line(d, line_of(m.cells, d, idx)) {
                None => r == Err::<(usize, usize), GameError>(GameError::NoSpace) && after == m,
                Some(j) => {
                    let (col, row) = landing_cell(d, idx, j);
                    let placed = with_cell(m.cells, row, col, 1);
                    let total = total_cleared(placed, d, idx);
                    &&& r matches Ok((a, b)) && a == col && b == row
                    &&& after.cells == if m.clearing { after_clear(placed, d, idx) } else { placed }
                    &&& after.score == score_after_place(m.score, m.clearing, total, n)
                    &&& after.rotation == m.rotation
                    &&& after.clearing == m.clearing
                    &&& after.n == m.n
                },
            }
        },
    }
}

impl GameBoard {
    pub open spec fn wf(&self) -> bool {
        let m = self@;
        &&& m.n >= 1
        &&& m.n * m.n <= isize::MAX
        &&& is_square(m.cells, m.n)
        &&& m.display == turned(m.cells, -m.rotation)
        &&& i64::MIN < m.rotation < i64::MAX
        &&& self.score_state().wf()
    }

    /// The score.
    pub closed spec fn score_state(&self) -> GameScore {
        self.score
    }

    /// An empty `n` by `n` board, not turned, with clearing off and a fresh
    /// score.
    pub fn new(n: usize) -> (r: Self)
        requires
            n >= 1,
            n * n <= isize::MAX,
        ensures
            r.wf(),
            r@ == fresh_board(n as nat),
    {
        let r = GameBoard {
            board: zeros(n),
            n,
            offset: 0,
            display_board: zeros(n),
            rows_clearing: false,
            score: GameScore::new(),
        };
        assert(is_square(r@.cells, n as nat));
        r
    }

    /// The same board with clearing of full lines switched on.
    pub fn with_rows_clearing(self) -> (r: Self)
        requires
            self.wf(),
        ensures
            r.wf(),
            r@ == (BoardModel { clearing: true, ..self@ }),
    {
        let mut s = self;
        s.rows_clearing = true;
        s
    }

    /// The side of the board.
    pub fn width(&self) -> (r: usize)
        requires
            self.wf(),
        ensures
            r == self@.n,
    {
        let r = ncols(&self.board);
        assert(self@.cells[0].len() == self@.n);
        r
    }

    /// The quarter turns made since the board was built, clockwise counting
    /// up.
    pub fn rotation(&self) -> (r: i64)
        ensures
            r == self@.rotation,
    {
        self.offset
    }

    /// The grid that placements act on: its rows, top to bottom.
    pub fn board(&self) -> (r: Vec<Vec<u8>>)
        requires
            self.wf(),
        ensures
            rows_view(r@) == self@.cells,
    {
        rows_out(&self.board, self.n)
    }

    /// The grid with every turn undone: its rows, top to bottom.
    pub fn display_board(&self) -> (r: Vec<Vec<u8>>)
        requires
            self.wf(),
        ensures
            rows_view(r@) == self@.display,
    {
        proof {
            lemma_turned_square(self@.cells, -self@.rotation);
        }
        rows_out(&self.display_board, self.n)
    }

    /// The score.
    pub fn score(&self) -> (r: &GameScore)
        ensures
            r@ == self@.score,
            r == self.score_state(),
    {
        &self.score
    }

    /// Lets `dt_ms` milliseconds pass on the score.
    pub fn pass_time(&mut self, dt_ms: u64)
        requires
            old(self).wf(),
        ensures
            final(self).wf(),
            final(self)@ == (BoardModel { score: final(self)@.score, ..old(self)@ }),
            final(self)@.score == after_time(old(self)@.score, dt_ms as int),
    {
        self.score.update(dt_ms);
    }

    /// Spends a rank on a boost, as `GameScore::rank_boost` does.
    pub fn rank_boost(&mut self) -> (r: bool)
        requires
            old(self).wf(),
        ensures
            final(self).wf(),
            final(self)@ == (BoardModel { score: final(self)@.score, ..old(self)@ }),
            r == can_boost(old(self)@.score),
            r ==> final(self)@.score == after_boost(old(self)@.score),
            !r ==> final(self)@.score == old(self)@.score,
    {
        self.score.rank_boost()
    }

    /// Turns the grid a quarter clockwise. The display grid does not change.
    pub fn rotate_right(&mut self)
        requires
            old(self).wf(),
            old(self)@.rotation < i64::MAX - 1,
        ensures
            final(self).wf(),
            final(self)@ == (BoardModel {
                cells: rotated_right(old(self)@.cells),
                rotation: old(self)@.rotation + 1,
                ..old(self)@
            }),
            final(self)@.display == old(self)@.display,
    {
        proof {
            lemma_turned_after_right(self@.cells, -(self@.rotation + 1));
            lemma_rotations_square(self@.cells);
        }
        let board = copy(&self.board);
        self.board = rotate_board_right(board, self.n);
        self.update_display_board(1);
    }

    /// Turns the grid a quarter counter-clockwise. The display grid does not
    /// change.
    pub fn rotate_left(&mut self)
        requires
            old(self).wf(),
            old(self)@.rotation > i64::MIN + 1,
        ensures
            final(self).wf(),
            final(self)@ == (BoardModel {
                cells: rotated_left(old(self)@.cells),
                rotation: old(self)@.rotation - 1,
                ..old(self)@
            }),
            final(self)@.display == old(self)@.display,
    {
        proof {
            lemma_turned_after_left(self@.cells, -(self@.rotation - 1));
            lemma_rotations_square(self@.cells);
        }
        let board = copy(&self.board);
        self.board = rotate_board_left(board, self.n);
        self.update_display_board(-1);
    }

    /// Drops a tile into `slot`. Returns the `(column, row)` where it landed.
    ///
    /// Fails with `InvalidPlacementLocation` for a slot off the perimeter and
    /// with `NoSpace` when the lane has no room; the board is then unchanged.
    /// With clearing on, every clearing line is emptied, raises the clear
    /// multiplier and scores `n` points; then the placement scores one point
    /// and the drop timer starts afresh.
    pub fn place(&mut self, slot: usize) -> (r: Result<(usize, usize), GameError>)
        requires
            old(self).wf(),
        ensures
            final(self).wf(),
            placed(old(self)@, slot, r, final(self)@),
    {
        let n = self.n;
        let d = match InsertionDirection::for_board_insertion(n, slot) {
            Ok(d) => d,
            Err(e) => return Err(e),
        };
        let idx = d.get_side_index(n, slot);
        let is_vertical = d == InsertionDirection::FromTop || d == InsertionDirection::FromBottom;
        let mut line = self.line(is_vertical, idx);
        proof {
            lemma_landing_in_line(d, line@);
        }
        let j = match d.place(&mut line) {
            Ok(j) => j,
            Err(e) => return Err(e),
        };
        let (col, row) = if is_vertical {
            (idx, j)
        } else {
            (j, idx)
        };
        set_cell(&mut self.board, row, col, 1);
        if self.rows_clearing {
            self.check_full_rows(is_vertical, idx, Ghost(d));
        }
        self.score.add_score(1);
        self.score.reset_drop_timer();
        self.update_display_board(0);
        Ok((col, row))
    }

    /// Copies out the column (`is_vertical`) or row at `idx`.
    fn line(&self, is_vertical: bool, idx: usize) -> (r: Vec<u8>)
        requires
            self@.n >= 1,
            is_square(self@.cells, self@.n),
            idx < self@.n,
        ensures
            r@ == (if is_vertical {
                Seq::new(self@.n, |i: int| self@.cells[i][idx as int])
            } else {
                self@.cells[idx as int]
            }),
    {
        let n = self.n;
        let ghost c = self@.cells;
        let mut out: Vec<u8> = Vec::new();
        let mut i: usize = 0;
        while i < n
            invariant
                i <= n,
                n == self@.n,
                idx < n,
                c == self@.cells,
                is_square(c, n as nat),
                out@.len() == i,
                forall|k: int| 0 <= k < i ==> #[trigger] out@[k] == (if is_vertical { c[k][idx as int] } else { c[idx as int][k] }),
            decreases n - i,
        {
            let v = if is_vertical {
                get_cell(&self.board, i, idx)
            } else {
                get_cell(&self.board, idx, i)
            };
            out.push(v);
            i = i + 1;
        }
        if is_vertical {
            assert(out@ =~= Seq::new(n as nat, |k: int| c[k][idx as int]));
        } else {
            assert(out@ =~= c[idx as int]);
        }
        out
    }

    /// Empties every clearing line after a tile entered at `idx` (a column when
    /// `is_vertical`), judging all lines on the grid as it was, and scores
    /// them.
    fn check_full_rows(&mut self, is_vertical: bool, idx: usize, Ghost(d): Ghost<InsertionDirection>)
        requires
            old(self)@.n >= 1,
            old(self)@.n * old(self)@.n <= isize::MAX,
            is_square(old(self)@.cells, old(self)@.n),
            idx < old(self)@.n,
            is_vertical == vertical(d),
            old(self).score_state().wf(),
        ensures
            final(self).score_state().wf(),
            final(self)@ == (BoardModel {
                cells: after_clear(old(self)@.cells, d, idx as int),
                score: score_after_clear(
                    old(self)@.score,
                    total_cleared(old(self)@.cells, d, idx as int),
                    old(self)@.n as int,
                ),
                ..old(self)@
            }),
    {
        let n = self.n;
        let ghost c = self@.cells;
        proof {
            assert(n <= n * n) by (nonlinear_arith)
                requires n >= 1;
        }
        let mut rows: Vec<bool> = Vec::new();
        let mut total: usize = 0;
        let mut r: usize = 0;
        while r < n
            invariant
                r <= n,
                n == self@.n,
                c == self@.cells,
                is_square(c, n as nat),
                idx < n,
                is_vertical == vertical(d),
                rows@.len() == r,
                forall|k: int| 0 <= k < r ==> #[trigger] rows@[k] == clears_row(c, d, idx as int, k),
                total == count_rows(c, d, idx as int, r as int),
                total <= r,
            decreases n - r,
        {
            let full = if is_vertical || r == idx {
                line_is_full(&self.board, n, r, false)
            } else {
                false
            };
            rows.push(full);
            if full {
                total = total + 1;
            }
            r = r + 1;
        }
        let mut cols: Vec<bool> = Vec::new();
        let mut k: usize = 0;
        while k < n
            invariant
                k <= n,
                n == self@.n,
                c == self@.cells,
                is_square(c, n as nat),
                idx < n,
                is_vertical == vertical(d),
                cols@.len() == k,
                forall|q: int| 0 <= q < k ==> #[trigger] cols@[q] == clears_col(c, d, idx as int, q),
                total == count_rows(c, d, idx as int, n as int) + count_cols(c, d, idx as int, k as int),
                total <= n + k,
                n <= isize::MAX,
            decreases n - k,
        {
            let full = if !is_vertical || k == idx {
                line_is_full(&self.board, n, k, true)
            } else {
                false
            };
            cols.push(full);
            if full {
                total = total + 1;
            }
            k = k + 1;
        }
        if total > 0 {
            proof {
                assert(total * n <= 2 * (n * n)) by (nonlinear_arith)
                    requires total <= 2 * n;
            }
            let lines: u32 = if total > u32::MAX as usize { u32::MAX } else { total as u32 };
            let points: u32 = if total * n > u32::MAX as usize { u32::MAX } else { (total * n) as u32 };
            self.score.add_mult(lines);
            self.score.add_score(points);
        }
        let ghost scored = self@;
        assert(c =~~= cleared_through(c, rows@, cols@, 0, 0));
        let mut i: usize = 0;
        while i < n
            invariant
                i <= n,
                n == self@.n,
                is_square(c, n as nat),
                rows@.len() == n,
                cols@.len() == n,
                forall|q: int| 0 <= q < n ==> #[trigger] rows@[q] == clears_row(c, d, idx as int, q),
                forall|q: int| 0 <= q < n ==> #[trigger] cols@[q] == clears_col(c, d, idx as int, q),
                self@.cells == cleared_through(c, rows@, cols@, i as int, 0),
                self@ == (BoardModel { cells: self@.cells, ..scored }),
                self.score_state().wf(),
            decreases n - i,
        {
            let mut j: usize = 0;
            while j < n
                invariant
                    i < n,
                    j <= n,
                    n == self@.n,
                    is_square(c, n as nat),
                    rows@.len() == n,
                    cols@.len() == n,
                    self@.cells == cleared_through(c, rows@, cols@, i as int, j as int),
                    self@ == (BoardModel { cells: self@.cells, ..scored }),
                    self.score_state().wf(),
                decreases n - j,
            {
                if rows[i] || cols[j] {
                    set_cell(&mut self.board, i, j, 0);
                }
                j = j + 1;
                assert(self@.cells =~~= cleared_through(c, rows@, cols@, i as int, j as int));
            }
            i = i + 1;
            assert(self@.cells =~~= cleared_through(c, rows@, cols@, i as int, 0));
        }
        assert(self@.cells =~~= after_clear(c, d, idx as int));
    }

    /// Adds `change` quarter turns to the count and rebuilds the display grid
    /// by undoing every counted turn, one at a time, on a copy of the grid.
    fn update_display_board(&mut self, change: i64)
        requires
            old(self)@.n >= 1,
            is_square(old(self)@.cells, old(self)@.n),
            i64::MIN < old(self)@.rotation + change < i64::MAX,
        ensures
            final(self)@ == (BoardModel {
                rotation: old(self)@.rotation + change,
                display: turned(old(self)@.cells, -(old(self)@.rotation + change)),
                ..old(self)@
            }),
    {
        self.offset = self.offset + change;
        let ghost c = cells_of(self.board);
        let n = self.n;
        let mut shown = copy(&self.board);
        let mut i: i64 = 0;
        if self.offset > 0 {
            while i < self.offset
                invariant
                    n >= 1,
                    is_square(c, n as nat),
                    0 <= i <= self.offset,
                    cells_of(shown) == turned(c, -i),
                decreases self.offset - i,
            {
                proof {
                    lemma_turned_square(c, -i);
                }
                shown = rotate_board_left(shown, n);
                i = i + 1;
            }
        } else {
            while i > self.offset
                invariant
                    n >= 1,
                    is_square(c, n as nat),
                    self.offset <= i <= 0,
                    cells_of(shown) == turned(c, -i),
                decreases i - self.offset,
            {
                proof {
                    lemma_turned_square(c, -i);
                }
                shown = rotate_board_right(shown, n);
                i = i - 1;
            }
        }
        self.display_board = shown;
    }
}

/// `c` with the cells of marked rows or columns emptied, for every row above
/// `i` and the first `j` cells of row `i`.
spec fn cleared_through(c: Seq<Seq<u8>>, rows: Seq<bool>, cols: Seq<bool>, i: int, j: int) -> Seq<Seq<u8>> {
    Seq::new(
        c.len(),
        |r: int|
            Seq::new(
                c[r].len(),
                |col: int|
                    if (r < i || (r == i && col < j)) && (rows[r] || cols[col]) {
                        0u8
                    } else {
                        c[r][col]
                    },
            ),
    )
}

/// Cell `q` along row `k`, or along column `k` when `column`.
spec fn along(c: Seq<Seq<u8>>, k: int, q: int, column: bool) -> u8 {
    if column {
        c[q][k]
    } else {
        c[k][q]
    }
}

/// Whether row `k` (or column `k`, when `column`) of a square matrix is full.
fn line_is_full(m: &CellMatrix, n: usize, k: usize, column: bool) -> (r: bool)
    requires
        is_square(cells_of(*m), n as nat),
        k < n,
    ensures
        r == if column { col_full(cells_of(*m), k as int) } else { row_full(cells_of(*m), k as int) },
{
    let ghost c = cells_of(*m);
    let mut i: usize = 0;
    while i < n
        invariant
            i <= n,
            k < n,
            c == cells_of(*m),
            is_square(c, n as nat),
            forall|q: int| 0 <= q < i ==> #[trigger] along(c, k as int, q, column) != 0,
        decreases n - i,
    {
        let v = if column {
            get_cell(m, i, k)
        } else {
            get_cell(m, k, i)
        };
        if v == 0 {
            proof {
                if column {
                    assert(c[i as int][k as int] == 0);
                } else {
                    assert(c[k as int][i as int] == 0);
                }
            }
            return false;
        }
        assert(along(c, k as int, i as int, column) != 0);
        i = i + 1;
    }
    proof {
        if column {
            assert forall|q: int| 0 <= q < c.len() implies #[trigger] c[q][k as int] != 0 by {
                assert(along(c, k as int, q, column) != 0);
            }
        } else {
            assert forall|q: int| 0 <= q < c.len() implies #[trigger] c[k as int][q] != 0 by {
                assert(along(c, k as int, q, column) != 0);
            }
        }
    }
    true
}

/// Copies the rows of a square matrix out into vectors.
fn rows_out(m: &CellMatrix, n: usize) -> (r: Vec<Vec<u8>>)
    requires
        is_square(cells_of(*m), n as nat),
    ensures
        rows_view(r@) == cells_of(*m),
{
    let ghost c = cells_of(*m);
    let mut out: Vec<Vec<u8>> = Vec::new();
    let mut i: usize = 0;
    while i < n
        invariant
            i <= n,
            c == cells_of(*m),
            is_square(c, n as nat),
            out@.len() == i,
            forall|k: int| 0 <= k < i ==> (#[trigger] out@[k])@ == c[k],
        decreases n - i,
    {
        let mut row: Vec<u8> = Vec::new();
        let mut j: usize = 0;
        while j < n
            invariant
                i < n,
                j <= n,
                c == cells_of(*m),
                is_square(c, n as nat),
                row@ == c[i as int].subrange(0, j as int),
            decreases n - j,
        {
            row.push(get_cell(m, i, j));
            j = j + 1;
            assert(row@ =~= c[i as int].subrange(0, j as int));
        }
        assert(row@ =~= c[i as int]);
        out.push(row);
        i = i + 1;
    }
    assert(rows_view(out@) =~= c);
    out
}

} // verus!
