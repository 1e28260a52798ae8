//! The mathematical model of a universe: a grid of cells, the rule of the
//! game, and what each operation makes of a grid.

use vstd::arithmetic::div_mod::{
    lemma_fundamental_div_mod_converse,
    lemma_mod_add_multiples_vanish,
    lemma_mod_bound,
    lemma_mod_self_0,
    lemma_small_mod,
};
use vstd::prelude::*;

verus! {

/// A grid of cells in row-major order: cell `(row, column)` is at position
/// `row * width + column` of `cells`, and `true` means alive.
pub struct Grid {
    pub width: nat,
    pub height: nat,
    pub cells: Seq<bool>,
}

/// What a cell adds to a count of live cells.
pub open spec fn population(alive: bool) -> nat {
    if alive {
        1
    } else {
        0
    }
}

/// The rule of the game: a live cell lives on with two or three live
/// neighbours, a dead cell comes alive with exactly three.
pub open spec fn next_state(alive: bool, live_neighbors: nat) -> bool {
    if alive {
        live_neighbors == 2 || live_neighbors == 3
    } else {
        live_neighbors == 3
    }
}

/// What a sequence of cells is after `writes` were applied in order, each a
/// position and the state written there. A later write to a position replaces
/// an earlier one.
pub open spec fn written(cells: Seq<bool>, writes: Seq<(int, bool)>) -> Seq<bool>
    decreases writes.len(),
{
    if writes.len() == 0 {
        cells
    } else {
        written(cells, writes.drop_last()).update(writes.last().0, writes.last().1)
    }
}

impl Grid {
    /// The number of cells.
    pub open spec fn size(self) -> nat {
        self.width * self.height
    }

    /// A grid has at least one cell, one entry per cell, and a size that a
    /// 32-bit count can hold.
    pub open spec fn wf(self) -> bool {
        &&& self.width > 0
        &&& self.height > 0
        &&& self.size() <= u32::MAX
        &&& self.cells.len() == self.size()
    }

    /// The position of cell `(row, column)`. Coordinates outside the grid wrap
    /// onto it.
    pub open spec fn index(self, row: int, column: int) -> int {
        (row * self.width + column) % (self.size() as int)
    }

    /// The state of the cell at `(row, column)`, for coordinates on the grid.
    pub open spec fn cell(self, row: int, column: int) -> bool {
        self.cells[row * self.width + column]
    }

    /// The state of the cell that lies `down` rows below and `right` columns to
    /// the right of `(row, column)`, on a grid whose edges are joined.
    pub open spec fn neighbor(self, row: int, column: int, down: int, right: int) -> bool {
        self.cell((row + down) % (self.height as int), (column + right) % (self.width as int))
    }

    /// The number of live cells among the eight neighbours of `(row, column)`.
    /// On a grid with fewer than three rows or columns one cell stands in
    /// several of the eight places and is counted in each.
    pub open spec fn live_neighbors(self, row: int, column: int) -> nat {
        population(self.neighbor(row, column, -1, -1)) + population(
            self.neighbor(row, column, -1, 0),
        ) + population(self.neighbor(row, column, -1, 1)) + population(
            self.neighbor(row, column, 0, -1),
        ) + population(self.neighbor(row, column, 0, 1)) + population(
            self.neighbor(row, column, 1, -1),
        ) + population(self.neighbor(row, column, 1, 0)) + population(
            self.neighbor(row, column, 1, 1),
        )
    }

    /// The state in the next generation of the cell at position `i`.
    pub open spec fn next_cell(self, i: int) -> bool {
        next_state(
            self.cells[i],
            self.live_neighbors(i / (self.width as int), i % (self.width as int)),
        )
    }

    /// The next generation: every cell follows the rule, all at once.
    pub open spec fn step(self) -> Grid {
        Grid { cells: Seq::new(self.cells.len(), |i: int| self.next_cell(i)), ..self }
    }

    /// The grid `n` generations later.
    pub open spec fn advance(self, n: nat) -> Grid
        decreases n,
    {
        if n == 0 {
            self
        } else {
            self.advance((n - 1) as nat).step()
        }
    }

    /// A grid of the given dimensions whose cells are `cells`.
    pub open spec fn of(width: nat, height: nat, cells: Seq<bool>) -> Grid {
        Grid { width, height, cells }
    }

    /// A grid of the given dimensions with every cell dead.
    pub open spec fn dead(width: nat, height: nat) -> Grid {
        Grid { width, height, cells: Seq::new(width * height, |i: int| false) }
    }

    /// A grid of the given dimensions in which the cells at the multiples of
    /// two and of seven are alive.
    pub open spec fn striped(width: nat, height: nat) -> Grid {
        Grid { width, height, cells: Seq::new(width * height, |i: int| i % 2 == 0 || i % 7 == 0) }
    }

    /// The grid with every cell dead.
    pub open spec fn cleared(self) -> Grid {
        Grid::dead(self.width, self.height)
    }

    /// The grid with the cell at position `i` inverted.
    pub open spec fn toggled(self, i: int) -> Grid {
        Grid { cells: self.cells.update(i, !self.cells[i]), ..self }
    }

    /// The grid with the cells at `targets` alive and every other cell as it
    /// was.
    pub open spec fn with_alive(self, targets: Seq<int>) -> Grid {
        Grid {
            cells: Seq::new(self.cells.len(), |i: int| self.cells[i] || targets.contains(i)),
            ..self
        }
    }

    /// The grid after `writes` were applied in order.
    pub open spec fn with_writes(self, writes: Seq<(int, bool)>) -> Grid {
        Grid { cells: written(self.cells, writes), ..self }
    }

    /// The positions of the cells at the given coordinates, in order.
    pub open spec fn positions(self, coordinates: Seq<(u32, u32)>) -> Seq<int> {
        Seq::new(
            coordinates.len(),
            |k: int| self.index(coordinates[k].0 as int, coordinates[k].1 as int),
        )
    }
}

/// The rule in one line: a cell is alive in the next generation when it has
/// three live neighbours, or is alive and has two.
pub proof fn lemma_rule(alive: bool, live_neighbors: nat)
    ensures
        next_state(alive, live_neighbors) <==> live_neighbors == 3 || (alive && live_neighbors == 2),
        alive && live_neighbors < 2 ==> !next_state(alive, live_neighbors),
        alive && live_neighbors > 3 ==> !next_state(alive, live_neighbors),
        !alive && live_neighbors != 3 ==> !next_state(alive, live_neighbors),
{
}

/// A generation keeps the grid's dimensions and its validity.
pub proof fn lemma_step_keeps_shape(grid: Grid)
    requires
        grid.wf(),
    ensures
        grid.step().wf(),
        grid.step().width == grid.width,
        grid.step().height == grid.height,
{
}

/// The next generation depends on nothing but the grid before it: grids of
/// the same dimensions with the same cells have the same next generation.
pub proof fn lemma_step_deterministic(a: Grid, b: Grid)
    requires
        a.width == b.width,
        a.height == b.height,
        a.cells.len() == b.cells.len(),
        forall|i: int| 0 <= i < a.cells.len() ==> a.cells[i] == b.cells[i],
    ensures
        a.step() == b.step(),
{
    assert(a.cells =~= b.cells);
}

/// Advancing by `n` generations is the same as taking `n` generations one
/// after the other: none for `n == 0`, and one more after `n` for `n + 1`.
pub proof fn lemma_advance_is_repeated_step(grid: Grid, n: nat)
    requires
        grid.wf(),
    ensures
        grid.advance(0) == grid,
        grid.advance(n + 1) == grid.advance(n).step(),
        grid.advance(n + 1) == grid.step().advance(n),
        grid.advance(n).wf(),
    decreases n,
{
    if n > 0 {
        lemma_advance_is_repeated_step(grid, (n - 1) as nat);
        lemma_step_keeps_shape(grid.advance((n - 1) as nat));
        assert(grid.advance(n) == grid.advance((n - 1) as nat).step());
        assert(grid.step().advance(n) == grid.step().advance((n - 1) as nat).step());
    } else {
        assert(grid.advance(1) == grid.advance(0).step());
        assert(grid.step().advance(0) == grid.step());
    }
}

/// Advancing by `m + n` generations is advancing by `m` and then by `n`.
pub proof fn lemma_advance_adds(grid: Grid, m: nat, n: nat)
    requires
        grid.wf(),
    ensures
        grid.advance(m + n) == grid.advance(m).advance(n),
    decreases n,
{
    if n > 0 {
        lemma_advance_adds(grid, m, (n - 1) as nat);
        assert(grid.advance(m + n) == grid.advance((m + n - 1) as nat).step());
    }
}

/// Clearing leaves every cell dead and keeps the dimensions, and clearing a
/// cleared grid changes nothing.
pub proof fn lemma_cleared(grid: Grid)
    requires
        grid.wf(),
    ensures
        grid.cleared().wf(),
        grid.cleared().width == grid.width,
        grid.cleared().height == grid.height,
        forall|i: int| 0 <= i < grid.size() ==> !#[trigger] grid.cleared().cells[i],
        grid.cleared().cleared() == grid.cleared(),
{
}

/// A grid made dead has no live cell, whatever stood there before.
pub proof fn lemma_dead(width: nat, height: nat)
    requires
        width > 0,
        height > 0,
        width * height <= u32::MAX,
    ensures
        Grid::dead(width, height).wf(),
        forall|i: int| 0 <= i < width * height ==> !#[trigger] Grid::dead(width, height).cells[i],
{
}

/// What a cell holds after a sequence of writes: its old state where no
/// write names it, and else what the last write that names it wrote.
pub proof fn lemma_last_write_stands(cells: Seq<bool>, writes: Seq<(int, bool)>, i: int)
    requires
        0 <= i < cells.len(),
        forall|k: int| 0 <= k < writes.len() ==> 0 <= (#[trigger] writes[k]).0 < cells.len(),
    ensures
        written(cells, writes).len() == cells.len(),
        (forall|k: int| 0 <= k < writes.len() ==> (#[trigger] writes[k]).0 != i) ==> written(
            cells,
            writes,
        )[i] == cells[i],
        forall|k: int|
            0 <= k < writes.len() && (#[trigger] writes[k]).0 == i && (forall|later: int|
                k < later < writes.len() ==> (#[trigger] writes[later]).0 != i) ==> written(
                cells,
                writes,
            )[i] == writes[k].1,
    decreases writes.len(),
{
    if writes.len() > 0 {
        let shorter = writes.drop_last();
        let last = writes.len() - 1;
        lemma_last_write_stands(cells, shorter, i);
        assert forall|k: int|
            0 <= k < writes.len() && (#[trigger] writes[k]).0 == i && (forall|later: int|
                k < later < writes.len() ==> (#[trigger] writes[later]).0
                    != i) implies written(cells, writes)[i] == writes[k].1 by {
            if k < last {
                assert(writes[last].0 != i);
                assert(shorter[k] == writes[k]);
                assert forall|later: int| k < later < shorter.len() implies (#[trigger] shorter[later]).0
                    != i by {
                    assert(shorter[later] == writes[later]);
                }
            }
        }
        if forall|k: int| 0 <= k < writes.len() ==> (#[trigger] writes[k]).0 != i {
            assert(writes[last].0 != i);
            assert forall|k: int| 0 <= k < shorter.len() implies (#[trigger] shorter[k]).0 != i by {
                assert(shorter[k] == writes[k]);
            }
        }
    }
}

/// Every position that `index` gives lies on the grid, for all integers `row`
/// and `column`, negative ones included.
pub proof fn lemma_index_in_range(grid: Grid, row: int, column: int)
    requires
        grid.wf(),
    ensures
        0 <= grid.index(row, column) < grid.size(),
{
    assert(grid.width * grid.height > 0) by (nonlinear_arith)
        requires
            grid.width > 0,
            grid.height > 0,
    ;
    lemma_mod_bound(row * grid.width + column, grid.size() as int);
}

/// Within the grid, `index` is the row-major position, and row and column are
/// recovered from it by division.
pub proof fn lemma_index_in_grid(grid: Grid, row: int, column: int)
    requires
        grid.wf(),
        0 <= row < grid.height,
        0 <= column < grid.width,
    ensures
        grid.index(row, column) == row * grid.width + column,
        0 <= row * grid.width + column < grid.size(),
        (row * grid.width + column) / (grid.width as int) == row,
        (row * grid.width + column) % (grid.width as int) == column,
{
    let w = grid.width as int;
    let h = grid.height as int;
    assert(0 <= row * w + column < w * h) by (nonlinear_arith)
        requires
            0 <= row < h,
            0 <= column < w,
    ;
    lemma_small_mod((row * w + column) as nat, (w * h) as nat);
    assert(row * w == w * row) by (nonlinear_arith);
    lemma_fundamental_div_mod_converse(row * w + column, w, row, column);
}

/// One step along an axis of `m` places whose ends are joined: the place
/// before the first is the last, the place after the last is the first.
pub proof fn lemma_wrap_step(x: int, m: int)
    requires
        0 <= x < m,
    ensures
        (x + -1) % m == if x == 0 {
            m - 1
        } else {
            x - 1
        },
        (x + 0) % m == x,
        (x + 1) % m == if x == m - 1 {
            0
        } else {
            x + 1
        },
{
    lemma_small_mod(x as nat, m as nat);
    if x == 0 {
        lemma_mod_add_multiples_vanish(-1, m);
        lemma_small_mod((m - 1) as nat, m as nat);
    } else {
        lemma_small_mod((x - 1) as nat, m as nat);
    }
    if x == m - 1 {
        lemma_mod_self_0(m);
    } else {
        lemma_small_mod((x + 1) as nat, m as nat);
    }
}

/// Applying one more write updates the cell that it names.
pub proof fn lemma_written_step(cells: Seq<bool>, writes: Seq<(int, bool)>, k: int)
    requires
        0 <= k < writes.len(),
    ensures
        written(cells, writes.take(k + 1)) == written(cells, writes.take(k)).update(
            writes[k].0,
            writes[k].1,
        ),
{
    assert(writes.take(k + 1).drop_last() =~= writes.take(k));
}

/// Bringing one more target to life updates the cell that it names.
pub proof fn lemma_with_alive_step(grid: Grid, targets: Seq<int>, k: int)
    requires
        0 <= k < targets.len(),
        0 <= targets[k] < grid.cells.len(),
    ensures
        grid.with_alive(targets.take(k + 1)).cells == grid.with_alive(
            targets.take(k),
        ).cells.update(targets[k], true),
{
    let shorter = targets.take(k);
    let longer = targets.take(k + 1);
    let before = grid.with_alive(shorter).cells;
    let after = grid.with_alive(longer).cells;
    assert forall|i: int| 0 <= i < after.len() implies after[i] == before.update(
        targets[k],
        true,
    )[i] by {
        if longer.contains(i) {
            let j = choose|j: int| 0 <= j < k + 1 && #[trigger] longer[j] == i;
            if j < k {
                assert(shorter[j] == i);
            }
        }
        if shorter.contains(i) {
            let j = choose|j: int| 0 <= j < k && #[trigger] shorter[j] == i;
            assert(longer[j] == i);
        }
        if i == targets[k] {
            assert(longer[k] == i);
        }
    }
    assert(after =~= before.update(targets[k], true));
}

} // verus!
