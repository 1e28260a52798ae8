//! The patterns that can be stamped on a grid, and where a stamp lands.

use crate::grid::{
    lemma_index_in_grid,
    lemma_index_in_range,
    lemma_last_write_stands,
    Grid,
};
use vstd::arithmetic::div_mod::{
    lemma_mod_add_multiples_vanish,
    lemma_mod_bound,
    lemma_mod_equivalence,
    lemma_small_mod,
};
use vstd::prelude::*;

verus! {

/// The five live cells of a glider, as offsets `(down, right)` from the
/// pattern's top left corner:
///
/// ```text
/// . # .
/// . . #
/// # # #
/// ```
pub open spec fn glider_shape() -> Seq<(int, int)> {
    seq![(0, 1), (1, 2), (2, 0), (2, 1), (2, 2)]
}

/// The side of the square that a pulsar fills.
pub open spec fn pulsar_side() -> int {
    13
}

/// The offsets along one axis at which a pulsar's bars lie.
pub open spec fn pulsar_bar(offset: int) -> bool {
    offset == 2 || offset == 3 || offset == 4 || offset == 8 || offset == 9 || offset == 10
}

/// The offsets along the other axis at which a bar is met.
pub open spec fn pulsar_rail(offset: int) -> bool {
    offset == 0 || offset == 5 || offset == 7 || offset == 12
}

/// Whether the pulsar's cell at offset `(down, right)` from its top left
/// corner is alive:
///
/// ```text
/// . . # # # . . . # # # . .
/// . . . . . . . . . . . . .
/// # . . . . # . # . . . . #
/// # . . . . # . # . . . . #
/// # . . . . # . # . . . . #
/// . . # # # . . . # # # . .
/// . . . . . . . . . . . . .
/// . . # # # . . . # # # . .
/// # . . . . # . # . . . . #
/// # . . . . # . # . . . . #
/// # . . . . # . # . . . . #
/// . . . . . . . . . . . . .
/// . . # # # . . . # # # . .
/// ```
pub open spec fn pulsar_alive(down: int, right: int) -> bool {
    (pulsar_rail(down) && pulsar_bar(right)) || (pulsar_bar(down) && pulsar_rail(right))
}

impl Grid {
    /// The position on which a pattern's cell at offset `(down, right)` is
    /// stamped, where the pattern's cell at offset `(reach, reach)` is meant
    /// for `(row, column)`.
    ///
    /// The row is wrapped by the grid's width and the column by its height,
    /// and the position of the pair is then found as `index` finds it. On a
    /// square grid this is the wrapped position that one expects; on another
    /// grid a stamp near an edge lands elsewhere.
    pub open spec fn stamp_position(
        self,
        row: int,
        column: int,
        down: int,
        right: int,
        reach: int,
    ) -> int {
        self.index(
            (row + down + self.width - reach) % (self.width as int),
            (column + right + self.height - reach) % (self.height as int),
        )
    }

    /// The position of `(row, column)` on a grid whose edges are joined: the
    /// row is wrapped by the height and the column by the width.
    pub open spec fn torus_position(self, row: int, column: int) -> int {
        (row % (self.height as int)) * self.width + column % (self.width as int)
    }

    /// The positions on which a glider centred on `(row, column)` is stamped.
    pub open spec fn glider_positions(self, row: int, column: int) -> Seq<int> {
        Seq::new(
            glider_shape().len(),
            |k: int| self.stamp_position(row, column, glider_shape()[k].0, glider_shape()[k].1, 1),
        )
    }

    /// The writes that stamp a pulsar centred on `(row, column)`: one for each
    /// cell of its square, dead cells included, column by column and from the
    /// top down within a column.
    pub open spec fn pulsar_writes(self, row: int, column: int) -> Seq<(int, bool)> {
        Seq::new(
            (pulsar_side() * pulsar_side()) as nat,
            |k: int|
                (
                    self.stamp_position(row, column, k % pulsar_side(), k / pulsar_side(), 6),
                    pulsar_alive(k % pulsar_side(), k / pulsar_side()),
                ),
        )
    }
}

/// Two places on an axis of `m` places that are less than `m` apart and
/// wrap to the same place are the same.
proof fn lemma_wrap_apart(x: int, y: int, m: int)
    requires
        0 < m,
        -m < x - y < m,
        x % m == y % m,
    ensures
        x == y,
{
    if x > y {
        lemma_mod_equivalence(x, y, m);
        lemma_small_mod((x - y) as nat, m as nat);
    } else if y > x {
        lemma_mod_equivalence(y, x, m);
        lemma_small_mod((y - x) as nat, m as nat);
    }
}

/// On a square grid a stamp lands where one expects it: the pattern's cell
/// at offset `(down, right)` is stamped on the cell `down - reach` rows below
/// and `right - reach` columns right of `(row, column)`, round the edges.
pub proof fn lemma_stamp_on_square(
    grid: Grid,
    row: int,
    column: int,
    down: int,
    right: int,
    reach: int,
)
    requires
        grid.wf(),
        grid.width == grid.height,
    ensures
        grid.stamp_position(row, column, down, right, reach) == grid.torus_position(
            row + down - reach,
            column + right - reach,
        ),
        0 <= grid.stamp_position(row, column, down, right, reach) < grid.size(),
{
    let side = grid.width as int;
    lemma_mod_add_multiples_vanish(row + down - reach, side);
    lemma_mod_add_multiples_vanish(column + right - reach, side);
    lemma_mod_bound(row + down - reach, side);
    lemma_mod_bound(column + right - reach, side);
    lemma_index_in_grid(grid, (row + down - reach) % side, (column + right - reach) % side);
}

/// On a square grid two cells of a pattern that is no larger than the grid
/// are stamped on different positions.
pub proof fn lemma_stamps_apart_on_square(
    grid: Grid,
    row: int,
    column: int,
    reach: int,
    first: (int, int),
    second: (int, int),
)
    requires
        grid.wf(),
        grid.width == grid.height,
        -grid.width < first.0 - second.0 < grid.width,
        -grid.width < first.1 - second.1 < grid.width,
        grid.stamp_position(row, column, first.0, first.1, reach) == grid.stamp_position(
            row,
            column,
            second.0,
            second.1,
            reach,
        ),
    ensures
        first == second,
{
    let side = grid.width as int;
    let (r1, c1) = ((row + first.0 - reach) % side, (column + first.1 - reach) % side);
    let (r2, c2) = ((row + second.0 - reach) % side, (column + second.1 - reach) % side);
    lemma_stamp_on_square(grid, row, column, first.0, first.1, reach);
    lemma_stamp_on_square(grid, row, column, second.0, second.1, reach);
    lemma_mod_bound(row + first.0 - reach, side);
    lemma_mod_bound(column + first.1 - reach, side);
    lemma_mod_bound(row + second.0 - reach, side);
    lemma_mod_bound(column + second.1 - reach, side);
    lemma_index_in_grid(grid, r1, c1);
    lemma_index_in_grid(grid, r2, c2);
    assert(r1 == r2 && c1 == c2);
    lemma_wrap_apart(row + first.0 - reach, row + second.0 - reach, side);
    lemma_wrap_apart(column + first.1 - reach, column + second.1 - reach, side);
}

/// On a square grid with room for it, a stamped pulsar shows as drawn: the
/// cell `down - 6` rows below and `right - 6` columns right of `(row, column)`
/// is alive exactly where the pattern is alive at `(down, right)`.
pub proof fn lemma_pulsar_on_square(grid: Grid, row: int, column: int, down: int, right: int)
    requires
        grid.wf(),
        grid.width == grid.height,
        grid.width >= pulsar_side(),
        0 <= down < pulsar_side(),
        0 <= right < pulsar_side(),
    ensures
        grid.with_writes(grid.pulsar_writes(row, column)).cells[grid.torus_position(
            row + down - 6,
            column + right - 6,
        )] == pulsar_alive(down, right),
{
    let writes = grid.pulsar_writes(row, column);
    let k = right * 13 + down;
    let place = grid.stamp_position(row, column, down, right, 6);
    lemma_stamp_on_square(grid, row, column, down, right, 6);
    assert(writes[k] == (place, pulsar_alive(down, right)));
    assert forall|j: int| 0 <= j < writes.len() implies 0 <= (#[trigger] writes[j]).0
        < grid.cells.len() by {
        lemma_stamp_on_square(grid, row, column, j % 13, j / 13, 6);
    }
    assert forall|later: int| k < later < writes.len() implies (#[trigger] writes[later]).0
        != place by {
        if writes[later].0 == place {
            lemma_stamps_apart_on_square(
                grid,
                row,
                column,
                6,
                (later % 13, later / 13),
                (down, right),
            );
        }
    }
    lemma_last_write_stands(grid.cells, writes, place);
}

/// A stamped pulsar leaves every cell that none of its writes names as it
/// was, on any grid.
pub proof fn lemma_pulsar_elsewhere(grid: Grid, row: int, column: int, i: int)
    requires
        grid.wf(),
        0 <= i < grid.size(),
        forall|down: int, right: int|
            0 <= down < pulsar_side() && 0 <= right < pulsar_side()
                ==> #[trigger] grid.stamp_position(row, column, down, right, 6) != i,
    ensures
        grid.with_writes(grid.pulsar_writes(row, column)).cells[i] == grid.cells[i],
{
    let writes = grid.pulsar_writes(row, column);
    assert forall|j: int| 0 <= j < writes.len() implies 0 <= (#[trigger] writes[j]).0
        < grid.cells.len() && writes[j].0 != i by {
        lemma_mod_bound(row + j % 13 + grid.width - 6, grid.width as int);
        lemma_mod_bound(column + j / 13 + grid.height - 6, grid.height as int);
        lemma_index_in_range(
            grid,
            (row + j % 13 + grid.width - 6) % (grid.width as int),
            (column + j / 13 + grid.height - 6) % (grid.height as int),
        );
        assert(writes[j].0 == grid.stamp_position(row, column, j % 13, j / 13, 6));
    }
    lemma_last_write_stands(grid.cells, writes, i);
}

/// The three bit masks from which a pulsar is drawn, one per column of its
/// square, agree with `pulsar_alive`: bit `down` of a column's mask is set
/// where the cell at that offset is alive.
pub proof fn lemma_pulsar_lines(down: u32)
    requires
        down < 13,
    ensures
        (((0b0011100011100u32 >> down) & 1) == 1) == pulsar_bar(down as int),
        (((0b1000010100001u32 >> down) & 1) == 1) == pulsar_rail(down as int),
        (((0u32 >> down) & 1) == 1) == false,
{
    assert((((0b0011100011100u32 >> down) & 1) == 1) == (down == 2 || down == 3 || down == 4
        || down == 8 || down == 9 || down == 10)) by (bit_vector)
        requires
            down < 13,
    ;
    assert((((0b1000010100001u32 >> down) & 1) == 1) == (down == 0 || down == 5 || down == 7
        || down == 12)) by (bit_vector)
        requires
            down < 13,
    ;
    assert((((0u32 >> down) & 1) == 1) == false) by (bit_vector);
}

} // verus!
