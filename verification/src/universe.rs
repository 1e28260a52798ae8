//! The universe: the grid's dimensions and its packed cells.

use crate::bitset::{bit_at, bits_of, clear_all, packed_in};
use crate::grid::{
    lemma_index_in_grid,
    lemma_with_alive_step,
    lemma_wrap_step,
    lemma_written_step,
    population,
    written,
    Grid,
};
use crate::patterns::{lemma_pulsar_lines, pulsar_alive};
use fixedbitset::FixedBitSet;
use vstd::arithmetic::div_mod::{lemma_fundamental_div_mod_converse, lemma_mod_multiples_vanish};
use vstd::prelude::*;

verus! {

/// A universe is a Game of Life map whose borders wrap around.
///
/// A cell is alive when its bit is set.
pub struct Universe {
    width: u32,
    height: u32,
    cells: FixedBitSet,
}

impl View for Universe {
    type V = Grid;

    closed spec fn view(&self) -> Grid {
        Grid { width: self.width as nat, height: self.height as nat, cells: bits_of(self.cells) }
    }
}

impl Universe {
    /// Whether the universe is in a valid state. Every constructor
    /// establishes it and every method keeps it.
    pub open spec fn wf(&self) -> bool {
        self@.wf()
    }

    /// Gets the dead and alive values of the entire universe.
    pub fn get_cells(&self) -> (cells: &FixedBitSet)
        ensures
            bits_of(*cells) == self@.cells,
    {
        &self.cells
    }

    /// Sets cells to be alive by passing the row and column of each cell.
    ///
    /// Positions outside the grid wrap onto it; no other cell changes.
    pub fn set_cells(&mut self, cells: &[(u32, u32)])
        requires
            old(self).wf(),
        ensures
            final(self).wf(),
            final(self)@ == old(self)@.with_alive(old(self)@.positions(cells@)),
    {
        let ghost grid = self@;
        let ghost targets = grid.positions(cells@);
        for k in 0..cells.len()
            invariant
                self.wf(),
                self@.width == grid.width,
                self@.height == grid.height,
                grid.wf(),
                targets == grid.positions(cells@),
                self@.cells =~= grid.with_alive(targets.take(k as int)).cells,
        {
            let (row, col) = cells[k];
            let idx = self.get_index(row, col);
            self.cells.set(idx, true);
            proof {
                assert(idx == targets[k as int]);
                lemma_with_alive_step(grid, targets, k as int);
            }
        }
        assert(targets.take(cells.len() as int) =~= targets);
    }

    /// Returns the index of the cell at a certain row and column.
    ///
    /// If the position is out of range, the result is wrapped.
    pub fn get_index(&self, row: u32, column: u32) -> (idx: usize)
        requires
            self.wf(),
        ensures
            idx == self@.index(row as int, column as int),
            idx < self@.size(),
    {
        let w: u64 = self.width as u64;
        let h: u64 = self.height as u64;
        assert(row * w + column <= u64::MAX && 0 < w * h <= u32::MAX) by (nonlinear_arith)
            requires
                0 < w <= u32::MAX,
                0 < h,
                w * h <= u32::MAX,
                row <= u32::MAX,
                column <= u32::MAX,
        ;
        ((row as u64 * w + column as u64) % (w * h)) as usize
    }

    /// What the cell at `(row, column)` adds to a count of live cells.
    fn population_at(&self, row: u32, column: u32) -> (count: u8)
        requires
            self.wf(),
            row < self@.height,
            column < self@.width,
        ensures
            count == population(self@.cell(row as int, column as int)),
    {
        proof {
            lemma_index_in_grid(self@, row as int, column as int);
        }
        let idx = self.get_index(row, column);
        if bit_at(&self.cells, idx) {
            1
        } else {
            0
        }
    }

    /// Counts the live cells among the eight neighbours of the cell at
    /// `(row, column)`. The grid's edges are joined, so a cell on an edge has
    /// neighbours on the opposite edge.
    pub fn live_neighbor_count(&self, row: u32, column: u32) -> (count: u8)
        requires
            self.wf(),
            row < self@.height,
            column < self@.width,
        ensures
            count == self@.live_neighbors(row as int, column as int),
            count <= 8,
    {
        let north = if row == 0 {
            self.height - 1
        } else {
            row - 1
        };
        let south = if row == self.height - 1 {
            0
        } else {
            row + 1
        };
        let west = if column == 0 {
            self.width - 1
        } else {
            column - 1
        };
        let east = if column == self.width - 1 {
            0
        } else {
            column + 1
        };
        let nw = self.population_at(north, west);
        let n = self.population_at(north, column);
        let ne = self.population_at(north, east);
        let w = self.population_at(row, west);
        let e = self.population_at(row, east);
        let sw = self.population_at(south, west);
        let s = self.population_at(south, column);
        let se = self.population_at(south, east);

        proof {
            lemma_wrap_step(row as int, self.height as int);
            lemma_wrap_step(column as int, self.width as int);
        }
        nw + n + ne + w + e + sw + s + se
    }

    /// Creates a universe of the given dimensions in which the state of each
    /// cell is what `f` gives for the cell's position.
    fn _new<F: Fn(usize) -> bool>(width: u32, height: u32, f: F) -> (universe: Self)
        requires
            width > 0,
            height > 0,
            width * height <= u32::MAX,
            forall|i: usize| i < width * height ==> call_requires(f, (i,)),
        ensures
            universe.wf(),
            universe@.width == width,
            universe@.height == height,
            forall|i: int|
                0 <= i < width * height ==> call_ensures(
                    f,
                    (i as usize,),
                    #[trigger] universe@.cells[i],
                ),
    {
        let size = (width * height) as usize;
        let mut cells = FixedBitSet::with_capacity(size);

        for i in 0..size
            invariant
                size == width * height,
                bits_of(cells).len() == size,
                forall|i: usize| i < width * height ==> call_requires(f, (i,)),
                forall|j: int|
                    0 <= j < i ==> call_ensures(f, (j as usize,), #[trigger] bits_of(cells)[j]),
        {
            cells.set(i, f(i));
        }

        Self { width, height, cells }
    }

    /// Creates a new universe where every multiple of 2 or 7 is alive.
    pub fn new(width: u32, height: u32) -> (universe: Self)
        requires
            width > 0,
            height > 0,
            width * height <= u32::MAX,
        ensures
            universe.wf(),
            universe@ == Grid::striped(width as nat, height as nat),
    {
        let pattern = |i: usize| -> (alive: bool)
            ensures
                alive == (i % 2 == 0 || i % 7 == 0),
        {
            i % 2 == 0 || i % 7 == 0
        };
        let universe = Self::_new(width, height, pattern);
        assert(universe@.cells =~= Grid::striped(width as nat, height as nat).cells);
        universe
    }

    /// Creates a new universe with a glider in the top left corner.
    pub fn new_with_glider(width: u32, height: u32) -> (universe: Self)
        requires
            width > 0,
            height > 0,
            width * height <= u32::MAX,
        ensures
            universe.wf(),
            universe@ == Grid::dead(width as nat, height as nat).with_alive(
                Grid::dead(width as nat, height as nat).glider_positions(1, 1),
            ),
    {
        let dead = |i: usize| -> (alive: bool)
            ensures
                !alive,
        {
            false
        };
        let mut universe = Self::_new(width, height, dead);
        assert(universe@.cells =~= Grid::dead(width as nat, height as nat).cells);

        universe.spawn_glider(1, 1);

        universe
    }

    /// Creates a new universe whose cells are the draws of `sample`, one for
    /// each cell in row-major order. With fair and independent draws each
    /// cell is alive with probability one half.
    pub fn new_random(width: u32, height: u32, sample: &[bool]) -> (universe: Self)
        requires
            width > 0,
            height > 0,
            width * height <= u32::MAX,
            sample@.len() == width * height,
        ensures
            universe.wf(),
            universe@ == Grid::of(width as nat, height as nat, sample@),
    {
        let draw = |i: usize| -> (alive: bool)
            requires
                i < sample@.len(),
            ensures
                alive == sample@[i as int],
        {
            sample[i]
        };
        let universe = Self::_new(width, height, draw);
        assert(universe@.cells =~= sample@);
        universe
    }

    /// Gets the width of the universe.
    pub fn width(&self) -> (width: u32)
        ensures
            width == self@.width,
    {
        self.width
    }

    /// Gets the height of the universe.
    pub fn height(&self) -> (height: u32)
        ensures
            height == self@.height,
    {
        self.height
    }

    /// Sets the width of the universe.
    ///
    /// Resets all cells to the dead state.
    pub fn set_width(&mut self, width: u32)
        requires
            old(self).wf(),
            width > 0,
            width * old(self)@.height <= u32::MAX,
        ensures
            final(self).wf(),
            final(self)@ == Grid::dead(width as nat, old(self)@.height),
    {
        self.width = width;
        self.cells = FixedBitSet::with_capacity((self.width * self.height) as usize);
    }

    /// Sets the height of the universe.
    ///
    /// Resets all cells to the dead state.
    pub fn set_height(&mut self, height: u32)
        requires
            old(self).wf(),
            height > 0,
            old(self)@.width * height <= u32::MAX,
        ensures
            final(self).wf(),
            final(self)@ == Grid::dead(old(self)@.width, height as nat),
    {
        self.height = height;
        self.cells = FixedBitSet::with_capacity((self.width * self.height) as usize);
    }

    /// The 32-bit words in which the cells are packed, for a host that draws
    /// them: the cell at position `i` is bit `i % 32` of word `i / 32`.
    pub fn cells(&self) -> (blocks: &[u32])
        ensures
            packed_in(self@.cells, blocks@),
    {
        self.cells.as_slice()
    }

    /// Toggles a single cell from dead to alive or the other way round.
    pub fn toggle_cell(&mut self, row: u32, column: u32)
        requires
            old(self).wf(),
        ensures
            final(self).wf(),
            final(self)@ == old(self)@.toggled(old(self)@.index(row as int, column as int)),
    {
        let idx = self.get_index(row, column);
        self.cells.toggle(idx);
    }

    /// The position on which a pattern's cell at offset `(down, right)` is
    /// stamped, for a pattern that reaches `reach` cells up and left of
    /// `(row, column)`.
    fn stamp_index(&self, row: u32, column: u32, down: u32, right: u32, reach: u32) -> (idx: usize)
        requires
            self.wf(),
            down <= 12,
            right <= 12,
            1 <= reach <= 6,
        ensures
            idx == self@.stamp_position(
                row as int,
                column as int,
                down as int,
                right as int,
                reach as int,
            ),
            idx < self@.size(),
    {
        let r = wrapped_back(row, down, reach, self.width);
        let c = wrapped_back(column, right, reach, self.height);
        self.get_index(r, c)
    }

    /// Spawns a glider at `(row, col)`.
    ///
    /// The glider is centred on the coordinates. Its cells become alive; no
    /// other cell changes.
    ///
    /// ```text
    /// . # .
    /// . . #
    /// # # #
    /// ```
    pub fn spawn_glider(&mut self, row: u32, col: u32)
        requires
            old(self).wf(),
        ensures
            final(self).wf(),
            final(self)@ == old(self)@.with_alive(
                old(self)@.glider_positions(row as int, col as int),
            ),
    {
        let glider: [(u32, u32); 5] = [(0, 1), (1, 2), (2, 0), (2, 1), (2, 2)];
        let ghost grid = self@;
        let ghost targets = grid.glider_positions(row as int, col as int);

        for k in 0..5usize
            invariant
                self.wf(),
                self@.width == grid.width,
                self@.height == grid.height,
                grid.wf(),
                targets == grid.glider_positions(row as int, col as int),
                glider@ == seq![(0u32, 1u32), (1u32, 2u32), (2u32, 0u32), (2u32, 1u32), (2u32, 2u32)],
                self@.cells =~= grid.with_alive(targets.take(k as int)).cells,
        {
            let (delta_row, delta_col) = glider[k];
            let i = self.stamp_index(row, col, delta_row, delta_col, 1);
            self.cells.set(i, true);
            proof {
                assert(i == targets[k as int]);
                lemma_with_alive_step(grid, targets, k as int);
            }
        }
        assert(targets.take(5) =~= targets);
    }

    /// Spawns a pulsar at `(row, col)`.
    ///
    /// The pulsar is centred on the coordinates. Every cell of its square is
    /// written, the dead ones too, column by column; where the square is
    /// larger than the grid, the later write to a cell stands.
    pub fn spawn_pulsar(&mut self, row: u32, col: u32)
        requires
            old(self).wf(),
        ensures
            final(self).wf(),
            final(self)@ == old(self)@.with_writes(old(self)@.pulsar_writes(row as int, col as int)),
    {
        let two_lines: u32 = 0b0011100011100;
        let four_dots: u32 = 0b1000010100001;
        let dead_line: u32 = 0;
        let pulsar: [u32; 13] = [
            two_lines,
            dead_line,
            four_dots,
            four_dots,
            four_dots,
            two_lines,
            dead_line,
            two_lines,
            four_dots,
            four_dots,
            four_dots,
            dead_line,
            two_lines,
        ];
        let ghost grid = self@;
        let ghost writes = grid.pulsar_writes(row as int, col as int);

        for delta_col in 0..13u32
            invariant
                self.wf(),
                self@.width == grid.width,
                self@.height == grid.height,
                writes == grid.pulsar_writes(row as int, col as int),
                pulsar@ == seq![
                    0b0011100011100u32,
                    0u32,
                    0b1000010100001u32,
                    0b1000010100001u32,
                    0b1000010100001u32,
                    0b0011100011100u32,
                    0u32,
                    0b0011100011100u32,
                    0b1000010100001u32,
                    0b1000010100001u32,
                    0b1000010100001u32,
                    0u32,
                    0b0011100011100u32,
                ],
                self@.cells == written(grid.cells, writes.take(13 * delta_col)),
        {
            let line = pulsar[delta_col as usize];
            assert forall|down: u32| down < 13 implies (((line >> down) & 1) == 1) == pulsar_alive(
                down as int,
                delta_col as int,
            ) by {
                lemma_pulsar_lines(down);
            }
            for delta_row in 0..13u32
                invariant
                    self.wf(),
                    self@.width == grid.width,
                    self@.height == grid.height,
                    writes == grid.pulsar_writes(row as int, col as int),
                    delta_col < 13,
                    forall|down: u32|
                        down < 13 ==> (((line >> down) & 1) == 1) == pulsar_alive(
                            down as int,
                            delta_col as int,
                        ),
                    self@.cells == written(grid.cells, writes.take(13 * delta_col + delta_row)),
            {
                let bit = ((line >> delta_row) & 1) == 1;

                let i = self.stamp_index(row, col, delta_row, delta_col, 6);
                self.cells.set(i, bit);
                proof {
                    let k = 13 * delta_col + delta_row;
                    lemma_fundamental_div_mod_converse(k, 13, delta_col as int, delta_row as int);
                    lemma_written_step(grid.cells, writes, k);
                }
            }
        }
        assert(writes.take(169) =~= writes);
    }

    /// Gives every cell the state drawn for it in `sample`, which holds one
    /// draw for each cell in row-major order.
    pub fn randomize(&mut self, sample: &[bool])
        requires
            old(self).wf(),
            sample@.len() == old(self)@.size(),
        ensures
            final(self).wf(),
            final(self)@ == Grid::of(old(self)@.width, old(self)@.height, sample@),
    {
        let ghost grid = self@;
        let size = (self.width * self.height) as usize;
        for i in 0..size
            invariant
                self.wf(),
                self@.width == grid.width,
                self@.height == grid.height,
                size == grid.size(),
                sample@.len() == grid.size(),
                forall|j: int| 0 <= j < i ==> #[trigger] self@.cells[j] == sample@[j],
        {
            self.cells.set(i, sample[i]);
        }
        assert(self@.cells =~= sample@);
    }

    /// Resets all the cells to dead.
    pub fn reset(&mut self)
        requires
            old(self).wf(),
        ensures
            final(self).wf(),
            final(self)@ == old(self)@.cleared(),
    {
        clear_all(&mut self.cells);
    }

    /// Updates the map by `ticks_per_animation_frame` generations, one after
    /// the other.
    pub fn ticks(&mut self, ticks_per_animation_frame: u32)
        requires
            old(self).wf(),
        ensures
            final(self).wf(),
            final(self)@ == old(self)@.advance(ticks_per_animation_frame as nat),
    {
        for done in 0..ticks_per_animation_frame
            invariant
                self.wf(),
                self@ == old(self)@.advance(done as nat),
        {
            self.tick();
        }
    }

    /// Updates the map by one generation.
    ///
    /// Every cell of the new generation is computed from the old one, so the
    /// order in which the cells are visited does not show.
    pub fn tick(&mut self)
        requires
            old(self).wf(),
        ensures
            final(self).wf(),
            final(self)@ == old(self)@.step(),
    {
        let mut next = self.cells.clone();
        let ghost grid = self@;

        assert(0 * grid.width == 0) by (nonlinear_arith);
        for row in 0..self.height
            invariant
                *self == *old(self),
                grid == self@,
                grid.wf(),
                bits_of(next).len() == grid.size(),
                forall|i: int|
                    0 <= i < row * grid.width ==> bits_of(next)[i] == #[trigger] grid.next_cell(i),
        {
            let ghost base = row * grid.width;
            for col in 0..self.width
                invariant
                    *self == *old(self),
                    grid == self@,
                    grid.wf(),
                    row < grid.height,
                    base == row * grid.width,
                    bits_of(next).len() == grid.size(),
                    forall|i: int|
                        0 <= i < base + col ==> bits_of(next)[i] == #[trigger] grid.next_cell(i),
            {
                proof {
                    lemma_index_in_grid(grid, row as int, col as int);
                }
                let idx = self.get_index(row, col);
                let cell = bit_at(&self.cells, idx);
                let live_neighbors = self.live_neighbor_count(row, col);

                let next_cell = match (cell, live_neighbors) {
                    // Rule 1: Any live cell with fewer than two live neighbours
                    // dies, as if caused by underpopulation.
                    (true, x) if x < 2 => false,
                    // Rule 2: Any live cell with two or three live neighbours
                    // lives on to the next generation.
                    (true, 2) | (true, 3) => true,
                    // Rule 3: Any live cell with more than three live
                    // neighbours dies, as if by overpopulation.
                    (true, x) if x > 3 => false,
                    // Rule 4: Any dead cell with exactly three live neighbours
                    // becomes a live cell, as if by reproduction.
                    (false, 3) => true,
                    // All other cells remain in the same state.
                    (otherwise, _) => otherwise,
                };
                assert(idx == base + col);
                assert(next_cell == grid.next_cell(idx as int));

                next.set(idx, next_cell);
            }
            assert(base + grid.width == (row + 1) * grid.width) by (nonlinear_arith)
                requires
                    base == row * grid.width,
            ;
        }

        self.cells = next;
        assert(grid.height * grid.width == grid.size()) by (nonlinear_arith);
        assert(self@.cells =~= grid.step().cells);
    }
}

/// Steps back by `reach` from `start + delta` along an axis of `extent`
/// places whose ends are joined.
fn wrapped_back(start: u32, delta: u32, reach: u32, extent: u32) -> (place: u32)
    requires
        extent > 0,
        delta <= 12,
        1 <= reach <= 6,
    ensures
        place == (start + delta + extent - reach) % (extent as int),
        place < extent,
{
    let lifted: u64 = start as u64 + delta as u64 + 6 * (extent as u64) - reach as u64;
    proof {
        lemma_mod_multiples_vanish(5, start + delta + extent - reach, extent as int);
    }
    (lifted % (extent as u64)) as u32
}

} // verus!
