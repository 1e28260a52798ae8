//! Construction, indexing and the single-cell operations.

use fixedbitset::FixedBitSet;
use wasm_game_of_life::Universe;

fn live_cells(universe: &Universe) -> Vec<usize> {
    universe.get_cells().ones().collect()
}

fn dead_universe(width: u32, height: u32) -> Universe {
    let mut universe = Universe::new(width, height);
    universe.reset();
    universe
}

#[test]
fn new_makes_multiples_of_two_and_seven_alive() {
    let universe = Universe::new(5, 4);
    assert_eq!(universe.width(), 5);
    assert_eq!(universe.height(), 4);
    assert_eq!(universe.get_cells().len(), 20);
    assert_eq!(live_cells(&universe), vec![0, 2, 4, 6, 7, 8, 10, 12, 14, 16, 18]);
}

#[test]
fn new_on_a_single_cell() {
    let universe = Universe::new(1, 1);
    assert_eq!(universe.get_cells().len(), 1);
    assert_eq!(live_cells(&universe), vec![0]);
}

#[test]
fn new_with_glider_puts_a_glider_in_the_top_left_corner() {
    let universe = Universe::new_with_glider(8, 8);
    assert_eq!(universe.get_cells().len(), 64);
    assert_eq!(live_cells(&universe), vec![1, 10, 16, 17, 18]);
}

#[test]
fn new_random_takes_one_draw_per_cell() {
    let sample = [true, false, false, true, true, false];
    let universe = Universe::new_random(3, 2, &sample);
    assert_eq!(universe.width(), 3);
    assert_eq!(universe.height(), 2);
    assert_eq!(live_cells(&universe), vec![0, 3, 4]);
}

#[test]
fn randomize_replaces_every_cell() {
    let mut universe = Universe::new(3, 2);
    assert_eq!(live_cells(&universe), vec![0, 2, 4]);
    universe.randomize(&[false, true, false, true, false, true]);
    assert_eq!(live_cells(&universe), vec![1, 3, 5]);
    universe.randomize(&[false; 6]);
    assert_eq!(live_cells(&universe), Vec::<usize>::new());
    universe.randomize(&[true; 6]);
    assert_eq!(live_cells(&universe), vec![0, 1, 2, 3, 4, 5]);
}

#[test]
fn get_index_is_row_major_within_the_grid() {
    let universe = Universe::new(6, 4);
    assert_eq!(universe.get_index(0, 0), 0);
    assert_eq!(universe.get_index(0, 5), 5);
    assert_eq!(universe.get_index(1, 0), 6);
    assert_eq!(universe.get_index(3, 5), 23);
}

#[test]
fn get_index_wraps_outside_the_grid() {
    let universe = Universe::new(6, 6);
    assert_eq!(universe.get_index(7, 8), 14);
    assert_eq!(universe.get_index(0, 6), 6);
    assert_eq!(universe.get_index(6, 0), 0);
    assert_eq!(universe.get_index(0, 36), 0);
    assert_eq!(universe.get_index(u32::MAX, u32::MAX), 21);
}

#[test]
fn get_index_stays_on_the_grid_for_the_largest_coordinates() {
    let universe = Universe::new(7, 5);
    assert_eq!(universe.get_index(u32::MAX, u32::MAX), 10);
    for &(row, column) in &[(0, u32::MAX), (u32::MAX, 0), (u32::MAX - 1, 17), (1 << 31, 1 << 31)] {
        assert!(universe.get_index(row, column) < 35);
    }
}

#[test]
fn get_index_does_not_overflow_where_the_product_passes_32_bits() {
    let universe = Universe::new_with_glider(3000, 2000);
    assert_eq!(universe.get_cells().len(), 6000000);
    assert_eq!(universe.get_index(1999, 2999), 5999999);
    assert_eq!(universe.get_index(u32::MAX, u32::MAX), 2852295);
    assert_eq!(universe.get_index(4000000007, 3), 21003);
}

#[test]
fn toggle_cell_flips_one_cell() {
    let mut universe = dead_universe(4, 4);
    universe.toggle_cell(1, 2);
    assert_eq!(live_cells(&universe), vec![6]);
    universe.toggle_cell(3, 3);
    assert_eq!(live_cells(&universe), vec![6, 15]);
    universe.toggle_cell(1, 2);
    assert_eq!(live_cells(&universe), vec![15]);
}

#[test]
fn toggle_cell_wraps() {
    let mut universe = dead_universe(6, 6);
    universe.toggle_cell(7, 8);
    assert_eq!(live_cells(&universe), vec![14]);
    universe.toggle_cell(1, 8);
    assert_eq!(live_cells(&universe), Vec::<usize>::new());
}

#[test]
fn set_cells_marks_the_given_cells_and_no_other() {
    let mut universe = dead_universe(6, 6);
    universe.set_cells(&[(1, 2), (2, 3), (3, 1), (3, 2), (3, 3)]);
    assert_eq!(live_cells(&universe), vec![8, 15, 19, 20, 21]);
    universe.set_cells(&[(1, 2), (0, 0)]);
    assert_eq!(live_cells(&universe), vec![0, 8, 15, 19, 20, 21]);
    universe.set_cells(&[]);
    assert_eq!(live_cells(&universe), vec![0, 8, 15, 19, 20, 21]);
}

#[test]
fn set_cells_wraps() {
    let mut universe = dead_universe(6, 6);
    universe.set_cells(&[(7, 8), (u32::MAX, u32::MAX)]);
    assert_eq!(live_cells(&universe), vec![14, 21]);
}

#[test]
fn reset_kills_every_cell() {
    let mut universe = Universe::new(9, 5);
    assert!(!live_cells(&universe).is_empty());
    universe.reset();
    assert_eq!(universe.get_cells(), &FixedBitSet::with_capacity(45));
    assert_eq!(universe.width(), 9);
    assert_eq!(universe.height(), 5);
}

#[test]
fn reset_twice_is_reset_once() {
    let mut universe = Universe::new(9, 5);
    universe.reset();
    let once = universe.get_cells().clone();
    universe.reset();
    assert_eq!(universe.get_cells(), &once);
    assert_eq!(once.count_ones(..), 0);
    assert_eq!(once.len(), 45);
}

#[test]
fn set_width_clears_and_resizes() {
    let mut universe = Universe::new(4, 3);
    universe.set_width(7);
    assert_eq!(universe.width(), 7);
    assert_eq!(universe.height(), 3);
    assert_eq!(universe.get_cells(), &FixedBitSet::with_capacity(21));
}

#[test]
fn set_height_clears_and_resizes() {
    let mut universe = Universe::new(4, 3);
    universe.set_height(2);
    assert_eq!(universe.width(), 4);
    assert_eq!(universe.height(), 2);
    assert_eq!(universe.get_cells(), &FixedBitSet::with_capacity(8));
}

#[test]
fn set_width_to_the_same_width_still_clears() {
    let mut universe = Universe::new(4, 3);
    universe.set_width(4);
    assert_eq!(universe.get_cells(), &FixedBitSet::with_capacity(12));
    let mut universe = Universe::new(4, 3);
    universe.set_height(3);
    assert_eq!(universe.get_cells(), &FixedBitSet::with_capacity(12));
}

#[test]
fn cells_are_packed_in_words_of_32_bits() {
    let mut universe = dead_universe(6, 6);
    assert_eq!(universe.cells(), &[0u32, 0u32]);
    universe.set_cells(&[(0, 0), (0, 3), (5, 3), (5, 5)]);
    assert_eq!(universe.cells(), &[0b1001u32, 0b1010u32]);
    let universe = Universe::new(8, 8);
    assert_eq!(universe.cells().len(), 2);
    let universe = Universe::new(11, 3);
    assert_eq!(universe.cells().len(), 2);
    for i in 0..33usize {
        let alive = (universe.cells()[i / 32] >> (i % 32)) & 1 == 1;
        assert_eq!(alive, i % 2 == 0 || i % 7 == 0);
        assert_eq!(alive, universe.get_cells()[i]);
    }
}

#[test]
fn live_neighbor_count_in_the_middle() {
    let mut universe = dead_universe(5, 5);
    universe.set_cells(&[(1, 1), (1, 2), (1, 3), (2, 1), (2, 2), (2, 3), (3, 1), (3, 2), (3, 3)]);
    assert_eq!(universe.live_neighbor_count(2, 2), 8);
    assert_eq!(universe.live_neighbor_count(1, 1), 3);
    assert_eq!(universe.live_neighbor_count(1, 2), 5);
    assert_eq!(universe.live_neighbor_count(0, 0), 1);
    assert_eq!(universe.live_neighbor_count(0, 2), 3);
    assert_eq!(universe.live_neighbor_count(4, 4), 1);
}

#[test]
fn live_neighbor_count_wraps_at_the_edges() {
    let mut universe = dead_universe(5, 4);
    universe.set_cells(&[(0, 0)]);
    assert_eq!(universe.live_neighbor_count(3, 4), 1);
    assert_eq!(universe.live_neighbor_count(3, 0), 1);
    assert_eq!(universe.live_neighbor_count(0, 4), 1);
    assert_eq!(universe.live_neighbor_count(1, 1), 1);
    assert_eq!(universe.live_neighbor_count(0, 0), 0);
    assert_eq!(universe.live_neighbor_count(2, 2), 0);
}

#[test]
fn live_neighbor_count_on_a_single_cell_counts_it_eight_times() {
    let mut universe = Universe::new(1, 1);
    assert_eq!(universe.live_neighbor_count(0, 0), 8);
    universe.reset();
    assert_eq!(universe.live_neighbor_count(0, 0), 0);
}

#[test]
fn live_neighbor_count_on_two_columns_counts_a_side_twice() {
    let mut universe = dead_universe(2, 3);
    universe.set_cells(&[(1, 1)]);
    assert_eq!(universe.live_neighbor_count(1, 0), 2);
    assert_eq!(universe.live_neighbor_count(0, 0), 2);
    assert_eq!(universe.live_neighbor_count(0, 1), 1);
    assert_eq!(universe.live_neighbor_count(1, 1), 0);
}
