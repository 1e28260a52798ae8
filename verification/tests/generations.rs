//! The rule of the game and the advance by generations.

use wasm_game_of_life::Universe;

fn alive_after(universe: &Universe) -> Vec<usize> {
    universe.get_cells().ones().collect()
}

fn empty_universe(width: u32, height: u32) -> Universe {
    let mut universe = Universe::new(width, height);
    universe.reset();
    universe
}

fn seeded(width: u32, height: u32, cells: &[(u32, u32)]) -> Universe {
    let mut universe = empty_universe(width, height);
    universe.set_cells(cells);
    universe
}

#[test]
fn test_tick() {
    let mut input_universe = seeded(6, 6, &[(1, 2), (2, 3), (3, 1), (3, 2), (3, 3)]);
    let expected_universe = seeded(6, 6, &[(2, 1), (2, 3), (3, 2), (3, 3), (4, 2)]);

    input_universe.tick();
    assert_eq!(&input_universe.get_cells(), &expected_universe.get_cells());
    assert_eq!(alive_after(&input_universe), vec![13, 15, 20, 21, 26]);
}

#[test]
fn tick_of_the_default_pattern() {
    let mut universe = Universe::new(6, 6);
    universe.tick();
    assert_eq!(
        alive_after(&universe),
        vec![2, 4, 6, 8, 10, 12, 16, 18, 20, 22, 24, 26, 30, 32, 34]
    );
    universe.tick();
    assert_eq!(alive_after(&universe), vec![2, 4, 10, 12, 16, 18, 24, 26, 32]);
    universe.tick();
    assert_eq!(alive_after(&universe), vec![10, 18, 32]);
}

#[test]
fn tick_on_grids_that_are_not_square() {
    let mut wide = Universe::new(7, 5);
    wide.tick();
    assert_eq!(alive_after(&wide), vec![2, 4, 30, 32]);
    assert_eq!(wide.width(), 7);
    assert_eq!(wide.height(), 5);

    let mut tall = Universe::new(5, 7);
    tall.tick();
    assert_eq!(alive_after(&tall), vec![10, 14, 24, 32]);
}

#[test]
fn tick_is_the_same_on_equal_universes() {
    let mut first = Universe::new(9, 7);
    let mut second = Universe::new(9, 7);
    first.spawn_glider(3, 3);
    second.spawn_glider(3, 3);
    for _ in 0..5 {
        first.tick();
        second.tick();
        assert_eq!(first.get_cells(), second.get_cells());
    }
}

#[test]
fn ticks_is_as_many_single_ticks() {
    for n in 0..6u32 {
        let mut at_once = Universe::new(8, 6);
        let mut one_by_one = Universe::new(8, 6);
        at_once.ticks(n);
        for _ in 0..n {
            one_by_one.tick();
        }
        assert_eq!(at_once.get_cells(), one_by_one.get_cells());
    }
}

#[test]
fn ticks_of_zero_changes_nothing() {
    let mut universe = Universe::new(6, 6);
    let before = universe.get_cells().clone();
    universe.ticks(0);
    assert_eq!(universe.get_cells(), &before);
}

#[test]
fn ticks_of_three_on_the_default_pattern() {
    let mut universe = Universe::new(6, 6);
    universe.ticks(3);
    assert_eq!(alive_after(&universe), vec![10, 18, 32]);
}

#[test]
fn a_glider_comes_back_after_a_trip_round_the_torus() {
    let mut universe = seeded(6, 6, &[(1, 2), (2, 3), (3, 1), (3, 2), (3, 3)]);
    let start = universe.get_cells().clone();
    universe.ticks(4);
    assert_eq!(alive_after(&universe), vec![15, 22, 26, 27, 28]);
    universe.ticks(20);
    assert_eq!(universe.get_cells(), &start);
}

#[test]
fn a_live_cell_without_neighbours_dies() {
    let mut universe = seeded(5, 5, &[(2, 2)]);
    assert_eq!(universe.live_neighbor_count(2, 2), 0);
    universe.tick();
    assert_eq!(alive_after(&universe), Vec::<usize>::new());
}

#[test]
fn a_live_cell_with_one_neighbour_dies() {
    let mut universe = seeded(5, 5, &[(2, 2), (2, 3)]);
    universe.tick();
    assert_eq!(alive_after(&universe), Vec::<usize>::new());
}

#[test]
fn a_live_cell_with_two_neighbours_lives_on() {
    let mut universe = seeded(5, 5, &[(1, 1), (2, 2), (3, 3)]);
    assert_eq!(universe.live_neighbor_count(2, 2), 2);
    universe.tick();
    assert_eq!(alive_after(&universe), vec![12]);
}

#[test]
fn a_live_cell_with_three_neighbours_lives_on() {
    let mut universe = seeded(6, 6, &[(2, 2), (1, 1), (1, 3), (3, 2)]);
    assert_eq!(universe.live_neighbor_count(2, 2), 3);
    universe.tick();
    assert!(universe.get_cells()[14]);
}

#[test]
fn a_live_cell_with_four_neighbours_dies() {
    let mut universe = seeded(6, 6, &[(2, 2), (1, 1), (1, 3), (3, 1), (3, 3)]);
    assert_eq!(universe.live_neighbor_count(2, 2), 4);
    universe.tick();
    assert!(!universe.get_cells()[14]);
}

#[test]
fn a_dead_cell_with_three_neighbours_comes_alive() {
    let mut universe = seeded(6, 6, &[(1, 1), (1, 3), (3, 2)]);
    assert_eq!(universe.live_neighbor_count(2, 2), 3);
    assert!(!universe.get_cells()[14]);
    universe.tick();
    assert!(universe.get_cells()[14]);
}

#[test]
fn a_dead_cell_with_two_or_four_neighbours_stays_dead() {
    let mut two = seeded(6, 6, &[(1, 1), (3, 3)]);
    assert_eq!(two.live_neighbor_count(2, 2), 2);
    two.tick();
    assert!(!two.get_cells()[14]);

    let mut four = seeded(6, 6, &[(1, 1), (1, 3), (3, 1), (3, 3)]);
    assert_eq!(four.live_neighbor_count(2, 2), 4);
    four.tick();
    assert!(!four.get_cells()[14]);
}

#[test]
fn a_block_is_still() {
    let mut universe = seeded(6, 6, &[(2, 2), (2, 3), (3, 2), (3, 3)]);
    universe.ticks(7);
    assert_eq!(alive_after(&universe), vec![14, 15, 20, 21]);
}

#[test]
fn a_blinker_turns() {
    let mut universe = seeded(5, 5, &[(2, 1), (2, 2), (2, 3)]);
    universe.tick();
    assert_eq!(alive_after(&universe), vec![7, 12, 17]);
    universe.tick();
    assert_eq!(alive_after(&universe), vec![11, 12, 13]);
}

#[test]
fn a_full_single_cell_universe_dies_of_its_own_company() {
    let mut universe = Universe::new(1, 1);
    universe.tick();
    assert_eq!(alive_after(&universe), Vec::<usize>::new());
}
