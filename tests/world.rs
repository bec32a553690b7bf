use conway_life::{GridError, World};

fn seeded(width: u32, height: u32, cells: &[(u32, u32)]) -> World {
    let mut w = World::new(width, height).unwrap();
    for &(r, c) in cells {
        w.set_alive(r, c).unwrap();
    }
    w
}

fn live_set(w: &World) -> Vec<(u32, u32)> {
    let mut out = Vec::new();
    for r in 0..w.width() {
        for c in 0..w.height() {
            if w.is_alive(r, c).unwrap() {
                out.push((r, c));
            }
        }
    }
    out
}

fn sorted(cells: &[(u32, u32)]) -> Vec<(u32, u32)> {
    let mut v = cells.to_vec();
    v.sort();
    v
}

#[test]
fn new_grid_is_all_dead() {
    let w = World::new(4, 7).unwrap();
    assert_eq!(w.width(), 4);
    assert_eq!(w.height(), 7);
    assert!(w.alive_cells().is_empty());
    assert!(live_set(&w).is_empty());
}

#[test]
fn new_grid_with_no_cells() {
    let w = World::new(0, 5).unwrap();
    assert!(w.alive_cells().is_empty());
    assert_eq!(w.is_alive(0, 0), Err(GridError::IndexOutOfBounds));
    assert!(w.step().alive_cells().is_empty());
}

#[test]
fn set_alive_marks_the_cell() {
    let mut w = World::new(3, 5).unwrap();
    assert_eq!(w.set_alive(2, 4), Ok(()));
    assert_eq!(w.is_alive(2, 4), Ok(true));
    assert_eq!(w.is_alive(4, 2), Err(GridError::IndexOutOfBounds));
    assert_eq!(w.is_alive(1, 4), Ok(false));
    assert_eq!(w.alive_cells(), &vec![(2, 4)]);
}

#[test]
fn set_alive_twice_keeps_one_entry() {
    let mut w = World::new(5, 5).unwrap();
    w.set_alive(1, 1).unwrap();
    w.set_alive(1, 1).unwrap();
    w.set_alive(0, 3).unwrap();
    w.set_alive(1, 1).unwrap();
    assert_eq!(w.alive_cells(), &vec![(1, 1), (0, 3)]);
}

#[test]
fn set_alive_out_of_range_is_refused() {
    let mut w = seeded(3, 4, &[(0, 0)]);
    assert_eq!(w.set_alive(3, 0), Err(GridError::IndexOutOfBounds));
    assert_eq!(w.set_alive(0, 4), Err(GridError::IndexOutOfBounds));
    assert_eq!(w.set_alive(u32::MAX, u32::MAX), Err(GridError::IndexOutOfBounds));
    assert_eq!(w.alive_cells(), &vec![(0, 0)]);
    assert_eq!(live_set(&w), vec![(0, 0)]);
}

#[test]
fn is_alive_out_of_range_is_refused() {
    let w = World::new(2, 2).unwrap();
    assert_eq!(w.is_alive(2, 0), Err(GridError::IndexOutOfBounds));
    assert_eq!(w.is_alive(0, 2), Err(GridError::IndexOutOfBounds));
}

#[test]
fn neighbor_counts_on_a_full_grid() {
    let mut cells = Vec::new();
    for r in 0..3 {
        for c in 0..3 {
            cells.push((r, c));
        }
    }
    let w = seeded(3, 3, &cells);
    assert_eq!(w.count_neighbors(0, 0), 3);
    assert_eq!(w.count_neighbors(0, 2), 3);
    assert_eq!(w.count_neighbors(2, 2), 3);
    assert_eq!(w.count_neighbors(0, 1), 5);
    assert_eq!(w.count_neighbors(1, 0), 5);
    assert_eq!(w.count_neighbors(1, 1), 8);
}

#[test]
fn neighbor_bounds_hold_everywhere() {
    let mut cells = Vec::new();
    for r in 0..4 {
        for c in 0..6 {
            if (r + c) % 3 != 0 {
                cells.push((r, c));
            }
        }
    }
    let w = seeded(4, 6, &cells);
    for r in 0..4u32 {
        for c in 0..6u32 {
            let n = w.count_neighbors(r, c);
            assert!(n <= 8);
            let row_edge = r == 0 || r == 3;
            let col_edge = c == 0 || c == 5;
            if row_edge && col_edge {
                assert!(n <= 3);
            } else if row_edge || col_edge {
                assert!(n <= 5);
            }
        }
    }
}

#[test]
fn neighbor_count_ignores_the_cell_itself() {
    let w = seeded(3, 3, &[(1, 1)]);
    assert_eq!(w.count_neighbors(1, 1), 0);
    assert_eq!(w.count_neighbors(0, 0), 1);
}

#[test]
fn neighbor_counts_on_a_non_square_grid() {
    let w = seeded(2, 5, &[(0, 4), (1, 3), (1, 4)]);
    assert_eq!(w.count_neighbors(0, 3), 3);
    assert_eq!(w.count_neighbors(0, 4), 2);
    assert_eq!(w.count_neighbors(1, 2), 1);
    assert_eq!(w.count_neighbors(0, 0), 0);
}

#[test]
fn step_block_with_tail() {
    let w = seeded(5, 5, &[(1, 1), (1, 2), (1, 3), (2, 1), (2, 2)]);
    let next = w.step();
    assert_eq!(next.width(), 5);
    assert_eq!(next.height(), 5);
    assert_eq!(next.alive_cells(), &vec![(0, 2), (1, 1), (1, 3), (2, 1), (2, 3)]);
    assert_eq!(live_set(&next), vec![(0, 2), (1, 1), (1, 3), (2, 1), (2, 3)]);
}

#[test]
fn step_does_not_change_its_input() {
    let w = seeded(5, 5, &[(1, 1), (1, 2), (1, 3), (2, 1), (2, 2)]);
    let _ = w.step();
    assert_eq!(w.alive_cells(), &vec![(1, 1), (1, 2), (1, 3), (2, 1), (2, 2)]);
}

#[test]
fn block_is_a_still_life() {
    for &(width, height) in &[(4u32, 4u32), (6, 9), (10, 5)] {
        let block = [(1, 1), (1, 2), (2, 1), (2, 2)];
        let w = seeded(width, height, &block);
        let next = w.step();
        assert_eq!(next.alive_cells(), &block.to_vec());
        assert_eq!(next.step().alive_cells(), &block.to_vec());
    }
}

#[test]
fn block_in_a_corner_is_a_still_life() {
    let block = [(0, 0), (0, 1), (1, 0), (1, 1)];
    let w = seeded(4, 4, &block);
    assert_eq!(w.step().alive_cells(), &block.to_vec());
}

#[test]
fn blinker_oscillates() {
    let horizontal = vec![(2, 1), (2, 2), (2, 3)];
    let vertical = vec![(1, 2), (2, 2), (3, 2)];
    let w = seeded(5, 5, &horizontal);
    let once = w.step();
    assert_eq!(once.alive_cells(), &vertical);
    let twice = once.step();
    assert_eq!(twice.alive_cells(), &horizontal);
}

#[test]
fn blinker_oscillates_on_a_larger_grid() {
    let w = seeded(7, 9, &[(3, 4), (3, 3), (3, 5)]);
    let once = w.step();
    assert_eq!(once.alive_cells(), &vec![(2, 4), (3, 4), (4, 4)]);
    assert_eq!(once.step().alive_cells(), &vec![(3, 3), (3, 4), (3, 5)]);
}

#[test]
fn lone_cell_dies_and_three_give_birth() {
    let w = seeded(4, 4, &[(0, 0)]);
    assert!(w.step().alive_cells().is_empty());
    let w = seeded(4, 4, &[(0, 0), (0, 1), (1, 0)]);
    assert_eq!(w.step().alive_cells(), &vec![(0, 0), (0, 1), (1, 0), (1, 1)]);
}

#[test]
fn overcrowded_cell_dies() {
    let w = seeded(3, 3, &[(0, 1), (1, 0), (1, 1), (1, 2), (2, 1)]);
    let next = w.step();
    assert_eq!(next.is_alive(1, 1), Ok(false));
    assert_eq!(
        next.alive_cells(),
        &vec![(0, 0), (0, 1), (0, 2), (1, 0), (1, 2), (2, 0), (2, 1), (2, 2)]
    );
}

#[test]
fn step_lists_each_live_cell_once_and_in_row_major_order() {
    let w = seeded(6, 4, &[(5, 3), (0, 1), (4, 3), (0, 0), (5, 2), (1, 0), (4, 2)]);
    let next = w.step();
    let listed = next.alive_cells().clone();
    assert_eq!(listed, sorted(&listed));
    let mut dedup = listed.clone();
    dedup.dedup();
    assert_eq!(dedup, listed);
    assert_eq!(listed, live_set(&next));
}

#[test]
fn clone_keeps_every_cell() {
    let w = seeded(4, 6, &[(3, 5), (0, 0), (2, 1), (0, 0), (1, 4)]);
    let copy = w.clone_into_new_generation();
    assert_eq!(copy.width(), 4);
    assert_eq!(copy.height(), 6);
    assert_eq!(copy.alive_cells(), w.alive_cells());
    assert_eq!(copy.alive_cells(), &vec![(3, 5), (0, 0), (2, 1), (1, 4)]);
    assert_eq!(live_set(&copy), live_set(&w));
}

#[test]
fn clone_of_an_empty_grid_is_empty() {
    let w = World::new(3, 3).unwrap();
    let copy = w.clone_into_new_generation();
    assert!(copy.alive_cells().is_empty());
    assert!(live_set(&copy).is_empty());
}

#[test]
fn step_is_deterministic() {
    let a = seeded(6, 6, &[(1, 2), (2, 3), (3, 1), (3, 2), (3, 3)]);
    let b = seeded(6, 6, &[(3, 3), (3, 2), (3, 1), (2, 3), (1, 2)]);
    let na = a.step();
    let nb = b.step();
    assert_eq!(na.alive_cells(), nb.alive_cells());
    assert_eq!(live_set(&na), live_set(&nb));
    assert_eq!(na.alive_cells(), &vec![(2, 1), (2, 3), (3, 2), (3, 3), (4, 2)]);
}

#[test]
fn neighbor_report_lists_counts() {
    let w = seeded(5, 5, &[(1, 1), (1, 2), (1, 3), (2, 1), (2, 2)]);
    assert_eq!(
        w.neighbor_report(),
        vec![(1, 1, 3), (1, 2, 4), (1, 3, 2), (2, 1, 3), (2, 2, 4)]
    );
}
