use game_of_life::cell::Cell;
use game_of_life::error::{GridError, MAX_CELLS};
use game_of_life::universe::Universe;

fn universe(width: u32, height: u32) -> Universe {
    Universe::with_dimensions(width, height).unwrap()
}

fn live_cells(universe: &Universe) -> Vec<(u32, u32)> {
    let mut cells = Vec::new();
    for row in 0..universe.height() {
        for col in 0..universe.width() {
            if universe.get_cell(row, col) == Cell::Alive {
                cells.push((row, col));
            }
        }
    }
    cells
}

#[test]
fn test_spaceship() {
    let mut input_universe = Universe::new();
    input_universe.set_width(6).unwrap();
    input_universe.set_height(6).unwrap();
    input_universe.set_cells(&[(1, 2), (2, 3), (3, 1), (3, 2), (3, 3)]);

    let mut expected_universe = Universe::new();
    expected_universe.set_width(6).unwrap();
    expected_universe.set_height(6).unwrap();
    expected_universe.set_cells(&[(2, 1), (2, 3), (3, 2), (3, 3), (4, 2)]);

    println!("input universe before tick:");
    println!("{}", input_universe.render_to_string());
    input_universe.tick();
    println!("\ninput universe:");
    println!("{}", input_universe.render_to_string());
    println!("\nexpected universe:");
    println!("{}", expected_universe.render_to_string());
    assert_eq!(&input_universe.get_cells(), &expected_universe.get_cells());
}

#[test]
fn new_universe_has_default_dimensions_and_no_life() {
    let u = Universe::new();
    assert_eq!(u.width(), 192);
    assert_eq!(u.height(), 128);
    assert_eq!(u.size(), 5);
    assert_eq!(u.get_cells().len(), 192 * 128);
    assert!(u.get_cells().iter().all(|&c| c == Cell::Dead));
}

#[test]
fn with_dimensions_makes_a_dead_grid() {
    let u = universe(7, 3);
    assert_eq!(u.width(), 7);
    assert_eq!(u.height(), 3);
    assert_eq!(u.get_cells(), vec![Cell::Dead; 21].as_slice());
}

#[test]
fn zero_width_or_height_is_refused() {
    assert_eq!(Universe::with_dimensions(0, 5).err(), Some(GridError::ZeroArea));
    assert_eq!(Universe::with_dimensions(5, 0).err(), Some(GridError::ZeroArea));
    assert_eq!(Universe::with_dimensions(0, 0).err(), Some(GridError::ZeroArea));
}

#[test]
fn too_many_cells_are_refused() {
    assert_eq!(Universe::with_dimensions(65536, 65536).err(), Some(GridError::TooLarge));
    assert_eq!(Universe::with_dimensions(u32::MAX, 2).err(), Some(GridError::TooLarge));
    assert_eq!(Universe::with_dimensions(u32::MAX, u32::MAX).err(), Some(GridError::TooLarge));
    // 65536 * 32768 is one more than the most cells a universe can hold.
    assert_eq!(Universe::with_dimensions(65536, 32768).err(), Some(GridError::TooLarge));
    assert_eq!(Universe::with_dimensions(1, 0x8000_0000).err(), Some(GridError::TooLarge));
}

#[test]
fn max_cells_is_the_largest_buffer_of_a_32_bit_machine() {
    assert_eq!(MAX_CELLS, i32::MAX as u64);
}

#[test]
fn error_messages() {
    assert_eq!(
        GridError::ZeroArea.message(),
        "the universe needs at least one row and one column"
    );
    assert_eq!(GridError::TooLarge.message(), "the universe cannot hold that many cells");
}

#[test]
fn glider_moves_one_step_on_a_torus_of_six() {
    let mut u = universe(6, 6);
    u.set_cells(&[(1, 2), (2, 3), (3, 1), (3, 2), (3, 3)]);
    assert_eq!(live_cells(&u), vec![(1, 2), (2, 3), (3, 1), (3, 2), (3, 3)]);
    u.tick();
    assert_eq!(live_cells(&u), vec![(2, 1), (2, 3), (3, 2), (3, 3), (4, 2)]);
    u.tick();
    assert_eq!(live_cells(&u), vec![(2, 3), (3, 1), (3, 3), (4, 2), (4, 3)]);
    u.tick();
    assert_eq!(live_cells(&u), vec![(2, 2), (3, 3), (3, 4), (4, 2), (4, 3)]);
    u.tick();
    assert_eq!(live_cells(&u), vec![(2, 3), (3, 4), (4, 2), (4, 3), (4, 4)]);
}

#[test]
fn glider_crosses_the_edge() {
    let mut u = universe(6, 6);
    u.set_cells(&[(1, 2), (2, 3), (3, 1), (3, 2), (3, 3)]);
    for _ in 0..24 {
        u.tick();
    }
    // Twenty-four generations move the glider six cells down and six to the
    // right: once around the torus.
    assert_eq!(live_cells(&u), vec![(1, 2), (2, 3), (3, 1), (3, 2), (3, 3)]);
}

#[test]
fn tick_reads_only_the_generation_before() {
    // A row of three across the left edge: in place updates would spoil the
    // counts of the cells that come later in memory.
    let mut u = universe(5, 5);
    u.set_cells(&[(2, 4), (2, 0), (2, 1)]);
    u.tick();
    assert_eq!(live_cells(&u), vec![(1, 0), (2, 0), (3, 0)]);
    u.tick();
    assert_eq!(live_cells(&u), vec![(2, 0), (2, 1), (2, 4)]);
}

#[test]
fn corner_cell_counts_its_neighbors_across_the_edges() {
    for n in [3u32, 4, 5, 8] {
        let around = [
            (n - 1, n - 1),
            (n - 1, 0),
            (n - 1, 1),
            (0, n - 1),
            (0, 1),
            (1, n - 1),
            (1, 0),
            (1, 1),
        ];
        let mut all = universe(n, n);
        all.set_cells(&around);
        assert_eq!(all.live_neighbor_count(0, 0), 8);
        for &(row, col) in around.iter() {
            let mut one = universe(n, n);
            one.set_cells(&[(row, col)]);
            assert_eq!(one.live_neighbor_count(0, 0), 1, "n = {}, cell ({}, {})", n, row, col);
        }
        // The cell itself is not one of its neighbours.
        let mut own = universe(n, n);
        own.set_cells(&[(0, 0)]);
        assert_eq!(own.live_neighbor_count(0, 0), 0);
    }
}

#[test]
fn far_cells_are_no_neighbors() {
    let mut u = universe(5, 5);
    u.set_cells(&[(2, 2), (0, 2), (2, 0), (3, 3)]);
    assert_eq!(u.live_neighbor_count(0, 0), 0);
}

#[test]
fn neighbor_count_on_small_tori() {
    // On a torus of one cell the cell is all eight of its own neighbours.
    let mut one = universe(1, 1);
    assert_eq!(one.live_neighbor_count(0, 0), 0);
    one.set_cells(&[(0, 0)]);
    assert_eq!(one.live_neighbor_count(0, 0), 8);
    // On two by two the other cells are met several times.
    let mut two = universe(2, 2);
    two.set_cells(&[(1, 1)]);
    assert_eq!(two.live_neighbor_count(0, 0), 4);
    assert_eq!(two.live_neighbor_count(0, 1), 2);
    assert_eq!(two.live_neighbor_count(1, 0), 2);
    assert_eq!(two.live_neighbor_count(1, 1), 0);
}

#[test]
fn neighbor_count_wraps_its_coordinates() {
    let mut u = universe(4, 3);
    u.set_cells(&[(0, 1), (1, 1), (2, 3)]);
    for row in 0..3 {
        for col in 0..4 {
            assert_eq!(
                u.live_neighbor_count(row + 3 * 5, col + 4 * 7),
                u.live_neighbor_count(row, col)
            );
        }
    }
    assert_eq!(u.live_neighbor_count(u32::MAX, u32::MAX), u.live_neighbor_count(0, 3));
}

#[test]
fn dead_universe_stays_dead() {
    let mut u = universe(9, 4);
    for _ in 0..10 {
        u.tick();
        assert!(u.get_cells().iter().all(|&c| c == Cell::Dead));
    }
    assert_eq!(u.width(), 9);
    assert_eq!(u.height(), 4);
}

#[test]
fn lone_cell_dies() {
    let mut u = universe(5, 5);
    u.set_cells(&[(2, 2)]);
    u.tick();
    assert_eq!(live_cells(&u), vec![]);
}

#[test]
fn crowded_cell_dies_and_empty_place_is_born() {
    // A plus sign: the centre has four neighbours and dies, the corners
    // have three and are born.
    let mut u = universe(7, 7);
    u.set_cells(&[(2, 3), (3, 2), (3, 3), (3, 4), (4, 3)]);
    u.tick();
    assert_eq!(
        live_cells(&u),
        vec![(2, 2), (2, 3), (2, 4), (3, 2), (3, 4), (4, 2), (4, 3), (4, 4)]
    );
}

#[test]
fn set_cells_wraps_and_keeps_the_rest() {
    let mut u = universe(4, 3);
    u.set_cells(&[(1, 1)]);
    u.set_cells(&[(3, 4), (5, 6), (2, 3)]);
    // (3, 4) is (0, 0); (5, 6) is (2, 2).
    assert_eq!(live_cells(&u), vec![(0, 0), (1, 1), (2, 2), (2, 3)]);
    u.set_cells(&[]);
    assert_eq!(live_cells(&u), vec![(0, 0), (1, 1), (2, 2), (2, 3)]);
    u.set_cells(&[(1, 1), (1, 1)]);
    assert_eq!(live_cells(&u), vec![(0, 0), (1, 1), (2, 2), (2, 3)]);
    u.set_cells(&[(u32::MAX, u32::MAX)]);
    // 4294967295 is 0 modulo 3 and 3 modulo 4.
    assert_eq!(live_cells(&u), vec![(0, 0), (0, 3), (1, 1), (2, 2), (2, 3)]);
}

#[test]
fn get_cell_wraps() {
    let mut u = universe(4, 3);
    u.set_cells(&[(2, 1)]);
    assert_eq!(u.get_cell(2, 1), Cell::Alive);
    assert_eq!(u.get_cell(5, 5), Cell::Alive);
    assert_eq!(u.get_cell(2 + 3 * 1000, 1 + 4 * 1000), Cell::Alive);
    assert_eq!(u.get_cell(1, 2), Cell::Dead);
    assert_eq!(u.get_cell(3, 1), Cell::Dead);
}

#[test]
fn get_cells_is_row_major() {
    let mut u = universe(3, 2);
    u.set_cells(&[(0, 1), (1, 2)]);
    let d = Cell::Dead;
    let a = Cell::Alive;
    assert_eq!(u.get_cells(), [d, a, d, d, d, a].as_slice());
}

#[test]
fn toggle_cell_flips_one_cell() {
    let mut u = universe(4, 4);
    u.toggle_cell(1, 2);
    assert_eq!(live_cells(&u), vec![(1, 2)]);
    u.toggle_cell(3, 3);
    assert_eq!(live_cells(&u), vec![(1, 2), (3, 3)]);
    u.toggle_cell(1, 2);
    assert_eq!(live_cells(&u), vec![(3, 3)]);
    // Out of range coordinates wrap around.
    u.toggle_cell(7, 7);
    assert_eq!(live_cells(&u), vec![]);
    u.toggle_cell(4, 9);
    assert_eq!(live_cells(&u), vec![(0, 1)]);
}

#[test]
fn clear_cells_kills_a_rectangle() {
    let mut u = universe(5, 4);
    let all: Vec<(u32, u32)> = (0..4).flat_map(|r| (0..5).map(move |c| (r, c))).collect();
    u.set_cells(&all);
    // Two rows from row 1, three columns from column 1.
    u.clear_cells(1, 1, 3, 2);
    let expected: Vec<(u32, u32)> = all
        .iter()
        .cloned()
        .filter(|&(r, c)| !((r == 1 || r == 2) && (1..=3).contains(&c)))
        .collect();
    assert_eq!(live_cells(&u), expected);
}

#[test]
fn clear_cells_wraps_around_the_edges() {
    let mut u = universe(5, 4);
    let all: Vec<(u32, u32)> = (0..4).flat_map(|r| (0..5).map(move |c| (r, c))).collect();
    u.set_cells(&all);
    // Rows 3 and 0, columns 4 and 0.
    u.clear_cells(3, 4, 2, 2);
    let expected: Vec<(u32, u32)> = all
        .iter()
        .cloned()
        .filter(|&(r, c)| !((r == 3 || r == 0) && (c == 4 || c == 0)))
        .collect();
    assert_eq!(live_cells(&u), expected);
    // A start out of range names the same rectangle.
    let mut v = universe(5, 4);
    v.set_cells(&all);
    v.clear_cells(3 + 4 * 3, 4 + 5 * 2, 2, 2);
    assert_eq!(live_cells(&v), expected);
}

#[test]
fn clear_cells_of_no_extent_changes_nothing() {
    let mut u = universe(3, 3);
    u.set_cells(&[(0, 0), (1, 1), (2, 2)]);
    u.clear_cells(0, 0, 0, 3);
    assert_eq!(live_cells(&u), vec![(0, 0), (1, 1), (2, 2)]);
    u.clear_cells(0, 0, 3, 0);
    assert_eq!(live_cells(&u), vec![(0, 0), (1, 1), (2, 2)]);
}

#[test]
fn clear_cells_larger_than_the_grid_kills_everything() {
    let mut u = universe(3, 3);
    u.set_cells(&[(0, 0), (1, 1), (2, 2)]);
    u.clear_cells(1, 2, 7, 5);
    assert_eq!(live_cells(&u), vec![]);
}

#[test]
fn destroy_all_life_leaves_nothing() {
    let mut u = universe(6, 5);
    u.set_cells(&[(0, 0), (1, 3), (4, 5), (2, 2)]);
    u.destroy_all_life();
    assert!(u.get_cells().iter().all(|&c| c == Cell::Dead));
    assert_eq!((u.width(), u.height()), (6, 5));
}

#[test]
fn resize_resets_every_cell() {
    let mut u = universe(6, 5);
    u.set_cells(&[(0, 0), (1, 3), (4, 5), (2, 2)]);
    u.toggle_cell(3, 3);
    u.tick();
    u.seed_population(2, 2, String::from("glider"), false, false, false);
    assert_eq!(u.resize(4, 9), Ok(()));
    assert_eq!((u.width(), u.height()), (4, 9));
    assert_eq!(u.get_cells(), vec![Cell::Dead; 36].as_slice());
    // The scratch buffer follows: a tick works on the new dimensions.
    u.set_cells(&[(0, 0), (0, 1), (0, 2)]);
    u.tick();
    assert_eq!(live_cells(&u), vec![(0, 1), (1, 1), (8, 1)]);
}

#[test]
fn resize_to_the_same_dimensions_still_resets() {
    let mut u = universe(3, 3);
    u.set_cells(&[(1, 1)]);
    assert_eq!(u.resize(3, 3), Ok(()));
    assert_eq!(live_cells(&u), vec![]);
}

#[test]
fn set_width_and_set_height_reset_every_cell() {
    let mut u = universe(6, 5);
    u.set_cells(&[(0, 0), (1, 3)]);
    assert_eq!(u.set_width(3), Ok(()));
    assert_eq!((u.width(), u.height()), (3, 5));
    assert_eq!(u.get_cells(), vec![Cell::Dead; 15].as_slice());
    u.set_cells(&[(0, 0), (1, 2)]);
    assert_eq!(u.set_height(2), Ok(()));
    assert_eq!((u.width(), u.height()), (3, 2));
    assert_eq!(u.get_cells(), vec![Cell::Dead; 6].as_slice());
}

#[test]
fn refused_resize_changes_nothing() {
    let mut u = universe(3, 2);
    u.set_cells(&[(0, 1), (1, 2)]);
    let before: Vec<Cell> = u.get_cells().to_vec();
    assert_eq!(u.resize(0, 4), Err(GridError::ZeroArea));
    assert_eq!(u.resize(4, 0), Err(GridError::ZeroArea));
    assert_eq!(u.resize(65536, 65536), Err(GridError::TooLarge));
    assert_eq!(u.set_width(0), Err(GridError::ZeroArea));
    assert_eq!(u.set_height(0), Err(GridError::ZeroArea));
    assert_eq!(u.set_width(u32::MAX), Err(GridError::TooLarge));
    assert_eq!(u.set_height(u32::MAX), Err(GridError::TooLarge));
    assert_eq!((u.width(), u.height()), (3, 2));
    assert_eq!(u.get_cells(), before.as_slice());
    u.tick();
    assert_eq!((u.width(), u.height()), (3, 2));
}

#[test]
fn set_size_keeps_the_low_byte() {
    let mut u = universe(3, 3);
    assert_eq!(u.size(), 5);
    u.set_size(9);
    assert_eq!(u.size(), 9);
    u.set_size(255);
    assert_eq!(u.size(), 255);
    u.set_size(256);
    assert_eq!(u.size(), 0);
    u.set_size(261);
    assert_eq!(u.size(), 5);
    u.set_size(u32::MAX);
    assert_eq!(u.size(), 255);
}

#[test]
fn set_size_leaves_the_cells() {
    let mut u = universe(3, 3);
    u.set_cells(&[(1, 1)]);
    u.set_size(12);
    assert_eq!(live_cells(&u), vec![(1, 1)]);
}

#[test]
fn canvas_extents() {
    let mut u = Universe::new();
    assert_eq!(u.canvas_width(), 6 * 192 + 1);
    assert_eq!(u.canvas_height(), 6 * 128 + 1);
    u.set_size(0);
    assert_eq!(u.canvas_width(), 193);
    u.resize(7, 1).unwrap();
    u.set_size(255);
    assert_eq!(u.canvas_width(), 256 * 7 + 1);
    assert_eq!(u.canvas_height(), 257);
}

#[test]
fn render_to_string_draws_rows_of_squares() {
    let mut u = universe(3, 2);
    u.set_cells(&[(0, 1), (1, 2)]);
    assert_eq!(
        u.render_to_string(),
        "\u{25FB}\u{25FC}\u{25FB}\n\u{25FB}\u{25FB}\u{25FC}\n"
    );
    let v = universe(1, 1);
    assert_eq!(v.render_to_string(), "\u{25FB}\n");
}

/// The next generation worked out the long way, with signed arithmetic.
fn next_generation(width: i64, height: i64, alive: &[bool]) -> Vec<bool> {
    let at = |row: i64, col: i64| -> bool {
        let r = row.rem_euclid(height);
        let c = col.rem_euclid(width);
        alive[(r * width + c) as usize]
    };
    let mut next = Vec::with_capacity(alive.len());
    for row in 0..height {
        for col in 0..width {
            let mut count = 0;
            for dr in [-1i64, 0, 1] {
                for dc in [-1i64, 0, 1] {
                    if (dr, dc) != (0, 0) && at(row + dr, col + dc) {
                        count += 1;
                    }
                }
            }
            next.push(if at(row, col) { count == 2 || count == 3 } else { count == 3 });
        }
    }
    next
}

#[test]
fn tick_agrees_with_the_rule_on_many_grids() {
    let mut state = 0x2545_F491_4F6C_DD1Du64;
    for (width, height) in [(1u32, 1u32), (1, 2), (2, 1), (2, 2), (1, 7), (7, 1), (3, 3), (5, 4), (9, 13)]
    {
        for _ in 0..20 {
            let mut u = universe(width, height);
            let mut alive = Vec::new();
            for row in 0..height {
                for col in 0..width {
                    state ^= state << 13;
                    state ^= state >> 7;
                    state ^= state << 17;
                    let lives = state % 3 == 0;
                    alive.push(lives);
                    if lives {
                        u.toggle_cell(row, col);
                    }
                }
            }
            for generation in 0..5 {
                let expected = next_generation(width as i64, height as i64, &alive);
                u.tick();
                let got: Vec<bool> = u.get_cells().iter().map(|&c| c == Cell::Alive).collect();
                assert_eq!(got, expected, "{}x{}, generation {}", width, height, generation);
                alive = expected;
            }
        }
    }
}
