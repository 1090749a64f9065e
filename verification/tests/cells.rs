use game_of_life::cell::{Cell, HALF_BITS};
use game_of_life::ring::{wrapping_difference, wrapping_sum};

#[test]
fn live_cell_with_fewer_than_two_neighbors_dies() {
    assert_eq!(Cell::Alive.evolve(0), Cell::Dead);
    assert_eq!(Cell::Alive.evolve(1), Cell::Dead);
}

#[test]
fn live_cell_with_two_or_three_neighbors_lives_on() {
    assert_eq!(Cell::Alive.evolve(2), Cell::Alive);
    assert_eq!(Cell::Alive.evolve(3), Cell::Alive);
}

#[test]
fn live_cell_with_more_than_three_neighbors_dies() {
    for n in 4..=8 {
        assert_eq!(Cell::Alive.evolve(n), Cell::Dead);
    }
}

#[test]
fn dead_cell_with_exactly_three_neighbors_is_born() {
    assert_eq!(Cell::Dead.evolve(3), Cell::Alive);
}

#[test]
fn dead_cell_stays_dead_otherwise() {
    for n in [0u8, 1, 2, 4, 5, 6, 7, 8] {
        assert_eq!(Cell::Dead.evolve(n), Cell::Dead);
    }
}

#[test]
fn toggle_flips_the_cell() {
    let mut cell = Cell::Dead;
    cell.toggle();
    assert_eq!(cell, Cell::Alive);
    cell.toggle();
    assert_eq!(cell, Cell::Dead);
}

#[test]
fn count_is_one_for_a_live_cell() {
    assert_eq!(Cell::Alive.count(), 1);
    assert_eq!(Cell::Dead.count(), 0);
}

#[test]
fn half_bits_is_the_pattern_of_one_half() {
    assert_eq!(HALF_BITS, 0.5f64.to_bits());
}

#[test]
fn draw_below_one_half_gives_a_live_cell() {
    assert_eq!(Cell::from_draw(0.0f64.to_bits()), Cell::Alive);
    assert_eq!(Cell::from_draw(0.25f64.to_bits()), Cell::Alive);
    assert_eq!(Cell::from_draw(0.499_999_999f64.to_bits()), Cell::Alive);
    assert_eq!(Cell::from_draw(f64::MIN_POSITIVE.to_bits()), Cell::Alive);
    assert_eq!(Cell::from_draw(HALF_BITS - 1), Cell::Alive);
}

#[test]
fn draw_of_one_half_or_more_gives_a_dead_cell() {
    assert_eq!(Cell::from_draw(0.5f64.to_bits()), Cell::Dead);
    assert_eq!(Cell::from_draw(0.500_000_001f64.to_bits()), Cell::Dead);
    assert_eq!(Cell::from_draw(0.75f64.to_bits()), Cell::Dead);
    assert_eq!(Cell::from_draw(0.999_999_999f64.to_bits()), Cell::Dead);
    assert_eq!(Cell::from_draw(HALF_BITS), Cell::Dead);
}

#[test]
fn from_draw_agrees_with_the_comparison_of_the_numbers() {
    // Over [0, 1) the order of the bit patterns is the order of the numbers.
    let mut x = 0.0f64;
    while x < 1.0 {
        let expected = if x < 0.5 { Cell::Alive } else { Cell::Dead };
        assert_eq!(Cell::from_draw(x.to_bits()), expected, "draw {}", x);
        x += 0.001_953_125;
    }
}

#[test]
fn wrapping_sum_goes_around_the_ring() {
    assert_eq!(wrapping_sum(0, 0, 5), 0);
    assert_eq!(wrapping_sum(3, 1, 5), 4);
    assert_eq!(wrapping_sum(3, 2, 5), 0);
    assert_eq!(wrapping_sum(4, 13, 5), 2);
    assert_eq!(wrapping_sum(17, 0, 5), 2);
    assert_eq!(wrapping_sum(0, 0, 1), 0);
    assert_eq!(wrapping_sum(9, 9, 1), 0);
    // 4294967295 + 4294967295 = 8589934590 = 7 * 1227133512 + 6
    assert_eq!(wrapping_sum(u32::MAX, u32::MAX, 7), 6);
    assert_eq!(wrapping_sum(u32::MAX, 1, u32::MAX), 1);
}

#[test]
fn wrapping_difference_goes_around_the_ring() {
    assert_eq!(wrapping_difference(3, 1, 5), 2);
    assert_eq!(wrapping_difference(0, 1, 5), 4);
    assert_eq!(wrapping_difference(1, 6, 5), 0);
    assert_eq!(wrapping_difference(1, 13, 5), 3);
    assert_eq!(wrapping_difference(12, 0, 5), 2);
    assert_eq!(wrapping_difference(0, 0, 1), 0);
    assert_eq!(wrapping_difference(0, u32::MAX, u32::MAX), 0);
    // -4294967295 = 7 * (-613566757) + 4
    assert_eq!(wrapping_difference(0, u32::MAX, 7), 4);
    assert_eq!(wrapping_difference(u32::MAX, u32::MAX, 7), 0);
}
