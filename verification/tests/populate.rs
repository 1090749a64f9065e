use game_of_life::cell::Cell;
use game_of_life::universe::Universe;

/// A small linear congruential generator: the same draws on every run.
fn draws(seed: u64, n: usize) -> Vec<u64> {
    let mut state = seed;
    let mut out = Vec::with_capacity(n);
    for _ in 0..n {
        state = state.wrapping_mul(6364136223846793005).wrapping_add(1442695040888963407);
        // 53 random bits make a number in [0, 1).
        let x = (state >> 11) as f64 / (1u64 << 53) as f64;
        assert!((0.0..1.0).contains(&x));
        out.push(x.to_bits());
    }
    out
}

#[test]
fn populate_follows_the_draws() {
    let mut u = Universe::with_dimensions(3, 2).unwrap();
    let d = [
        0.1f64.to_bits(),
        0.9f64.to_bits(),
        0.5f64.to_bits(),
        0.0f64.to_bits(),
        0.499f64.to_bits(),
        0.75f64.to_bits(),
    ];
    u.populate(&d);
    let a = Cell::Alive;
    let x = Cell::Dead;
    assert_eq!(u.get_cells(), [a, x, x, a, a, x].as_slice());
    assert_eq!(u.get_cell(0, 0), Cell::Alive);
    assert_eq!(u.get_cell(1, 0), Cell::Alive);
    assert_eq!(u.get_cell(1, 1), Cell::Alive);
    assert_eq!(u.get_cell(1, 2), Cell::Dead);
}

#[test]
fn populate_forgets_what_was_there() {
    let mut u = Universe::with_dimensions(2, 2).unwrap();
    u.set_cells(&[(0, 0), (0, 1), (1, 0), (1, 1)]);
    u.populate(&[0.9f64.to_bits(); 4]);
    assert_eq!(u.get_cells(), [Cell::Dead; 4].as_slice());
    u.populate(&[0.1f64.to_bits(); 4]);
    assert_eq!(u.get_cells(), [Cell::Alive; 4].as_slice());
}

#[test]
fn populate_with_too_few_draws_leaves_the_rest_dead() {
    let mut u = Universe::with_dimensions(2, 2).unwrap();
    u.set_cells(&[(0, 0), (0, 1), (1, 0), (1, 1)]);
    u.populate(&[0.1f64.to_bits(), 0.2f64.to_bits()]);
    let a = Cell::Alive;
    let x = Cell::Dead;
    assert_eq!(u.get_cells(), [a, a, x, x].as_slice());
    u.populate(&[]);
    assert_eq!(u.get_cells(), [x, x, x, x].as_slice());
}

#[test]
fn populate_ignores_draws_beyond_the_last_cell() {
    let mut u = Universe::with_dimensions(2, 1).unwrap();
    u.populate(&[0.9f64.to_bits(), 0.1f64.to_bits(), 0.1f64.to_bits(), 0.1f64.to_bits()]);
    assert_eq!(u.get_cells(), [Cell::Dead, Cell::Alive].as_slice());
}

#[test]
fn populate_keeps_the_dimensions() {
    for (width, height) in [(1u32, 1u32), (3, 7), (64, 64), (192, 128)] {
        let mut u = Universe::with_dimensions(width, height).unwrap();
        u.set_size(9);
        u.populate(&draws(7, (width * height) as usize));
        assert_eq!(u.width(), width);
        assert_eq!(u.height(), height);
        assert_eq!(u.size(), 9);
        assert_eq!(u.get_cells().len(), (width * height) as usize);
        u.tick();
        assert_eq!((u.width(), u.height()), (width, height));
    }
}

#[test]
fn about_half_of_a_random_population_lives() {
    let n = 192 * 128;
    for seed in 1..=20u64 {
        let mut u = Universe::new();
        u.populate(&draws(seed, n));
        let alive = u.get_cells().iter().filter(|&&c| c == Cell::Alive).count();
        // Six standard deviations of a fair coin thrown 24576 times are 470.
        assert!(
            alive > n / 2 - 470 && alive < n / 2 + 470,
            "seed {}: {} of {} cells live",
            seed,
            alive,
            n
        );
    }
}
