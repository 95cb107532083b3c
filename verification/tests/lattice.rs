use std::collections::HashSet;

use ising::Grid;
use ising::Spin;

fn collect_spins(grid: &Grid) -> Vec<Spin> {
    let mut all: Vec<Spin> = Vec::new();
    for y in 0..grid.height() {
        for x in 0..grid.width() {
            all.push(grid.get(x as i64, y as i64));
        }
    }
    all
}

#[test]
fn test_new_random() {
    let width: usize = 50;
    let height: usize = 50;
    let grid = Grid::new_random(width, height);
    assert_eq!(grid.num_sites(), width * height);

    // Make sure that not all the spins are the same.
    let unique_spins = collect_spins(&grid).into_iter().collect::<HashSet<_>>();
    assert!(unique_spins.len() > 1);
}

#[test]
fn test_new_constant() {
    let width: usize = 50;
    let height: usize = 50;
    let grid = Grid::new_constant(width, height, Spin::Up);
    assert_eq!(grid.num_sites(), width * height);

    // Make sure that all the spins are the same.
    let unique_spins = collect_spins(&grid).into_iter().collect::<HashSet<_>>();
    assert_eq!(unique_spins.len(), 1);

    // Make sure that all the spins are the same as the one we set.
    let spin_value = *unique_spins.iter().next().unwrap();
    assert_eq!(spin_value, Spin::Up);
}

#[test]
fn test_get() {
    let width: usize = 50;
    let height: usize = 50;
    let mut grid = Grid::new_constant(width, height, Spin::Up);
    grid.set(0, 0, Spin::Down);

    // Test the periodic boundary conditions that get is using.
    assert_eq!(grid.get(0, 0), Spin::Down);
    assert_eq!(grid.get(50, 0), Spin::Down);
    assert_eq!(grid.get(0, 50), Spin::Down);
    assert_eq!(grid.get(500, 500), Spin::Down);
    assert_eq!(grid.get(-50, 0), Spin::Down);
}

#[test]
fn test_get_index() {
    let width: usize = 50;
    let height: usize = 50;
    let grid = Grid::new_constant(width, height, Spin::Up);

    // Test the periodic boundary conditions that get_index is using.
    assert_eq!(grid.get_index(0, 0), 0);
    assert_eq!(grid.get_index(50, 0), 0);
    assert_eq!(grid.get_index(3, 50), 3);
    assert_eq!(grid.get_index(500, 500), 0);
    assert_eq!(grid.get_index(-50, 0), 0);
    assert_eq!(grid.get_index(-1, 0), 49);
}

#[test]
fn test_set() {
    let width: usize = 50;
    let height: usize = 50;
    let mut grid = Grid::new_constant(width, height, Spin::Up);
    grid.set(65, 14, Spin::Down);
    grid.set(-1, 14, Spin::Down);

    assert_eq!(grid.get(15, 14), Spin::Down);
    assert_eq!(grid.get(49, 14), Spin::Down);
}

#[test]
fn test_flip() {
    assert_eq!(Spin::Up.flip(), Spin::Down);
    assert_eq!(Spin::Down.flip(), Spin::Up);
}

#[test]
fn test_flip_involution() {
    assert_eq!(Spin::Up.flip().flip(), Spin::Up);
    assert_eq!(Spin::Down.flip().flip(), Spin::Down);
}

#[test]
fn test_as_int() {
    assert_eq!(Spin::Up.as_int(), 1);
    assert_eq!(Spin::Down.as_int(), -1);
}

#[test]
fn test_periodicity() {
    let width: usize = 7;
    let height: usize = 5;
    let mut grid = Grid::new_constant(width, height, Spin::Up);
    grid.set(2, 3, Spin::Down);

    // Shifting either coordinate by whole periods, positive or negative,
    // reads the same site.
    assert_eq!(grid.get(2 + 3 * 7, 3), grid.get(2, 3));
    assert_eq!(grid.get(2 - 2 * 7, 3), grid.get(2, 3));
    assert_eq!(grid.get(2, 3 + 4 * 5), grid.get(2, 3));
    assert_eq!(grid.get(2, 3 - 5 * 5), grid.get(2, 3));
    assert_eq!(grid.get(2, 3), Spin::Down);
}

#[test]
fn test_set_leaves_other_sites() {
    let width: usize = 7;
    let height: usize = 5;
    let mut grid = Grid::new_constant(width, height, Spin::Up);
    grid.set(2, 3, Spin::Down);

    for y in 0..height {
        for x in 0..width {
            let expected = if x == 2 && y == 3 {
                Spin::Down
            } else {
                Spin::Up
            };
            assert_eq!(grid.get(x as i64, y as i64), expected);
        }
    }
}

#[test]
fn test_neighbor_sum_constant() {
    let width: usize = 50;
    let height: usize = 50;
    let grid = Grid::new_constant(width, height, Spin::Up);
    assert_eq!(grid.neighbor_sum(0, 0), 4);
    assert_eq!(grid.neighbor_sum(-1, 50), 4);
}

#[test]
fn test_interaction_sum_constant() {
    let width: usize = 50;
    let height: usize = 50;
    let grid = Grid::new_constant(width, height, Spin::Up);
    // All four neighbors align with the site, so the interaction factor is 4
    // and the interaction energy under coupling 1.0 is -4.0.
    assert_eq!(grid.interaction_sum(0, 0), 4);
    assert_eq!(-1.0_f64 * grid.interaction_sum(0, 0) as f64, -4.0);
}

#[test]
fn test_field_sum_constant() {
    let width: usize = 50;
    let height: usize = 50;
    let grid = Grid::new_constant(width, height, Spin::Up);
    // The field factor counts the site itself and its four neighbors.
    assert_eq!(grid.field_sum(0, 0), 5);
    assert_eq!(1.0_f64 * grid.field_sum(0, 0) as f64, 5.0);
}

#[test]
fn test_sums_single_site() {
    // On a 1x1 lattice every neighbor wraps to the site itself.
    let grid = Grid::new_constant(1, 1, Spin::Down);
    assert_eq!(grid.neighbor_sum(0, 0), -4);
    assert_eq!(grid.interaction_sum(0, 0), 4);
    assert_eq!(grid.field_sum(0, 0), -5);
}

#[test]
fn test_single_site_step_accept() {
    let width: usize = 50;
    let height: usize = 50;
    let mut grid = Grid::new_constant(width, height, Spin::Up);
    // Flipping one site of an aligned lattice changes the interaction factor
    // from 4 to -4 and the field factor from 5 to 3; an accepting verdict
    // leaves the flip in place.
    grid.single_site_step(0, 0, &|d_interaction: i64, d_field: i64| {
        d_interaction == -8 && d_field == -2
    });
    assert_eq!(grid.get(0, 0), Spin::Down);
    assert_eq!(grid.get(1, 0), Spin::Up);
    assert_eq!(grid.get(0, 1), Spin::Up);
}

#[test]
fn test_single_site_step_reject() {
    let width: usize = 50;
    let height: usize = 50;
    let mut grid = Grid::new_constant(width, height, Spin::Up);
    grid.single_site_step(0, 0, &|_d_interaction: i64, _d_field: i64| false);
    for y in 0..height {
        for x in 0..width {
            assert_eq!(grid.get(x as i64, y as i64), Spin::Up);
        }
    }
}

#[test]
fn test_step_preserves_shape() {
    let width: usize = 20;
    let height: usize = 30;
    let mut grid = Grid::new_random(width, height);
    grid.step(&|_d_interaction: i64, _d_field: i64| rand::random::<bool>());
    assert_eq!(grid.width(), width);
    assert_eq!(grid.height(), height);
    assert_eq!(grid.num_sites(), width * height);
}

#[test]
fn test_step_all_accepted() {
    let width: usize = 10;
    let height: usize = 10;
    let mut grid = Grid::new_constant(width, height, Spin::Up);
    // When every proposal is accepted, the sweep flips each site exactly once.
    grid.step(&|_d_interaction: i64, _d_field: i64| true);
    for y in 0..height {
        for x in 0..width {
            assert_eq!(grid.get(x as i64, y as i64), Spin::Down);
        }
    }
}
