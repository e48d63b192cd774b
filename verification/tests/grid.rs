use inverse_conway::{Conway, OutOfBounds};

fn filled(rows: usize, cols: usize, alive: &[(usize, usize)]) -> Conway {
    let mut grid = Conway::new(rows, cols);
    for &(row, col) in alive {
        grid.set(row, col, true).unwrap();
    }
    grid
}

#[test]
fn new_grid_is_all_dead() {
    let grid = Conway::new(2, 3);
    assert_eq!((grid.rows(), grid.cols()), (2, 3));
    for row in 0..2 {
        for col in 0..3 {
            assert_eq!(grid.get(row, col), Ok(false));
        }
    }
}

#[test]
fn empty_grid_has_one_value() {
    for k in [0, 1, 4, 17] {
        assert_eq!(Conway::new(0, k), Conway::new(0, 0));
        assert_eq!(Conway::new(k, 0), Conway::new(0, 0));
    }
    assert_eq!((Conway::new(0, 4).rows(), Conway::new(0, 4).cols()), (0, 0));
    assert_ne!(Conway::new(1, 1), Conway::new(0, 0));
}

#[test]
fn get_outside_the_grid_is_an_error() {
    let grid = Conway::new(2, 3);
    assert_eq!(grid.get(2, 0), Err(OutOfBounds));
    assert_eq!(grid.get(0, 3), Err(OutOfBounds));
    assert_eq!(grid.get(usize::MAX, usize::MAX), Err(OutOfBounds));
    assert_eq!(Conway::new(0, 0).get(0, 0), Err(OutOfBounds));
    assert_eq!(grid.get(1, 2), Ok(false));
}

#[test]
fn set_changes_one_cell() {
    let mut grid = Conway::new(2, 3);
    assert_eq!(grid.set(1, 2, true), Ok(()));
    for row in 0..2 {
        for col in 0..3 {
            assert_eq!(grid.get(row, col), Ok(row == 1 && col == 2));
        }
    }
    assert_eq!(grid.set(1, 2, false), Ok(()));
    assert_eq!(grid, Conway::new(2, 3));
}

#[test]
fn set_outside_the_grid_changes_nothing() {
    let mut grid = filled(2, 3, &[(0, 1)]);
    let before = grid.clone();
    assert_eq!(grid.set(2, 0, true), Err(OutOfBounds));
    assert_eq!(grid.set(0, 3, true), Err(OutOfBounds));
    assert_eq!(grid, before);
}

#[test]
fn grids_differ_by_size_and_by_cells() {
    assert_ne!(Conway::new(2, 3), Conway::new(3, 2));
    assert_ne!(filled(2, 2, &[(0, 0)]), filled(2, 2, &[(0, 1)]));
    assert_eq!(filled(2, 2, &[(0, 0), (1, 1)]), filled(2, 2, &[(1, 1), (0, 0)]));
}

#[test]
fn inflate_centres_the_grid() {
    let grid = filled(2, 3, &[(0, 0), (1, 2)]);
    let wide = grid.inflate(2);
    assert_eq!(wide, filled(6, 7, &[(2, 2), (3, 4)]));
    assert_eq!(grid, filled(2, 3, &[(0, 0), (1, 2)]));
    assert_eq!(grid.inflate(0), grid);
}

#[test]
fn inflate_of_the_empty_grid() {
    assert_eq!(Conway::new(0, 0).inflate(0), Conway::new(0, 0));
    assert_eq!(Conway::new(0, 0).inflate(2), Conway::new(4, 4));
}

#[test]
fn forward_by_zero_steps_is_the_grid() {
    let grid = filled(3, 3, &[(0, 0), (1, 1), (2, 0)]);
    assert_eq!(grid.forward(0), grid);
    assert_eq!(Conway::new(0, 0).forward(5), Conway::new(0, 0));
}

#[test]
fn forward_keeps_the_size() {
    let grid = filled(3, 5, &[(1, 1), (1, 2), (1, 3)]);
    for steps in 0..4 {
        let later = grid.forward(steps);
        assert_eq!((later.rows(), later.cols()), (3, 5));
    }
}

#[test]
fn forward_by_steps_is_forward_step_by_step() {
    let grid = filled(5, 5, &[(1, 2), (2, 3), (3, 1), (3, 2), (3, 3)]);
    assert_eq!(grid.forward(3), grid.forward(1).forward(1).forward(1));
    assert_eq!(grid.forward(5), grid.forward(2).forward(3));
}

#[test]
fn live_cell_survives_with_two_or_three_neighbours() {
    let two = filled(3, 3, &[(1, 1), (0, 0), (2, 2)]);
    assert_eq!(two.forward(1).get(1, 1), Ok(true));
    let three = filled(3, 3, &[(1, 1), (0, 0), (2, 2), (0, 2)]);
    assert_eq!(three.forward(1).get(1, 1), Ok(true));
}

#[test]
fn live_cell_dies_with_fewer_or_more_neighbours() {
    let none = filled(3, 3, &[(1, 1)]);
    assert_eq!(none.forward(1), Conway::new(3, 3));
    let one = filled(3, 3, &[(1, 1), (0, 0)]);
    assert_eq!(one.forward(1).get(1, 1), Ok(false));
    let four = filled(3, 3, &[(1, 1), (0, 0), (0, 2), (2, 0), (2, 2)]);
    assert_eq!(four.forward(1).get(1, 1), Ok(false));
}

#[test]
fn dead_cell_is_born_with_exactly_three_neighbours() {
    let three = filled(3, 3, &[(0, 0), (0, 2), (2, 1)]);
    assert_eq!(three.forward(1).get(1, 1), Ok(true));
    let two = filled(3, 3, &[(0, 0), (0, 2)]);
    assert_eq!(two.forward(1).get(1, 1), Ok(false));
    let four = filled(3, 3, &[(0, 0), (0, 2), (2, 0), (2, 2)]);
    assert_eq!(four.forward(1).get(1, 1), Ok(false));
}

#[test]
fn cells_beyond_the_edge_count_as_dead() {
    let row = filled(1, 3, &[(0, 0), (0, 1), (0, 2)]);
    assert_eq!(row.forward(1), filled(1, 3, &[(0, 1)]));
    let corner = filled(2, 2, &[(0, 0), (0, 1), (1, 0)]);
    assert_eq!(corner.forward(1), filled(2, 2, &[(0, 0), (0, 1), (1, 0), (1, 1)]));
}

#[test]
fn render_draws_one_row_per_line() {
    let grid = filled(2, 3, &[(0, 1), (1, 0), (1, 2)]);
    assert_eq!(grid.render(), "\u{25a1}\u{25a0}\u{25a1}\n\u{25a0}\u{25a1}\u{25a0}\n");
}

#[test]
fn render_of_the_empty_grid() {
    assert_eq!(Conway::new(0, 7).render(), "[]");
}
