use life_grid::cell::Cell;
use life_grid::grid::Grid;

fn alive(g: &Grid, x: i32, y: i32) -> bool {
    g.get_cell(x, y) == Cell::Alive
}

fn grid_with(width: u32, height: u32, live: &[(i32, i32)]) -> Grid {
    let mut g = Grid::new_dead(width, height);
    for &(x, y) in live {
        g.set_cell(x, y, Cell::Alive);
    }
    g
}

fn live_cells(g: &Grid) -> Vec<(i32, i32)> {
    let mut out = Vec::new();
    for y in 0..g.height() as i32 {
        for x in 0..g.width() as i32 {
            if alive(g, x, y) {
                out.push((x, y));
            }
        }
    }
    out
}

#[test]
fn new_dead_grid_is_all_dead() {
    let g = Grid::new_dead(4, 3);
    assert_eq!(g.width(), 4);
    assert_eq!(g.height(), 3);
    for y in 0..3 {
        for x in 0..4 {
            assert_eq!(g.get_cell(x, y), Cell::Dead);
        }
    }
}

#[test]
fn random_grid_has_requested_dimensions_and_is_readable() {
    let mut g = Grid::new(10, 7);
    assert_eq!(g.width(), 10);
    assert_eq!(g.height(), 7);
    for y in 0..7 {
        for x in 0..10 {
            let _ = g.get_cell(x, y);
        }
    }
    g.step();
    g.step();
}

#[test]
fn periodicity_one_period_each_way() {
    let g = grid_with(4, 3, &[(0, 0), (1, 2), (3, 1)]);
    for y in 0..3 {
        for x in 0..4 {
            let here = g.get_cell(x, y);
            assert_eq!(g.get_cell(x + 4, y), here);
            assert_eq!(g.get_cell(x - 4, y), here);
            assert_eq!(g.get_cell(x, y + 3), here);
            assert_eq!(g.get_cell(x, y - 3), here);
            assert_eq!(g.get_cell(x + 4, y + 3), here);
            assert_eq!(g.get_cell(x - 4, y - 3), here);
            assert_eq!(g.get_cell(x + 4, y - 3), here);
            assert_eq!(g.get_cell(x - 4, y + 3), here);
        }
    }
}

#[test]
fn set_cell_wraps_around_the_sides() {
    let mut g = Grid::new_dead(4, 3);
    g.set_cell(-1, -1, Cell::Alive);
    assert!(alive(&g, 3, 2));
    let mut g2 = Grid::new_dead(4, 3);
    g2.set_cell(4, 3, Cell::Alive);
    assert!(alive(&g2, 0, 0));
}

#[test]
fn bit_isolation_within_and_across_bytes() {
    // 16 cells span two storage bytes; touching one cell must leave every
    // other cell as it was.
    let mut g = Grid::new_dead(4, 4);
    g.set_cell(1, 1, Cell::Alive);
    for y in 0..4 {
        for x in 0..4 {
            assert_eq!(alive(&g, x, y), (x, y) == (1, 1));
        }
    }
    g.set_cell(2, 3, Cell::Alive);
    for y in 0..4 {
        for x in 0..4 {
            assert_eq!(alive(&g, x, y), (x, y) == (1, 1) || (x, y) == (2, 3));
        }
    }
    g.set_cell(1, 1, Cell::Dead);
    for y in 0..4 {
        for x in 0..4 {
            assert_eq!(alive(&g, x, y), (x, y) == (2, 3));
        }
    }
}

#[test]
fn still_life_block_is_unchanged() {
    // Each cell of a 2x2 block has exactly 3 live neighbours, every other
    // cell at most 2, so the block is a still life.
    let block = [(2, 2), (3, 2), (2, 3), (3, 3)];
    let mut g = grid_with(6, 6, &block);
    let before = live_cells(&g);
    g.step();
    assert_eq!(live_cells(&g), before);
    g.step();
    assert_eq!(live_cells(&g), before);
}

#[test]
fn birth_with_exactly_three_neighbours() {
    let mut g = grid_with(5, 5, &[(1, 1), (2, 1), (1, 2)]);
    assert!(!alive(&g, 2, 2));
    g.step();
    assert!(alive(&g, 2, 2));
}

#[test]
fn isolated_cell_dies() {
    let mut g = grid_with(5, 5, &[(2, 2)]);
    g.step();
    assert_eq!(live_cells(&g), Vec::new());
}

#[test]
fn single_cell_grid_dies_of_overcrowding_by_itself() {
    // On a 1x1 torus all eight neighbour offsets wrap back onto the cell
    // itself, so a live cell sees eight live neighbours and dies.
    let mut g = grid_with(1, 1, &[(0, 0)]);
    g.step();
    assert!(!alive(&g, 0, 0));
    g.step();
    assert!(!alive(&g, 0, 0));
}

#[test]
fn blinker_oscillates_with_period_two() {
    let mut g = grid_with(5, 5, &[(1, 0), (1, 1), (1, 2)]);
    let start = live_cells(&g);
    g.step();
    assert_eq!(live_cells(&g), vec![(0, 1), (1, 1), (2, 1)]);
    g.step();
    assert_eq!(live_cells(&g), start);
}

#[test]
fn glider_advances_to_the_textbook_next_state() {
    // A glider stepped naively in place (deciding a cell from already
    // rewritten neighbours) would corrupt; the pre-step snapshot must give
    // exactly the textbook transition.
    let mut g = grid_with(5, 5, &[(1, 0), (2, 1), (0, 2), (1, 2), (2, 2)]);
    g.step();
    assert_eq!(live_cells(&g), vec![(0, 1), (2, 1), (1, 2), (2, 2), (1, 3)]);
}

#[test]
fn identical_grids_stay_identical_for_many_steps() {
    let pattern = [(1, 0), (2, 1), (0, 2), (1, 2), (2, 2), (5, 4)];
    let mut a = grid_with(6, 5, &pattern);
    let mut b = grid_with(6, 5, &pattern);
    for _ in 0..8 {
        a.step();
        b.step();
        assert_eq!(live_cells(&a), live_cells(&b));
    }
}
