use p2life::cell::{Cell, DrawCommand, Occupant};
use p2life::grid::{check_layout, grid_init, Grid, GridError, Outcome};

const A: Occupant = Occupant::PlayerA;
const B: Occupant = Occupant::PlayerB;
const E: Occupant = Occupant::Empty;

fn grid_with(rows: u32, cols: u32, a: &[(usize, usize)], b: &[(usize, usize)]) -> Grid {
    let mut grid = Grid::create(rows, cols);
    for &(r, c) in a {
        assert_eq!(grid.set_occupant(r, c, A), Ok(()));
    }
    for &(r, c) in b {
        assert_eq!(grid.set_occupant(r, c, B), Ok(()));
    }
    grid
}

fn occupants(grid: &Grid) -> Vec<Vec<Occupant>> {
    let mut all = Vec::new();
    for r in 0..grid.rows() {
        let mut row = Vec::new();
        for c in 0..grid.cols() {
            row.push(grid.occupant(r, c).unwrap());
        }
        all.push(row);
    }
    all
}

fn exchanged(all: &Vec<Vec<Occupant>>) -> Vec<Vec<Occupant>> {
    all.iter().map(|row| row.iter().map(|o| o.opponent()).collect()).collect()
}

#[test]
fn cell_new_keeps_its_arguments() {
    let cell = Cell::new(4, 7, B);
    assert_eq!(cell.row, 4);
    assert_eq!(cell.col, 7);
    assert_eq!(cell.occupant, B);
}

#[test]
fn cell_draw_outlines_empty_and_fills_owned() {
    assert_eq!(Cell::new(1, 2, E).draw(), DrawCommand::Outline { row: 1, col: 2 });
    assert_eq!(Cell::new(1, 2, A).draw(), DrawCommand::Fill { row: 1, col: 2, owner: A });
    assert_eq!(Cell::new(0, 5, B).draw(), DrawCommand::Fill { row: 0, col: 5, owner: B });
}

#[test]
fn create_gives_an_empty_grid_of_the_asked_size() {
    let grid = Grid::create(4, 6);
    assert_eq!(grid.rows(), 4);
    assert_eq!(grid.cols(), 6);
    for r in 0..4 {
        for c in 0..6 {
            assert_eq!(grid.occupant(r, c), Ok(E));
        }
    }
    assert_eq!(grid.count_occupants(), (0, 0));
}

#[test]
fn create_without_rows_or_columns() {
    let none = Grid::create(0, 5);
    assert_eq!(none.rows(), 0);
    assert_eq!(none.cols(), 0);
    let flat = Grid::create(3, 0);
    assert_eq!(flat.rows(), 3);
    assert_eq!(flat.cols(), 0);
    assert_eq!(flat.occupant(0, 0), Err(GridError::OutOfBounds));
    assert_eq!(flat.draw(), vec![]);
}

#[test]
fn new_takes_rows_of_cells() {
    let cells = vec![
        vec![Cell::new(0, 0, A), Cell::new(0, 1, E)],
        vec![Cell::new(1, 0, B), Cell::new(1, 1, A)],
    ];
    assert!(check_layout(&cells));
    let grid = Grid::new(cells);
    assert_eq!(occupants(&grid), vec![vec![A, E], vec![B, A]]);
    assert_eq!(grid.count_occupants(), (2, 1));
}

#[test]
fn check_layout_refuses_what_is_no_grid() {
    let ragged = vec![vec![Cell::new(0, 0, A), Cell::new(0, 1, E)], vec![Cell::new(1, 0, B)]];
    assert!(!check_layout(&ragged));
    let misplaced = vec![vec![Cell::new(0, 0, A), Cell::new(0, 0, E)]];
    assert!(!check_layout(&misplaced));
    let wrong_row = vec![vec![Cell::new(0, 0, A)], vec![Cell::new(0, 0, A)]];
    assert!(!check_layout(&wrong_row));
    let empty: Vec<Vec<Cell>> = vec![];
    assert!(check_layout(&empty));
}

#[test]
fn grid_init_covers_the_surface_with_one_cell_to_spare() {
    let grid = grid_init(800, 600);
    assert_eq!((grid.rows(), grid.cols()), (11, 9));
    let grid = grid_init(0, 0);
    assert_eq!((grid.rows(), grid.cols()), (1, 1));
    let grid = grid_init(75, 74);
    assert_eq!((grid.rows(), grid.cols()), (2, 1));
    let grid = grid_init(149, 150);
    assert_eq!((grid.rows(), grid.cols()), (2, 3));
    assert_eq!(grid.count_occupants(), (0, 0));
}

#[test]
fn set_occupant_overwrites_one_cell_only() {
    let mut grid = Grid::create(3, 3);
    assert_eq!(grid.set_occupant(1, 2, A), Ok(()));
    assert_eq!(occupants(&grid), vec![vec![E, E, E], vec![E, E, A], vec![E, E, E]]);
    assert_eq!(grid.set_occupant(1, 2, B), Ok(()));
    assert_eq!(occupants(&grid), vec![vec![E, E, E], vec![E, E, B], vec![E, E, E]]);
    assert_eq!(grid.set_occupant(1, 2, E), Ok(()));
    assert_eq!(occupants(&grid), vec![vec![E, E, E], vec![E, E, E], vec![E, E, E]]);
}

#[test]
fn set_occupant_reports_out_of_bounds_and_changes_nothing() {
    let mut grid = grid_with(2, 3, &[(0, 0)], &[(1, 2)]);
    let before = occupants(&grid);
    assert_eq!(grid.set_occupant(2, 0, A), Err(GridError::OutOfBounds));
    assert_eq!(grid.set_occupant(0, 3, A), Err(GridError::OutOfBounds));
    assert_eq!(grid.set_occupant(usize::MAX, usize::MAX, B), Err(GridError::OutOfBounds));
    assert_eq!(occupants(&grid), before);
}

#[test]
fn occupant_reports_out_of_bounds() {
    let grid = grid_with(2, 3, &[(0, 0)], &[(1, 2)]);
    assert_eq!(grid.occupant(0, 0), Ok(A));
    assert_eq!(grid.occupant(1, 2), Ok(B));
    assert_eq!(grid.occupant(2, 0), Err(GridError::OutOfBounds));
    assert_eq!(grid.occupant(0, 3), Err(GridError::OutOfBounds));
}

#[test]
fn neighbor_counts_look_at_the_eight_cells_around() {
    let grid = grid_with(3, 3, &[(0, 0), (0, 1), (1, 0)], &[(2, 2)]);
    assert_eq!(grid.neighbor_counts(1, 1), Ok((3, 1)));
    assert_eq!(grid.neighbor_counts(0, 0), Ok((2, 0)));
    assert_eq!(grid.neighbor_counts(0, 2), Ok((1, 0)));
    assert_eq!(grid.neighbor_counts(2, 1), Ok((1, 1)));
    assert_eq!(grid.neighbor_counts(2, 2), Ok((0, 0)));
}

#[test]
fn neighbor_counts_do_not_wrap_around() {
    let grid = grid_with(3, 4, &[(0, 3), (2, 0)], &[(2, 3)]);
    assert_eq!(grid.neighbor_counts(0, 0), Ok((0, 0)));
    assert_eq!(grid.neighbor_counts(1, 0), Ok((1, 0)));
    assert_eq!(grid.neighbor_counts(1, 3), Ok((1, 1)));
}

#[test]
fn neighbor_counts_reach_eight() {
    let all: Vec<(usize, usize)> = (0..3).flat_map(|r| (0..3).map(move |c| (r, c))).collect();
    let grid = grid_with(3, 3, &all, &[]);
    assert_eq!(grid.neighbor_counts(1, 1), Ok((8, 0)));
    assert_eq!(grid.neighbor_counts(0, 0), Ok((3, 0)));
    assert_eq!(grid.neighbor_counts(0, 1), Ok((5, 0)));
}

#[test]
fn neighbor_counts_report_out_of_bounds() {
    let grid = Grid::create(3, 3);
    assert_eq!(grid.neighbor_counts(3, 0), Err(GridError::OutOfBounds));
    assert_eq!(grid.neighbor_counts(0, 3), Err(GridError::OutOfBounds));
}

#[test]
fn empty_grid_stays_empty() {
    for (rows, cols) in [(0, 0), (1, 1), (3, 5), (8, 8)] {
        let mut grid = Grid::create(rows, cols);
        grid.sim();
        assert_eq!(grid.count_occupants(), (0, 0));
        assert!(grid.same_as(&Grid::create(rows, cols)));
    }
}

#[test]
fn lonely_cell_dies() {
    let mut grid = grid_with(3, 3, &[(1, 1)], &[]);
    grid.sim();
    assert_eq!(occupants(&grid), vec![vec![E; 3]; 3]);
    let mut grid = grid_with(3, 3, &[], &[(0, 0)]);
    grid.sim();
    assert_eq!(occupants(&grid), vec![vec![E; 3]; 3]);
}

#[test]
fn three_neighbours_of_one_player_give_birth() {
    let mut grid = grid_with(3, 3, &[(0, 0), (0, 1), (1, 0)], &[]);
    grid.sim();
    assert_eq!(grid.occupant(1, 1), Ok(A));
    let mut grid = grid_with(3, 3, &[], &[(0, 0), (0, 2), (2, 1)]);
    grid.sim();
    assert_eq!(grid.occupant(1, 1), Ok(B));
}

#[test]
fn corner_of_three_grows_into_a_block() {
    let mut grid = grid_with(3, 3, &[(0, 0), (0, 1), (1, 0)], &[]);
    grid.sim();
    assert_eq!(occupants(&grid), vec![vec![A, A, E], vec![A, A, E], vec![E, E, E]]);
    grid.sim();
    assert_eq!(occupants(&grid), vec![vec![A, A, E], vec![A, A, E], vec![E, E, E]]);
}

#[test]
fn all_cells_change_at_once() {
    // A row of three turns into a column of three: the ends die although
    // the cells born beside the middle are already due.
    let mut grid = grid_with(3, 3, &[(1, 0), (1, 1), (1, 2)], &[]);
    grid.sim();
    assert_eq!(occupants(&grid), vec![vec![E, A, E], vec![E, A, E], vec![E, A, E]]);
    grid.sim();
    assert_eq!(occupants(&grid), vec![vec![E, E, E], vec![A, A, A], vec![E, E, E]]);
}

#[test]
fn opposing_neighbours_count_against_a_cell() {
    // The middle cell has two of its own and two opposing neighbours.
    let mut grid = grid_with(3, 3, &[(1, 1), (0, 0), (0, 1)], &[(2, 1), (2, 2)]);
    assert_eq!(grid.neighbor_counts(1, 1), Ok((2, 2)));
    grid.sim();
    assert_eq!(grid.occupant(1, 1), Ok(E));
}

#[test]
fn step_commutes_with_exchanging_the_players() {
    let a = [(0, 0), (0, 1), (1, 0), (2, 4)];
    let b = [(3, 3), (3, 2), (2, 3), (0, 4), (1, 4)];
    let mut grid = grid_with(4, 5, &a, &b);
    let mut mirror = grid_with(4, 5, &b, &a);
    assert_eq!(grid.count_contested(), 0);
    assert_eq!(mirror.count_contested(), 0);
    grid.sim();
    mirror.sim();
    assert_eq!(occupants(&mirror), exchanged(&occupants(&grid)));
    assert_eq!(grid.occupant(1, 1), Ok(A));
    assert_eq!(mirror.occupant(1, 1), Ok(B));
}

#[test]
fn count_occupants_counts_what_was_placed() {
    let grid = grid_with(5, 5, &[(0, 0), (1, 1), (2, 2), (4, 4)], &[(0, 4), (4, 0)]);
    assert_eq!(grid.count_occupants(), (4, 2));
    let grid = grid_with(5, 5, &[], &[(0, 4), (4, 0), (2, 2)]);
    assert_eq!(grid.count_occupants(), (0, 3));
    let all: Vec<(usize, usize)> = (0..4).flat_map(|r| (0..3).map(move |c| (r, c))).collect();
    let grid = grid_with(4, 3, &all, &[]);
    assert_eq!(grid.count_occupants(), (12, 0));
}

#[test]
fn count_occupants_follows_overwriting() {
    let mut grid = grid_with(2, 2, &[(0, 0), (0, 1)], &[(1, 1)]);
    assert_eq!(grid.count_occupants(), (2, 1));
    assert_eq!(grid.set_occupant(0, 0, B), Ok(()));
    assert_eq!(grid.count_occupants(), (1, 2));
    assert_eq!(grid.set_occupant(0, 1, E), Ok(()));
    assert_eq!(grid.count_occupants(), (0, 2));
}

#[test]
fn check_winner_tells_the_outcome_from_the_populations() {
    assert_eq!(Grid::create(3, 3).check_winner(), Outcome::Draw);
    assert_eq!(grid_with(3, 3, &[(0, 0)], &[]).check_winner(), Outcome::PlayerAWins);
    assert_eq!(grid_with(3, 3, &[], &[(2, 2), (1, 1)]).check_winner(), Outcome::PlayerBWins);
    assert_eq!(grid_with(3, 3, &[(0, 0)], &[(2, 2)]).check_winner(), Outcome::Undetermined);
}

#[test]
fn snapshot_copies_all_cells() {
    let mut grid = grid_with(2, 3, &[(0, 1)], &[(1, 2)]);
    let cells = grid.snapshot();
    assert_eq!(
        cells,
        vec![
            vec![Cell::new(0, 0, E), Cell::new(0, 1, A), Cell::new(0, 2, E)],
            vec![Cell::new(1, 0, E), Cell::new(1, 1, E), Cell::new(1, 2, B)],
        ]
    );
    grid.sim();
    assert_eq!(cells[0][1].occupant, A);
    assert_eq!(grid.occupant(0, 1), Ok(E));
    assert!(check_layout(&cells));
    assert!(!grid.same_as(&Grid::new(cells)));
}

#[test]
fn same_as_compares_size_and_occupants() {
    let grid = grid_with(2, 3, &[(0, 1)], &[(1, 2)]);
    assert!(grid.same_as(&grid_with(2, 3, &[(0, 1)], &[(1, 2)])));
    assert!(!grid.same_as(&grid_with(2, 3, &[(0, 1)], &[])));
    assert!(!grid.same_as(&grid_with(2, 3, &[(0, 1)], &[(1, 1)])));
    assert!(!grid.same_as(&grid_with(3, 3, &[(0, 1)], &[(1, 2)])));
    assert!(!grid.same_as(&grid_with(2, 4, &[(0, 1)], &[(1, 2)])));
    assert!(!Grid::create(0, 0).same_as(&Grid::create(1, 0)));
    assert!(Grid::create(2, 0).same_as(&Grid::create(2, 0)));
}

#[test]
fn draw_lists_the_cells_row_after_row() {
    let grid = grid_with(2, 2, &[(0, 1)], &[(1, 0)]);
    assert_eq!(
        grid.draw(),
        vec![
            DrawCommand::Outline { row: 0, col: 0 },
            DrawCommand::Fill { row: 0, col: 1, owner: A },
            DrawCommand::Fill { row: 1, col: 0, owner: B },
            DrawCommand::Outline { row: 1, col: 1 },
        ]
    );
}

fn contested_grid() -> Grid {
    grid_with(3, 3, &[(0, 0), (0, 1), (0, 2)], &[(2, 0), (2, 1), (2, 2)])
}

#[test]
fn count_contested_counts_the_births_that_both_claim() {
    assert_eq!(contested_grid().count_contested(), 1);
    assert_eq!(Grid::create(3, 3).count_contested(), 0);
    assert_eq!(grid_with(3, 3, &[(0, 0), (0, 1), (0, 2)], &[(2, 0), (2, 1)]).count_contested(), 0);
    let two = grid_with(3, 7, &[(0, 0), (0, 1), (0, 2), (0, 4), (0, 5), (0, 6)], &[
        (2, 0),
        (2, 1),
        (2, 2),
        (2, 4),
        (2, 5),
        (2, 6),
    ]);
    assert_eq!(two.count_contested(), 2);
}

#[test]
fn coin_decides_a_contested_birth() {
    let grid = contested_grid();
    let heads = grid.next_generation_with(&vec![0]);
    assert_eq!(occupants(&heads), vec![vec![E, A, E], vec![E, A, E], vec![E, B, E]]);
    let tails = grid.next_generation_with(&vec![1]);
    assert_eq!(occupants(&tails), vec![vec![E, A, E], vec![E, B, E], vec![E, B, E]]);
    let other = grid.next_generation_with(&vec![7, 0]);
    assert_eq!(other.occupant(1, 1), Ok(B));
}

#[test]
fn missing_coins_count_as_zero() {
    let grid = contested_grid();
    let next = grid.next_generation_with(&vec![]);
    assert_eq!(next.occupant(1, 1), Ok(A));
}

#[test]
fn coins_are_taken_in_the_order_of_the_cells() {
    let two = grid_with(3, 7, &[(0, 0), (0, 1), (0, 2), (0, 4), (0, 5), (0, 6)], &[
        (2, 0),
        (2, 1),
        (2, 2),
        (2, 4),
        (2, 5),
        (2, 6),
    ]);
    let next = two.next_generation_with(&vec![1, 0]);
    assert_eq!(next.occupant(1, 1), Ok(B));
    assert_eq!(next.occupant(1, 5), Ok(A));
    let next = two.next_generation_with(&vec![0, 1]);
    assert_eq!(next.occupant(1, 1), Ok(A));
    assert_eq!(next.occupant(1, 5), Ok(B));
    let next = two.next_generation_with(&vec![1]);
    assert_eq!(next.occupant(1, 1), Ok(B));
    assert_eq!(next.occupant(1, 5), Ok(A));
}

#[test]
fn coins_are_not_spent_on_settled_cells() {
    // One contested birth in the last row: the coin list is not touched
    // before the rows reach it.
    let grid = grid_with(5, 3, &[(2, 0), (2, 1), (2, 2)], &[(4, 0), (4, 1), (4, 2)]);
    assert_eq!(grid.count_contested(), 1);
    let next = grid.next_generation_with(&vec![1, 0, 0]);
    assert_eq!(next.occupant(3, 1), Ok(B));
    assert_eq!(next.occupant(1, 1), Ok(A));
}

#[test]
fn step_with_coins_leaves_the_grid_untouched() {
    let grid = contested_grid();
    let before = occupants(&grid);
    let _ = grid.next_generation_with(&vec![1]);
    let _ = grid.next_generation();
    assert_eq!(occupants(&grid), before);
}

#[test]
fn swapped_coins_give_the_swapped_generation() {
    let grid = contested_grid();
    let mirror = grid_with(3, 3, &[(2, 0), (2, 1), (2, 2)], &[(0, 0), (0, 1), (0, 2)]);
    let next = grid.next_generation_with(&vec![0]);
    let mirrored = mirror.next_generation_with(&vec![1]);
    assert_eq!(occupants(&mirrored), exchanged(&occupants(&next)));
}
