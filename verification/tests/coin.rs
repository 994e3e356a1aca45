use macroquad::rand::{gen_range, srand};
use p2life::cell::Occupant;
use p2life::grid::Grid;

fn contested_grid() -> Grid {
    let mut grid = Grid::create(3, 3);
    for c in 0..3 {
        assert_eq!(grid.set_occupant(0, c, Occupant::PlayerA), Ok(()));
        assert_eq!(grid.set_occupant(2, c, Occupant::PlayerB), Ok(()));
    }
    grid
}

#[test]
fn contested_birth_follows_the_seeded_generator() {
    let mut seen_a = 0;
    let mut seen_b = 0;
    for seed in 0..200u64 {
        srand(seed);
        let coin: u8 = gen_range(0, 2);
        assert!(coin < 2);
        let expected = if coin == 0 { Occupant::PlayerA } else { Occupant::PlayerB };

        srand(seed);
        let mut grid = contested_grid();
        grid.sim();
        assert_eq!(grid.occupant(1, 1), Ok(expected));
        assert_eq!(grid.occupant(0, 1), Ok(Occupant::PlayerA));
        assert_eq!(grid.occupant(2, 1), Ok(Occupant::PlayerB));
        assert_eq!(grid.occupant(0, 0), Ok(Occupant::Empty));
        assert_eq!(grid.occupant(1, 0), Ok(Occupant::Empty));

        srand(seed);
        let next = contested_grid().next_generation();
        assert!(next.same_as(&grid));

        match expected {
            Occupant::PlayerA => seen_a += 1,
            _ => seen_b += 1,
        }
    }
    assert!(seen_a > 0);
    assert!(seen_b > 0);
    assert_eq!(seen_a + seen_b, 200);
}
