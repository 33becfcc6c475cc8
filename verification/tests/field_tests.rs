use minesweeper::field::count_mines;
use minesweeper::field::is_mine;
use minesweeper::field::Field;
use minesweeper::field::TileState;

fn corner_mines() -> Field {
    Field::with_mines(3, 3, &vec![(0, 0), (2, 2)])
}

#[test]
fn is_mine_finds_listed_positions() {
    let positions = vec![(1, 2), (3, 4)];
    assert!(is_mine(&positions, 1, 2));
    assert!(is_mine(&positions, 3, 4));
    assert!(!is_mine(&positions, 2, 1));
    assert!(!is_mine(&Vec::new(), 0, 0));
}

#[test]
fn count_mines_counts_each_neighbour_once() {
    let positions = vec![(0, 0), (2, 2), (2, 2)];
    assert_eq!(count_mines(&positions, 3, 3, 1, 1), 2);
    assert_eq!(count_mines(&positions, 3, 3, 1, 0), 1);
    assert_eq!(count_mines(&positions, 3, 3, 2, 0), 0);
    assert_eq!(count_mines(&positions, 3, 3, 0, 0), 0);
}

#[test]
fn count_mines_ignores_positions_outside_the_grid() {
    let positions = vec![(3, 1), (1, 3)];
    assert_eq!(count_mines(&positions, 3, 3, 2, 1), 0);
    assert_eq!(count_mines(&positions, 3, 3, 1, 2), 0);
    assert_eq!(count_mines(&positions, 4, 4, 2, 1), 1);
}

#[test]
fn count_mines_full_ring() {
    let positions = vec![(0, 0), (1, 0), (2, 0), (0, 1), (2, 1), (0, 2), (1, 2), (2, 2)];
    assert_eq!(count_mines(&positions, 3, 3, 1, 1), 8);
}

#[test]
fn count_mines_at_the_largest_coordinates() {
    let positions = vec![(u32::MAX - 1, u32::MAX - 1)];
    assert_eq!(count_mines(&positions, u32::MAX, u32::MAX, u32::MAX, u32::MAX), 1);
    assert_eq!(count_mines(&positions, u32::MAX - 1, u32::MAX, u32::MAX, u32::MAX), 0);
}

#[test]
fn numbers_count_adjacent_mines() {
    let field = corner_mines();
    assert_eq!(field.fact(0, 0), Some(TileState::Mine));
    assert_eq!(field.fact(2, 2), Some(TileState::Mine));
    assert_eq!(field.fact(1, 1), Some(TileState::Number(2)));
    assert_eq!(field.fact(1, 0), Some(TileState::Number(1)));
    assert_eq!(field.fact(0, 1), Some(TileState::Number(1)));
    assert_eq!(field.fact(2, 1), Some(TileState::Number(1)));
    assert_eq!(field.fact(1, 2), Some(TileState::Number(1)));
    assert_eq!(field.fact(2, 0), Some(TileState::Number(0)));
    assert_eq!(field.fact(0, 2), Some(TileState::Number(0)));
}

#[test]
fn single_mine_in_the_middle() {
    let field = Field::with_mines(3, 3, &vec![(1, 1)]);
    for y in 0..3 {
        for x in 0..3 {
            let expected = if (x, y) == (1, 1) { TileState::Mine } else { TileState::Number(1) };
            assert_eq!(field.fact(x, y), Some(expected));
        }
    }
}

#[test]
fn fact_outside_the_grid_is_none() {
    let field = corner_mines();
    assert_eq!(field.fact(3, 0), None);
    assert_eq!(field.fact(0, 3), None);
    assert_eq!(field.fact(usize::MAX, usize::MAX), None);
}

#[test]
fn dimensions_are_reported() {
    let field = Field::with_mines(4, 2, &Vec::new());
    assert_eq!(field.width(), 4);
    assert_eq!(field.height(), 2);
    assert_eq!(field.mine_count(), 0);
    assert_eq!(field.fact(3, 1), Some(TileState::Number(0)));
}

#[test]
fn duplicate_draws_plant_one_mine() {
    let field = Field::with_mines(3, 3, &vec![(1, 1), (1, 1), (1, 1), (0, 2)]);
    assert_eq!(field.mine_count(), 2);
    assert_eq!(field.fact(1, 1), Some(TileState::Mine));
    assert_eq!(field.fact(0, 2), Some(TileState::Mine));
    assert_eq!(field.fact(0, 1), Some(TileState::Number(2)));
}

#[test]
fn positions_outside_the_grid_plant_nothing() {
    let field = Field::with_mines(2, 2, &vec![(2, 0), (0, 2), (7, 7)]);
    assert_eq!(field.mine_count(), 0);
    for y in 0..2 {
        for x in 0..2 {
            assert_eq!(field.fact(x, y), Some(TileState::Number(0)));
        }
    }
}

#[test]
fn empty_grids_are_valid() {
    let none = Field::with_mines(0, 0, &vec![(0, 0)]);
    assert_eq!(none.height(), 0);
    assert_eq!(none.width(), 0);
    assert_eq!(none.mine_count(), 0);
    let flat = Field::with_mines(0, 3, &Vec::new());
    assert_eq!(flat.height(), 3);
    assert_eq!(flat.width(), 0);
    let drawn = Field::new(0, 0, 5);
    assert_eq!(drawn.height(), 0);
    assert_eq!(drawn.mine_count(), 0);
    let narrow = Field::new(4, 0, 3);
    assert_eq!(narrow.height(), 0);
}

#[test]
fn more_draws_than_cells_is_no_error() {
    let field = Field::new(3, 3, 1000);
    assert_eq!(field.width(), 3);
    assert_eq!(field.height(), 3);
    let mines = field.mine_count();
    assert!(mines >= 1);
    assert!(mines <= 9);
}

#[test]
fn placed_mines_never_exceed_the_request() {
    for _ in 0..50 {
        let field = Field::new(6, 5, 4);
        let mines = field.mine_count();
        assert!(mines >= 1 && mines <= 4);
    }
}

#[test]
fn no_draws_no_mines() {
    let field = Field::new(5, 4, 0);
    assert_eq!(field.mine_count(), 0);
    assert_eq!(field, Field::with_mines(5, 4, &Vec::new()));
}

#[test]
fn generated_numbers_match_their_surroundings() {
    let field = Field::new(8, 7, 12);
    let mut positions = Vec::new();
    for y in 0..7u32 {
        for x in 0..8u32 {
            if field.fact(x as usize, y as usize) == Some(TileState::Mine) {
                positions.push((x, y));
            }
        }
    }
    assert_eq!(positions.len() as u64, field.mine_count());
    assert_eq!(field, Field::with_mines(8, 7, &positions));
    for y in 0..7u32 {
        for x in 0..8u32 {
            if let Some(TileState::Number(k)) = field.fact(x as usize, y as usize) {
                assert_eq!(k, count_mines(&positions, 8, 7, x, y));
            }
        }
    }
}
