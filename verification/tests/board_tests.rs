use minesweeper::board::FieldView;
use minesweeper::board::Tile;
use minesweeper::field::Field;
use minesweeper::field::TileState;
use minesweeper::game::Game;

fn board(width: u32, height: u32, mines: &[(u32, u32)]) -> FieldView {
    FieldView::with_field(Field::with_mines(width, height, &mines.to_vec()))
}

fn s(text: &str) -> String {
    text.to_string()
}

fn count(view: &FieldView, wanted: Tile) -> usize {
    let mut n = 0;
    for y in 0..view.height() {
        for x in 0..view.width() {
            if view.tile(x, y) == Some(wanted) {
                n += 1;
            }
        }
    }
    n
}

#[test]
fn a_new_board_is_closed_and_in_play() {
    let view = board(4, 3, &[(1, 1)]);
    assert_eq!(view.width(), 4);
    assert_eq!(view.height(), 3);
    assert_eq!(count(&view, Tile::Closed), 12);
    assert!(view.in_play());
    assert_eq!(view.mines(), 1);
    assert_eq!(view.tile(4, 0), None);
    assert_eq!(view.tile(0, 3), None);
}

#[test]
fn random_board_has_requested_size() {
    let view = FieldView::new(7, 5, 6);
    assert_eq!(view.width(), 7);
    assert_eq!(view.height(), 5);
    assert_eq!(count(&view, Tile::Closed), 35);
    assert!(view.in_play());
    assert!(view.mines() >= 1 && view.mines() <= 6);
}

#[test]
fn mine_count_is_the_placed_count_not_the_request() {
    let view = FieldView::new(3, 3, 500);
    assert!(view.mines() <= 9);
    let fixed = board(3, 3, &[(0, 0), (0, 0), (0, 0)]);
    assert_eq!(fixed.mines(), 1);
}

#[test]
fn select_opens_a_numbered_cell_without_cascade() {
    let mut view = board(3, 3, &[(0, 0)]);
    view.select(s("b"), 1);
    assert_eq!(view.tile(1, 1), Some(Tile::Open));
    assert_eq!(view.revealed(1, 1), Some(TileState::Number(1)));
    assert_eq!(count(&view, Tile::Open), 1);
    assert_eq!(count(&view, Tile::Closed), 8);
    assert!(view.in_play());
}

#[test]
fn second_select_is_a_no_op() {
    let mut view = board(3, 3, &[(0, 0)]);
    view.select(s("b"), 1);
    let once = view.clone();
    view.select(s("b"), 1);
    assert_eq!(view, once);
}

#[test]
fn hidden_facts_stay_hidden() {
    let mut view = board(3, 3, &[(0, 0)]);
    assert_eq!(view.revealed(0, 0), None);
    assert_eq!(view.revealed(1, 1), None);
    view.flag(s("a"), 0);
    view.mark(s("b"), 1);
    assert_eq!(view.revealed(0, 0), None);
    assert_eq!(view.revealed(1, 1), None);
    assert_eq!(view.revealed(9, 9), None);
}

#[test]
fn zero_cell_opens_its_region_and_border() {
    // Mine in the last column of the middle row of a 5 by 3 grid.
    let mut view = board(5, 3, &[(4, 1)]);
    view.select(s("a"), 0);
    for y in 0..3 {
        for x in 0..4 {
            assert_eq!(view.tile(x, y), Some(Tile::Open), "cell {} {}", x, y);
        }
        assert_eq!(view.tile(4, y), Some(Tile::Closed));
    }
    assert_eq!(view.revealed(3, 0), Some(TileState::Number(1)));
    assert_eq!(view.revealed(2, 1), Some(TileState::Number(0)));
    assert!(view.in_play());
}

#[test]
fn cascade_stops_at_numbers() {
    // A wall of numbers around the mines in column c keeps the right side closed.
    let mut view = board(5, 3, &[(2, 0), (2, 1), (2, 2)]);
    view.select(s("a"), 1);
    for y in 0..3 {
        assert_eq!(view.tile(0, y), Some(Tile::Open));
        assert_eq!(view.tile(1, y), Some(Tile::Open));
        assert_eq!(view.tile(2, y), Some(Tile::Closed));
        assert_eq!(view.tile(3, y), Some(Tile::Closed));
        assert_eq!(view.tile(4, y), Some(Tile::Closed));
    }
    assert!(view.in_play());
}

#[test]
fn cascade_passes_diagonally() {
    let mut view = board(4, 4, &[(3, 0), (0, 3)]);
    view.select(s("a"), 0);
    assert_eq!(view.tile(3, 0), Some(Tile::Closed));
    assert_eq!(view.tile(0, 3), Some(Tile::Closed));
    assert_eq!(count(&view, Tile::Open), 14);
    assert!(view.in_play());
}

#[test]
fn cascade_leaves_flags_and_marks() {
    let mut view = board(4, 1, &[]);
    view.flag(s("c"), 0);
    view.select(s("a"), 0);
    assert_eq!(view.tile(0, 0), Some(Tile::Open));
    assert_eq!(view.tile(1, 0), Some(Tile::Open));
    assert_eq!(view.tile(2, 0), Some(Tile::Flag));
    assert_eq!(view.tile(3, 0), Some(Tile::Closed));
    let mut marked = board(3, 3, &[]);
    marked.mark(s("b"), 1);
    marked.select(s("a"), 0);
    assert_eq!(marked.tile(1, 1), Some(Tile::Mark));
    assert_eq!(count(&marked, Tile::Open), 8);
}

#[test]
fn whole_empty_board_opens() {
    let mut view = board(11, 9, &[]);
    view.select(s("k"), 8);
    assert_eq!(count(&view, Tile::Open), 99);
}

#[test]
fn large_empty_board_opens_without_deep_recursion() {
    let mut view = board(300, 300, &[]);
    view.select_square(150, 150);
    assert_eq!(view.tile(0, 0), Some(Tile::Open));
    assert_eq!(view.tile(299, 299), Some(Tile::Open));
    assert_eq!(count(&view, Tile::Closed), 0);
}

#[test]
fn selecting_a_mine_ends_the_game() {
    let mut view = board(3, 3, &[(1, 1)]);
    view.select(s("b"), 1);
    assert!(!view.in_play());
    assert_eq!(view.tile(1, 1), Some(Tile::Open));
    assert_eq!(view.revealed(1, 1), Some(TileState::Mine));
    assert_eq!(count(&view, Tile::Open), 1);
}

#[test]
fn selects_after_game_over_still_open_cells() {
    let mut view = board(3, 3, &[(1, 1)]);
    view.select(s("b"), 1);
    view.select(s("a"), 0);
    assert_eq!(view.tile(0, 0), Some(Tile::Open));
    assert!(!view.in_play());
    view.flag(s("c"), 2);
    assert_eq!(view.tile(2, 2), Some(Tile::Flag));
    assert!(!view.in_play());
}

#[test]
fn flag_toggles_a_closed_cell() {
    let mut view = board(3, 3, &[(1, 1)]);
    let fresh = view.clone();
    view.flag(s("a"), 2);
    assert_eq!(view.tile(0, 2), Some(Tile::Flag));
    assert_eq!(count(&view, Tile::Closed), 8);
    view.flag(s("a"), 2);
    assert_eq!(view, fresh);
}

#[test]
fn mark_toggles_a_closed_cell() {
    let mut view = board(3, 3, &[(1, 1)]);
    let fresh = view.clone();
    view.mark(s("c"), 0);
    assert_eq!(view.tile(2, 0), Some(Tile::Mark));
    view.mark(s("c"), 0);
    assert_eq!(view, fresh);
}

#[test]
fn flag_and_mark_exclude_each_other() {
    let mut view = board(3, 3, &[(1, 1)]);
    view.mark(s("a"), 0);
    let marked = view.clone();
    view.flag(s("a"), 0);
    assert_eq!(view, marked);
    view.flag(s("b"), 0);
    let flagged = view.clone();
    view.mark(s("b"), 0);
    assert_eq!(view, flagged);
}

#[test]
fn open_cells_take_no_marker() {
    let mut view = board(3, 3, &[(1, 1)]);
    view.select(s("a"), 0);
    let opened = view.clone();
    view.flag(s("a"), 0);
    view.mark(s("a"), 0);
    assert_eq!(view, opened);
}

#[test]
fn flagged_and_marked_cells_are_not_selected() {
    let mut view = board(3, 3, &[(1, 1)]);
    view.flag(s("b"), 1);
    view.mark(s("a"), 0);
    let before = view.clone();
    view.select(s("b"), 1);
    view.select(s("a"), 0);
    assert_eq!(view, before);
    assert!(view.in_play());
}

#[test]
fn unfold_opens_neighbours_and_detonates() {
    let mut view = board(3, 3, &[(0, 0)]);
    view.select(s("b"), 1);
    view.unfold(s("b"), 1);
    assert_eq!(view.tile(0, 0), Some(Tile::Open));
    assert_eq!(view.tile(2, 2), Some(Tile::Open));
    assert_eq!(count(&view, Tile::Open), 9);
    assert!(!view.in_play());
}

#[test]
fn unfold_leaves_the_centre_alone() {
    let mut view = board(3, 3, &[(0, 0), (1, 0), (2, 0), (0, 1), (2, 1), (0, 2), (1, 2), (2, 2)]);
    view.flag(s("a"), 0);
    view.unfold(s("b"), 1);
    assert_eq!(view.tile(1, 1), Some(Tile::Closed));
    assert_eq!(view.tile(0, 0), Some(Tile::Flag));
    assert_eq!(count(&view, Tile::Open), 7);
    assert!(!view.in_play());
}

#[test]
fn unfold_cascades_from_zero_neighbours() {
    // The cascade from b0 comes back to the centre a0.
    let mut view = board(5, 1, &[]);
    view.unfold(s("a"), 0);
    for x in 0..5 {
        assert_eq!(view.tile(x, 0), Some(Tile::Open));
    }
    // Next to a number the centre stays closed.
    let mut walled = board(3, 1, &[(2, 0)]);
    walled.unfold(s("a"), 0);
    assert_eq!(walled.tile(0, 0), Some(Tile::Closed));
    assert_eq!(walled.tile(1, 0), Some(Tile::Open));
    assert_eq!(walled.tile(2, 0), Some(Tile::Closed));
}

#[test]
fn unfold_just_outside_the_grid_opens_the_edge() {
    let mut view = board(3, 3, &[(1, 0)]);
    view.unfold(s("a"), 3);
    assert_eq!(view.tile(0, 2), Some(Tile::Open));
    assert_eq!(view.tile(1, 2), Some(Tile::Open));
    assert_eq!(view.tile(2, 2), Some(Tile::Open));
    let mut side = board(3, 3, &[(1, 1)]);
    side.unfold(s("d"), 0);
    assert_eq!(side.tile(2, 0), Some(Tile::Open));
    assert_eq!(side.tile(2, 1), Some(Tile::Open));
    assert_eq!(count(&side, Tile::Open), 2);
}

#[test]
fn out_of_range_actions_change_nothing() {
    let mut view = board(3, 3, &[(1, 1)]);
    view.flag(s("a"), 1);
    let before = view.clone();
    view.select(s("a"), 3);
    view.select(s("d"), 0);
    view.select(s("zz"), 0);
    view.select(s("a"), u32::MAX);
    view.flag(s("a"), 3);
    view.flag(s("l"), 1);
    view.mark(s("b"), 17);
    view.mark(s(""), 0);
    view.unfold(s("a"), 4);
    view.unfold(s("e"), 1);
    view.unfold(s("x"), 1);
    view.unfold(s("b"), u32::MAX);
    assert_eq!(view, before);
}

#[test]
fn actions_on_an_empty_board_change_nothing() {
    let mut view = board(0, 0, &[]);
    let before = view.clone();
    view.select(s("a"), 0);
    view.flag(s("a"), 0);
    view.mark(s("a"), 0);
    view.unfold(s("a"), 0);
    view.select_square(0, 0);
    view.select_surrounding(0, 0);
    assert_eq!(view, before);
    assert_eq!(view.width(), 0);
    assert!(view.in_play());
}

#[test]
fn select_square_takes_indices() {
    let mut view = board(12, 2, &[(11, 1)]);
    view.select_square(11, 1);
    assert!(!view.in_play());
    assert_eq!(view.revealed(11, 1), Some(TileState::Mine));
}

#[test]
fn select_surrounding_at_the_largest_indices() {
    let mut view = board(2, 2, &[]);
    let before = view.clone();
    view.select_surrounding(usize::MAX, usize::MAX);
    view.select_square(usize::MAX, usize::MAX);
    assert_eq!(view, before);
}

#[test]
fn column_names_are_trimmed() {
    let mut view = board(3, 3, &[(0, 0)]);
    view.select(s(" b\n"), 1);
    assert_eq!(view.tile(1, 1), Some(Tile::Open));
}

#[test]
fn game_starts_on_a_ten_by_ten_board() {
    let game = Game::new();
    assert!(game.in_play());
    let view = game.field_view();
    assert_eq!(view.width(), 10);
    assert_eq!(view.height(), 10);
    assert_eq!(count(view, Tile::Closed), 100);
    assert!(view.mines() >= 1 && view.mines() <= 30);
}

#[test]
fn game_forwards_the_moves() {
    let mut game = Game::with_board(board(3, 3, &[(0, 0)]));
    game.flag(s("a"), 0);
    assert_eq!(game.field_view().tile(0, 0), Some(Tile::Flag));
    game.mark(s("b"), 0);
    assert_eq!(game.field_view().tile(1, 0), Some(Tile::Mark));
    game.select(s("c"), 2);
    assert_eq!(game.field_view().tile(2, 2), Some(Tile::Open));
    assert_eq!(game.field_view().tile(1, 1), Some(Tile::Open));
    assert!(game.in_play());
    game.flag(s("a"), 0);
    game.unfold(s("b"), 1);
    assert_eq!(game.field_view().tile(0, 0), Some(Tile::Open));
    assert_eq!(game.field_view().tile(1, 0), Some(Tile::Mark));
    assert!(!game.in_play());
}
