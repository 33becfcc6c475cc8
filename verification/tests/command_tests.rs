use minesweeper::board::FieldView;
use minesweeper::board::Tile;
use minesweeper::command::create_move;
use minesweeper::command::decide;
use minesweeper::command::parse_row;
use minesweeper::command::Command;
use minesweeper::field::Field;
use minesweeper::game::Game;

fn s(text: &str) -> String {
    text.to_string()
}

fn pair(col: &str, row: &str) -> Option<(String, String)> {
    Some((s(col), s(row)))
}

#[test]
fn quit_line_is_exit() {
    assert_eq!(create_move(s("q\n")), Command::Exit);
}

#[test]
fn plain_cell_is_select() {
    assert_eq!(create_move(s("a0\n")), Command::Select(s("a"), 0));
    assert_eq!(create_move(s("k9\n")), Command::Select(s("k"), 9));
}

#[test]
fn bang_is_flag() {
    assert_eq!(create_move(s("!b3\n")), Command::Flag(s("b"), 3));
}

#[test]
fn question_mark_is_mark() {
    assert_eq!(create_move(s("?c9\n")), Command::Mark(s("c"), 9));
}

#[test]
fn hash_is_unfold() {
    assert_eq!(create_move(s("#d4\n")), Command::Unfold(s("d"), 4));
}

#[test]
fn only_the_last_digit_is_the_row() {
    assert_eq!(create_move(s("a10\n")), Command::Select(s("a1"), 0));
    assert_eq!(create_move(s("!abc123\n")), Command::Flag(s("abc12"), 3));
    assert_eq!(create_move(s("77\n")), Command::Select(s("7"), 7));
}

#[test]
fn a_line_that_is_no_command_is_nothing() {
    for line in ["", "\n", "q", "a0", "a\n", "0\n", "hello\n", "!!a0\n", "a 0\n", "a0\n\n", " a0\n", "q \n", "$a0\n"] {
        assert_eq!(create_move(s(line)), Command::Nothing, "line {:?}", line);
    }
}

#[test]
fn a_row_that_is_no_ascii_digit_is_nothing() {
    assert_eq!(create_move(s("a\u{0663}\n")), Command::Nothing);
}

#[test]
fn parse_row_reads_decimal_digits() {
    assert_eq!(parse_row("0"), Some(0));
    assert_eq!(parse_row("7"), Some(7));
    assert_eq!(parse_row("007"), Some(7));
    assert_eq!(parse_row("1234"), Some(1234));
    assert_eq!(parse_row("4294967295"), Some(u32::MAX));
}

#[test]
fn parse_row_rejects_everything_else() {
    assert_eq!(parse_row(""), None);
    assert_eq!(parse_row("4294967296"), None);
    assert_eq!(parse_row("99999999999999999999999999"), None);
    assert_eq!(parse_row("+5"), None);
    assert_eq!(parse_row("-5"), None);
    assert_eq!(parse_row("1a"), None);
    assert_eq!(parse_row("a1"), None);
    assert_eq!(parse_row(" 1"), None);
    assert_eq!(parse_row("\u{0663}"), None);
    assert_eq!(parse_row("42949672950x"), None);
}

#[test]
fn decide_prefers_quit_then_the_first_match() {
    assert_eq!(decide("q\n", pair("a", "1"), None, None, None), Command::Exit);
    assert_eq!(
        decide("x", pair("a", "1"), pair("b", "2"), pair("c", "3"), pair("d", "4")),
        Command::Select(s("a"), 1)
    );
    assert_eq!(
        decide("x", None, pair("b", "2"), pair("c", "3"), pair("d", "4")),
        Command::Flag(s("b"), 2)
    );
    assert_eq!(decide("x", None, None, pair("c", "3"), pair("d", "4")), Command::Mark(s("c"), 3));
    assert_eq!(decide("x", None, None, None, pair("d", "4")), Command::Unfold(s("d"), 4));
    assert_eq!(decide("x", None, None, None, None), Command::Nothing);
}

#[test]
fn decide_gives_nothing_for_a_bad_row() {
    assert_eq!(decide("x", pair("a", "x"), pair("b", "2"), None, None), Command::Nothing);
    assert_eq!(decide("x", None, pair("b", ""), None, None), Command::Nothing);
    assert_eq!(decide("x", None, None, None, pair("b", "4294967296")), Command::Nothing);
}

#[test]
fn perform_carries_out_each_command() {
    let board = FieldView::with_field(Field::with_mines(3, 3, &vec![(0, 0)]));
    let mut game = Game::with_board(board);
    assert!(game.perform(Command::Flag(s("a"), 0)));
    assert_eq!(game.field_view().tile(0, 0), Some(Tile::Flag));
    assert_eq!(game.field_view().flags(), 1);
    assert!(game.perform(Command::Mark(s("b"), 0)));
    assert_eq!(game.field_view().tile(1, 0), Some(Tile::Mark));
    assert!(game.perform(Command::Select(s("b"), 1)));
    assert_eq!(game.field_view().tile(1, 1), Some(Tile::Open));
    assert!(game.perform(Command::Nothing));
    assert!(game.perform(Command::Flag(s("a"), 0)));
    assert_eq!(game.field_view().flags(), 0);
    assert!(!game.perform(Command::Unfold(s("b"), 1)));
    assert!(!game.in_play());
    assert_eq!(game.field_view().tile(1, 0), Some(Tile::Mark));
    assert_eq!(game.field_view().tile(0, 0), Some(Tile::Open));
}

#[test]
fn perform_exit_ends_the_session_and_changes_nothing() {
    let board = FieldView::with_field(Field::with_mines(3, 3, &vec![(0, 0)]));
    let mut game = Game::with_board(board.clone());
    assert!(!game.perform(Command::Exit));
    assert!(game.in_play());
    assert_eq!(*game.field_view(), board);
}

#[test]
fn typed_lines_drive_the_game() {
    let board = FieldView::with_field(Field::with_mines(3, 3, &vec![(2, 2)]));
    let mut game = Game::with_board(board);
    assert!(game.perform(create_move(s("!c2\n"))));
    assert_eq!(game.field_view().tile(2, 2), Some(Tile::Flag));
    assert!(game.perform(create_move(s("a0\n"))));
    assert_eq!(game.field_view().tile(0, 0), Some(Tile::Open));
    assert_eq!(game.field_view().tile(1, 1), Some(Tile::Open));
    assert_eq!(game.field_view().tile(2, 2), Some(Tile::Flag));
    assert!(game.perform(create_move(s("!c2\n"))));
    assert!(!game.perform(create_move(s("c2\n"))));
}

#[test]
fn flags_are_counted() {
    let mut view = FieldView::with_field(Field::with_mines(4, 3, &vec![(1, 1)]));
    assert_eq!(view.flags(), 0);
    view.flag(s("a"), 0);
    view.flag(s("d"), 2);
    view.mark(s("b"), 2);
    assert_eq!(view.flags(), 2);
    view.flag(s("a"), 0);
    assert_eq!(view.flags(), 1);
}
