use minesweeper::board::FieldView;
use minesweeper::field::Field;

fn board(width: u32, height: u32, mines: &[(u32, u32)]) -> FieldView {
    FieldView::with_field(Field::with_mines(width, height, &mines.to_vec()))
}

fn s(text: &str) -> String {
    text.to_string()
}

#[test]
fn a_fresh_board_shows_closed_cells() {
    let view = board(3, 3, &[(0, 0)]);
    assert_eq!(
        view.render(),
        "mines : 1\nflags : 0\n  a b c \n0 █ █ █ \n1 █ █ █ \n2 █ █ █ \n\n\n"
    );
}

#[test]
fn open_cells_show_their_fact() {
    let mut view = board(3, 3, &[(0, 0)]);
    view.select(s("b"), 1);
    assert_eq!(
        view.render(),
        "mines : 1\nflags : 0\n  a b c \n0 █ █ █ \n1 █ 1 █ \n2 █ █ █ \n\n\n"
    );
    view.select(s("a"), 0);
    assert_eq!(
        view.render(),
        "mines : 1\nflags : 0\n  a b c \n0 ♦ █ █ \n1 █ 1 █ \n2 █ █ █ \n\n\n"
    );
    let mut row = board(3, 1, &[(2, 0)]);
    row.select(s("a"), 0);
    assert_eq!(row.render(), "mines : 1\nflags : 0\n  a \n0 0 1 █ \n\n\n");
}

#[test]
fn flags_and_marks_are_shown_and_counted() {
    let mut view = board(3, 2, &[(0, 0), (2, 1)]);
    view.flag(s("a"), 0);
    view.flag(s("c"), 1);
    view.mark(s("b"), 0);
    assert_eq!(view.render(), "mines : 2\nflags : 2\n  a b \n0 o ? █ \n1 █ █ o \n\n\n");
}

#[test]
fn numbers_above_nine_take_two_digits() {
    let view = board(1, 12, &[]);
    let text = view.render();
    assert!(text.starts_with("mines : 0\nflags : 0\n  a b c d e f g h i j k l \n0 █ \n"));
    assert!(text.ends_with("9 █ \n10 █ \n11 █ \n\n\n"));
    let mut mines = Vec::new();
    for x in 0..4 {
        for y in 0..3 {
            mines.push((x, y));
        }
    }
    let full = board(4, 3, &mines);
    assert!(full.render().starts_with("mines : 12\n"));
}

#[test]
fn an_empty_board_has_only_the_heading() {
    let view = board(0, 0, &[]);
    assert_eq!(view.render(), "mines : 0\nflags : 0\n  \n\n\n");
}

#[test]
fn the_layout_shows_everything() {
    let field = Field::with_mines(3, 3, &vec![(0, 0), (2, 2)]);
    assert_eq!(field.render(), "  a b c \n0 ♦ 1 0 \n1 1 2 1 \n2 0 1 ♦ \n\n\n");
    let ring = Field::with_mines(
        3,
        3,
        &vec![(0, 0), (1, 0), (2, 0), (0, 1), (2, 1), (0, 2), (1, 2), (2, 2)],
    );
    assert_eq!(ring.render(), "  a b c \n0 ♦ ♦ ♦ \n1 ♦ 8 ♦ \n2 ♦ ♦ ♦ \n\n\n");
}

#[test]
fn twenty_six_rows_use_the_whole_alphabet() {
    let view = board(1, 26, &[]);
    let text = view.render();
    assert!(text.contains("  a b c d e f g h i j k l m n o p q r s t u v w x y z \n"));
    assert!(text.ends_with("25 █ \n\n\n"));
}
