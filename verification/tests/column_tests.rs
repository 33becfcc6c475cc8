use minesweeper::column::column_number;
use minesweeper::column::get_col_num;
use minesweeper::column::NO_COLUMN;

#[test]
fn letters_a_to_k_map_to_their_index() {
    let names = ["a", "b", "c", "d", "e", "f", "g", "h", "i", "j", "k"];
    for (index, name) in names.iter().enumerate() {
        assert_eq!(get_col_num(name.to_string()), index as u32);
        assert_eq!(column_number(name), index as u32);
    }
}

#[test]
fn other_names_map_to_the_sentinel() {
    assert_eq!(NO_COLUMN, 11);
    for name in ["l", "z", "A", "K", "", "ab", "a1", "1", "`", "é", "a b"] {
        assert_eq!(get_col_num(name.to_string()), 11);
    }
}

#[test]
fn white_space_around_the_name_is_dropped() {
    assert_eq!(get_col_num(" b ".to_string()), 1);
    assert_eq!(get_col_num("\tk\n".to_string()), 10);
    assert_eq!(get_col_num("   ".to_string()), 11);
}

#[test]
fn column_number_does_not_trim() {
    assert_eq!(column_number(" b "), 11);
    assert_eq!(column_number("c"), 2);
}
