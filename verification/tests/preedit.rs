use oryxis_terminal::preedit::{place_preedit, preedit_layout};

#[test]
fn wide_glyphs_take_two_cells_and_clip_at_the_edge() {
    let l = preedit_layout("你好", 77, 80);
    assert_eq!(l.glyphs, vec![('你', 77, 2)]);
    assert_eq!(l.end_col, 79);
}

#[test]
fn narrow_and_control_characters_take_one_cell() {
    let l = preedit_layout("a\u{7}b", 0, 10);
    assert_eq!(l.glyphs, vec![('a', 0, 1), ('\u{7}', 1, 1), ('b', 2, 1)]);
    assert_eq!(l.end_col, 3);
}

#[test]
fn placement_from_given_widths() {
    let chars = vec!['x', 'y', 'z'];
    let widths = vec![Some(2), Some(0), None];
    let l = place_preedit(&chars, &widths, 5, 8);
    assert_eq!(l.glyphs, vec![('x', 5, 2), ('y', 7, 1)]);
    assert_eq!(l.end_col, 8);
    let none = place_preedit(&chars, &widths, 8, 8);
    assert!(none.glyphs.is_empty());
    assert_eq!(none.end_col, 8);
}
