use mxrox::vga::{char_utf8_width, make_vga_entry, show_error, str_chars, Screen, VgaColor, TERMINAL_CELLS};

#[test]
fn vga_entry_values() {
    assert_eq!(make_vga_entry('A', VgaColor::BLACK, VgaColor::WHITE), 0x0F41);
    assert_eq!(make_vga_entry('A', VgaColor::BLUE, VgaColor::GREEN), 0x1241);
    assert_eq!(make_vga_entry('a', 0x1F, 0x0F), 0xFF61);
    assert_eq!(make_vga_entry('\u{E9}', 0, 15), 0x0FE9);
}

#[test]
fn utf8_widths() {
    assert_eq!(char_utf8_width('a'), 1);
    assert_eq!(char_utf8_width('\u{E9}'), 2);
    assert_eq!(char_utf8_width('\u{20AC}'), 3);
    assert_eq!(char_utf8_width('\u{1F600}'), 4);
}

#[test]
fn new_screen_is_zero() {
    let s = Screen::new();
    assert_eq!(s.cell(0), 0);
    assert_eq!(s.cell(TERMINAL_CELLS - 1), 0);
}

#[test]
fn put_char_writes_one_cell() {
    let mut s = Screen::new();
    s.put_char(1, 2, 'X', VgaColor::BLACK, VgaColor::WHITE);
    assert_eq!(s.cell(161), 0x0F58);
    assert_eq!(s.cell(160), 0);
    assert_eq!(s.cell(162), 0);
}

#[test]
fn put_string_writes_row() {
    let mut s = Screen::new();
    s.put_string(3, 1, "Hi", VgaColor::BLACK, VgaColor::WHITE);
    assert_eq!(s.cell(83), 0x0F48);
    assert_eq!(s.cell(84), 0x0F69);
    assert_eq!(s.cell(85), 0);
}

#[test]
fn put_string_places_characters_at_byte_offsets() {
    let mut s = Screen::new();
    s.put_string(0, 0, "\u{E9}!", VgaColor::BLACK, VgaColor::WHITE);
    assert_eq!(s.cell(0), 0x0FE9);
    assert_eq!(s.cell(1), 0);
    assert_eq!(s.cell(2), 0x0F21);
}

#[test]
fn fill_sets_every_cell() {
    let mut s = Screen::new();
    s.fill('#', VgaColor::BLUE, VgaColor::LIGHT_BROWN);
    for i in 0..TERMINAL_CELLS {
        assert_eq!(s.cell(i), 0x1E23);
    }
}

#[test]
fn show_error_blanks_screen_and_writes_red_message() {
    let mut s = Screen::new();
    s.fill('x', VgaColor::WHITE, VgaColor::WHITE);
    show_error(&mut s, "Oops");
    assert_eq!(s.cell(0), 0x044F);
    assert_eq!(s.cell(3), 0x0473);
    assert_eq!(s.cell(4), 0x0020);
    assert_eq!(s.cell(TERMINAL_CELLS - 1), 0x0020);
}

#[test]
fn str_chars_splits_string() {
    assert_eq!(str_chars("a\u{E9}b"), vec!['a', '\u{E9}', 'b']);
}
