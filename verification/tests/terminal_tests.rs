use mxrox::terminal::Terminal;
use mxrox::vga::{Screen, TERMINAL_CELLS};

fn chars(s: &str) -> Vec<char> {
    s.chars().collect()
}

fn rows_of(t: &Terminal) -> Vec<String> {
    t.rows().into_iter().map(|r| r.into_iter().collect()).collect()
}

#[test]
fn new_terminal_is_empty() {
    let t = Terminal::new();
    assert_eq!(t.text(), vec![]);
    assert!(t.rows().is_empty());
}

#[test]
fn print_shows_text_white_on_black() {
    let mut t = Terminal::new();
    let mut s = Screen::new();
    t.print(&mut s, "hello");
    assert_eq!(t.text(), chars("hello"));
    assert_eq!(rows_of(&t), vec!["hello".to_string()]);
    assert_eq!(s.cell(0), 0x0F68);
    assert_eq!(s.cell(4), 0x0F6F);
    assert_eq!(s.cell(5), 0x0F20);
    assert_eq!(s.cell(79), 0x0F20);
    assert_eq!(s.cell(80), 0x0020);
    assert_eq!(s.cell(TERMINAL_CELLS - 1), 0x0020);
}

#[test]
fn println_then_print_makes_two_rows() {
    let mut t = Terminal::new();
    let mut s = Screen::new();
    t.println(&mut s, "a");
    t.print(&mut s, "b");
    assert_eq!(t.text(), chars("a\nb"));
    assert_eq!(rows_of(&t), vec!["a".to_string(), "b".to_string()]);
    assert_eq!(s.cell(80), 0x0F62);
}

#[test]
fn carriage_return_before_newline_is_dropped() {
    let mut t = Terminal::new();
    let mut s = Screen::new();
    t.print(&mut s, "x\r\ny");
    assert_eq!(rows_of(&t), vec!["x".to_string(), "y".to_string()]);
}

#[test]
fn final_carriage_return_is_kept() {
    let mut t = Terminal::new();
    let mut s = Screen::new();
    t.print(&mut s, "x\r");
    assert_eq!(rows_of(&t), vec!["x\r".to_string()]);
}

#[test]
fn empty_lines_take_no_row() {
    let mut t = Terminal::new();
    let mut s = Screen::new();
    t.print(&mut s, "a\n\n\nb\n");
    assert_eq!(rows_of(&t), vec!["a".to_string(), "b".to_string()]);
}

#[test]
fn long_line_wraps_at_width() {
    let mut t = Terminal::new();
    let mut s = Screen::new();
    let line = "a".repeat(85);
    t.print(&mut s, &line);
    assert_eq!(rows_of(&t), vec!["a".repeat(80), "a".repeat(5)]);
    assert_eq!(s.cell(79), 0x0F61);
    assert_eq!(s.cell(84), 0x0F61);
    assert_eq!(s.cell(85), 0x0F20);
}

#[test]
fn only_last_rows_are_shown() {
    let mut t = Terminal::new();
    let mut s = Screen::new();
    for i in 0..30 {
        t.println(&mut s, &format!("line{}", i));
    }
    let rows = rows_of(&t);
    assert_eq!(rows.len(), 25);
    assert_eq!(rows[0], "line5");
    assert_eq!(rows[24], "line29");
    assert_eq!(s.cell(0), 0x0F6C);
    assert_eq!(s.cell(4), 0x0F35);
}

#[test]
fn log_info_stamps_time() {
    let mut t = Terminal::new();
    let mut s = Screen::new();
    t.log_info(&mut s, 42, "boot");
    assert_eq!(t.text(), chars("[42] [INFO] boot\n"));
}

#[test]
fn log_error_stamps_time() {
    let mut t = Terminal::new();
    let mut s = Screen::new();
    t.log_error(&mut s, 7, "x");
    assert_eq!(t.text(), chars("[7] [FATAL] x\n"));
    t.log_info(&mut s, 0, "y");
    assert_eq!(t.text(), chars("[7] [FATAL] x\n[0] [INFO] y\n"));
}

#[test]
fn non_ascii_row_leaves_gaps() {
    let mut t = Terminal::new();
    let mut s = Screen::new();
    assert!(t.can_print("\u{E9}"));
    t.print(&mut s, "\u{E9}");
    assert_eq!(s.cell(0), 0x0FE9);
    assert_eq!(s.cell(1), 0);
    assert_eq!(s.cell(2), 0x0F20);
    assert_eq!(s.cell(79), 0x0F20);
    assert_eq!(s.cell(80), 0x0020);
}

#[test]
fn row_wider_than_screen_in_bytes_cannot_be_printed() {
    let t = Terminal::new();
    assert!(!t.can_print(&"\u{E9}".repeat(41)));
    assert!(t.can_print(&"\u{E9}".repeat(40)));
    assert!(t.can_print(&"a".repeat(1000)));
}

#[test]
fn ascii_screen_depends_on_text_alone() {
    let mut t1 = Terminal::new();
    let mut s1 = Screen::new();
    t1.print(&mut s1, "ab\nc");
    t1.print(&mut s1, "d\ne");
    let mut t2 = Terminal::new();
    let mut s2 = Screen::new();
    s2.fill('z', 3, 5);
    t2.print(&mut s2, "ab\ncd\ne");
    assert_eq!(t1.text(), t2.text());
    for i in 0..TERMINAL_CELLS {
        assert_eq!(s1.cell(i), s2.cell(i));
    }
}
