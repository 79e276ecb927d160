use panex::emulator::TerminalBuffer;
use panex::style::Color;

fn line_text(buf: &TerminalBuffer, i: usize) -> String {
    buf.get_all_lines()[i].cells.iter().map(|c| c.c).collect()
}

#[test]
fn print_overwrites_at_cursor() {
    let mut buf = TerminalBuffer::new(80, 24);
    buf.write(b"A\n\x1b[AB");
    assert_eq!(buf.get_all_lines()[0].cells.len(), 1);
    assert_eq!(line_text(&buf, 0), "B");
}

#[test]
fn erase_display_leaves_single_empty_line() {
    let mut buf = TerminalBuffer::new(80, 24);
    buf.write(b"hello\nworld\nmore");
    buf.write(b"\x1b[2J");
    assert_eq!(buf.get_all_lines().len(), 1);
    assert!(buf.get_all_lines()[0].cells.is_empty());
    assert_eq!(buf.cursor_row(), 0);
    buf.write(b"x");
    assert_eq!(line_text(&buf, 0), "x");
}

#[test]
fn erase_display_mode_three_also_resets() {
    let mut buf = TerminalBuffer::new(80, 24);
    buf.write(b"abc\ndef\x1b[3J");
    assert_eq!(buf.get_all_lines().len(), 1);
    assert!(buf.get_all_lines()[0].cells.is_empty());
    assert_eq!(buf.cursor_row(), 0);
}

#[test]
fn scrollback_capped_at_ten_thousand() {
    let mut buf = TerminalBuffer::new(80, 24);
    let newlines = vec![b'\n'; 10_001];
    buf.write(&newlines);
    assert!(buf.get_all_lines().len() <= 10_000);
    assert_eq!(buf.get_all_lines().len(), 10_000);
}

#[test]
fn column_clamped_to_line_cap() {
    let mut buf = TerminalBuffer::new(80, 24);
    buf.write(b"\x1b[2501GX");
    let line = &buf.get_all_lines()[0];
    assert_eq!(line.cells.len(), 2000);
    assert_eq!(line.cells[1999].c, 'X');
    for l in buf.get_all_lines().iter() {
        assert!(l.cells.len() <= 2000);
    }
}

#[test]
fn long_print_never_exceeds_line_cap() {
    let mut buf = TerminalBuffer::new(80, 24);
    let many = vec![b'x'; 2500];
    buf.write(&many);
    for l in buf.get_all_lines().iter() {
        assert!(l.cells.len() <= 2000);
    }
}

#[test]
fn cursor_position_report() {
    let mut buf = TerminalBuffer::new(80, 24);
    buf.write(b"\x1b[3;4H\x1b[6n");
    let responses = buf.take_pending_responses();
    assert_eq!(responses, vec![b"\x1b[3;4R".to_vec()]);
    assert!(buf.take_pending_responses().is_empty());
}

#[test]
fn device_attributes_reply() {
    let mut buf = TerminalBuffer::new(80, 24);
    buf.write(b"\x1b[c");
    assert_eq!(buf.take_pending_responses(), vec![b"\x1b[?1;2c".to_vec()]);
}

#[test]
fn status_report_reply() {
    let mut buf = TerminalBuffer::new(80, 24);
    buf.write(b"\x1b[5n");
    assert_eq!(buf.take_pending_responses(), vec![b"\x1b[0n".to_vec()]);
}

#[test]
fn sgr_sets_and_resets_style() {
    let mut buf = TerminalBuffer::new(80, 24);
    buf.write(b"\x1b[1;31mX\x1b[0mY");
    let line = &buf.get_all_lines()[0];
    assert!(line.cells[0].style.bold);
    assert_eq!(line.cells[0].style.fg, Color::Named(1));
    assert!(!line.cells[1].style.bold);
    assert_eq!(line.cells[1].style.fg, Color::Default);
}

#[test]
fn sgr_indexed_and_rgb_colors() {
    let mut buf = TerminalBuffer::new(80, 24);
    buf.write(b"\x1b[38;5;200mA\x1b[48;2;1;2;3mB");
    let line = &buf.get_all_lines()[0];
    assert_eq!(line.cells[0].style.fg, Color::Indexed(200));
    assert_eq!(line.cells[1].style.bg, Color::Rgb(1, 2, 3));
}

#[test]
fn sgr_bright_colors() {
    let mut buf = TerminalBuffer::new(80, 24);
    buf.write(b"\x1b[92mG\x1b[104mB");
    let line = &buf.get_all_lines()[0];
    assert_eq!(line.cells[0].style.fg, Color::Bright(2));
    assert_eq!(line.cells[1].style.bg, Color::Bright(4));
}

#[test]
fn tab_moves_to_next_stop() {
    let mut buf = TerminalBuffer::new(80, 24);
    buf.write(b"ab\tc");
    let line = &buf.get_all_lines()[0];
    assert_eq!(line.cells.len(), 9);
    assert_eq!(line.cells[8].c, 'c');
    assert_eq!(line.cells[2].c, ' ');
}

#[test]
fn backspace_moves_without_deleting() {
    let mut buf = TerminalBuffer::new(80, 24);
    buf.write(b"ab\x08c");
    assert_eq!(line_text(&buf, 0), "ac");
}

#[test]
fn carriage_return_rewinds_column() {
    let mut buf = TerminalBuffer::new(80, 24);
    buf.write(b"abc\rX");
    assert_eq!(line_text(&buf, 0), "Xbc");
}

#[test]
fn erase_line_from_cursor() {
    let mut buf = TerminalBuffer::new(80, 24);
    buf.write(b"abcdef\x1b[3G\x1b[K");
    assert_eq!(line_text(&buf, 0), "ab");
}

#[test]
fn erase_line_to_cursor() {
    let mut buf = TerminalBuffer::new(80, 24);
    buf.write(b"abcdef\x1b[3G\x1b[1K");
    assert_eq!(line_text(&buf, 0), "   def");
}

#[test]
fn erase_whole_line() {
    let mut buf = TerminalBuffer::new(80, 24);
    buf.write(b"abcdef\x1b[2K");
    assert!(buf.get_all_lines()[0].cells.is_empty());
}

#[test]
fn erase_display_below_cursor() {
    let mut buf = TerminalBuffer::new(80, 24);
    buf.write(b"ab\ncd\nef\x1b[2;2H\x1b[J");
    assert_eq!(buf.get_all_lines().len(), 2);
    assert_eq!(line_text(&buf, 0), "ab");
    assert_eq!(line_text(&buf, 1), "c");
}

#[test]
fn save_and_restore_cursor() {
    let mut buf = TerminalBuffer::new(80, 24);
    buf.write(b"ab\x1b[sXY\x1b[uZ");
    assert_eq!(line_text(&buf, 0), "abZY");
}

#[test]
fn utf8_multi_byte_character() {
    let mut buf = TerminalBuffer::new(80, 24);
    buf.write("héllo€".as_bytes());
    assert_eq!(line_text(&buf, 0), "héllo€");
    assert_eq!(buf.get_all_lines()[0].cells.len(), 6);
}

#[test]
fn utf8_split_across_writes() {
    let mut buf = TerminalBuffer::new(80, 24);
    buf.write(b"\xc3");
    buf.write(b"\xa9");
    assert_eq!(line_text(&buf, 0), "é");
}

#[test]
fn invalid_byte_prints_replacement() {
    let mut buf = TerminalBuffer::new(80, 24);
    buf.write(b"a\xffb");
    assert_eq!(line_text(&buf, 0), "a\u{fffd}b");
}

#[test]
fn escape_split_across_writes() {
    let mut buf = TerminalBuffer::new(80, 24);
    buf.write(b"ab\x1b[");
    buf.write(b"2J");
    assert_eq!(buf.get_all_lines().len(), 1);
    assert!(buf.get_all_lines()[0].cells.is_empty());
}

#[test]
fn content_line_count_excludes_trailing_empties() {
    let mut buf = TerminalBuffer::new(80, 24);
    assert_eq!(buf.content_line_count(), 1);
    buf.write(b"a\n\n\n");
    assert_eq!(buf.get_all_lines().len(), 4);
    assert_eq!(buf.content_line_count(), 1);
    buf.write(b"b");
    assert_eq!(buf.content_line_count(), 4);
}

#[test]
fn cursor_down_grows_buffer() {
    let mut buf = TerminalBuffer::new(80, 24);
    buf.write(b"\x1b[5B");
    assert_eq!(buf.get_all_lines().len(), 6);
    assert_eq!(buf.cursor_row(), 5);
    assert_eq!(buf.content_line_count(), 1);
}

#[test]
fn unknown_and_malformed_sequences_are_ignored() {
    let mut buf = TerminalBuffer::new(80, 24);
    buf.write(b"a\x1b[999Zb");
    assert_eq!(line_text(&buf, 0), "ab");
    buf.write(b"\x1b]0;some title\x07c");
    assert_eq!(line_text(&buf, 0), "abc");
    buf.write(b"\x1b[1;?5md");
    assert_eq!(line_text(&buf, 0), "abcd");
    assert!(!buf.get_all_lines()[0].cells[3].style.bold);
}

#[test]
fn private_markers_do_not_break_parsing() {
    let mut buf = TerminalBuffer::new(80, 24);
    buf.write(b"\x1b[?25hx");
    assert_eq!(line_text(&buf, 0), "x");
}

#[test]
fn resize_keeps_content() {
    let mut buf = TerminalBuffer::new(80, 24);
    buf.write(b"hello");
    buf.resize(10, 5);
    assert_eq!(line_text(&buf, 0), "hello");
}

#[test]
fn decimal_rendering_is_exact() {
    assert_eq!(panex::digits::dec_bytes(0), b"0".to_vec());
    assert_eq!(panex::digits::dec_bytes(12045), b"12045".to_vec());
    let s = panex::digits::dec_string(987);
    assert_eq!(s, "987");
}

#[test]
fn huge_cursor_down_trims_to_cap() {
    let mut buf = TerminalBuffer::new(80, 24);
    buf.write(b"top\x1b[15000B");
    assert_eq!(buf.get_all_lines().len(), 10_000);
    assert_eq!(buf.cursor_row(), 9_999);
}

#[test]
fn restore_beyond_content_grows_on_demand() {
    let mut buf = TerminalBuffer::new(80, 24);
    buf.write(b"a\nb\nc\x1b[s\x1b[2J\x1b[ux");
    assert_eq!(buf.get_all_lines().len(), 3);
    assert_eq!(line_text(&buf, 2), " x");
}

#[test]
fn sgr_applies_beyond_sixteen_parameters() {
    let mut buf = TerminalBuffer::new(80, 24);
    buf.write(b"\x1b[1;2;3;4;5;7;8;9;22;23;24;25;27;28;29;1;31mX");
    let cell = &buf.get_all_lines()[0].cells[0];
    assert!(cell.style.bold);
    assert_eq!(cell.style.fg, Color::Named(1));
}
