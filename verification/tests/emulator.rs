use terminal_plugin::dashboard::DashboardFrame;
use terminal_plugin::emulator::Emulator;
use terminal_plugin::sgr::{palette_256, palette_color};
use terminal_plugin::terminal::{DEFAULT_BG, DEFAULT_FG};

fn cell_ch(em: &Emulator, col: u16, row: u16) -> char {
    let s = em.snapshot();
    s.cell(col, row).ch
}

#[test]
fn bracketed_paste_mode_tracks_2004() {
    let mut em = Emulator::new(10, 2);
    assert!(!em.bracketed_paste());
    em.feed(b"\x1b[?2004h");
    assert!(em.bracketed_paste());
    em.feed(b"\x1b[?2004l");
    assert!(!em.bracketed_paste());
}

#[test]
fn primary_text_reads_grid_and_trims_blanks() {
    let mut em = Emulator::new(20, 5);
    em.feed(b"abc\r\ndef");
    // Trailing spaces per row and trailing blank rows are trimmed.
    assert_eq!(em.primary_text(), vec!["abc".to_owned(), "def".to_owned()]);
}

#[test]
fn reset_primary_blanks_the_screen() {
    let mut em = Emulator::new(10, 3);
    em.feed(b"stuff");
    assert!(!em.primary_text().is_empty());
    em.reset_primary();
    assert!(em.primary_text().is_empty());
    assert_eq!(em.snapshot().cursor, Some((0, 0)));
}

#[test]
fn primary_text_ignores_alt_screen_content() {
    // Content drawn on the alternate screen must not leak into the flush.
    let mut em = Emulator::new(20, 4);
    em.feed(b"\x1b[?1049h");
    em.feed(b"alt-only content");
    em.feed(b"\x1b[?1049l");
    assert!(em.primary_text().is_empty());
}

#[test]
fn print_advances_cursor_left_to_right() {
    let mut em = Emulator::new(10, 2);
    em.feed(b"abc");
    assert_eq!(cell_ch(&em, 0, 0), 'a');
    assert_eq!(cell_ch(&em, 1, 0), 'b');
    assert_eq!(cell_ch(&em, 2, 0), 'c');
    assert_eq!(em.snapshot().cursor, Some((3, 0)));
}

#[test]
fn cr_lf_advances_to_next_line() {
    let mut em = Emulator::new(10, 3);
    em.feed(b"hi\r\nyo");
    assert_eq!(cell_ch(&em, 0, 0), 'h');
    assert_eq!(cell_ch(&em, 1, 0), 'i');
    assert_eq!(cell_ch(&em, 0, 1), 'y');
    assert_eq!(cell_ch(&em, 1, 1), 'o');
}

#[test]
fn backspace_moves_cursor_left() {
    let mut em = Emulator::new(10, 2);
    em.feed(b"ab\x08c");
    assert_eq!(cell_ch(&em, 0, 0), 'a');
    // BS does not erase; the next print overwrites column 1.
    assert_eq!(cell_ch(&em, 1, 0), 'c');
}

#[test]
fn csi_cup_positions_cursor_one_indexed() {
    let mut em = Emulator::new(10, 5);
    em.feed(b"\x1b[3;4Hx");
    // CSI 3;4H → row 3, col 4 (1-based) → row 2, col 3 (0-based)
    assert_eq!(cell_ch(&em, 3, 2), 'x');
}

#[test]
fn csi_cup_no_args_goes_home() {
    let mut em = Emulator::new(10, 5);
    em.feed(b"\x1b[3;4H");
    em.feed(b"\x1b[Hy");
    assert_eq!(cell_ch(&em, 0, 0), 'y');
}

#[test]
fn csi_cuu_cud_cuf_cub_move_cursor() {
    let mut em = Emulator::new(10, 5);
    em.feed(b"\x1b[3;3H"); // row 3, col 3 (1-based) → (2, 2)
    em.feed(b"\x1b[A"); // up 1 → (2, 1)
    em.feed(b"u");
    em.feed(b"\x1b[2;2H"); // (1, 1)
    em.feed(b"\x1b[2C");   // right 2 → (1, 3)
    em.feed(b"r");
    assert_eq!(cell_ch(&em, 2, 1), 'u');
    assert_eq!(cell_ch(&em, 3, 1), 'r');
}

#[test]
fn csi_el_clears_to_end_of_line() {
    let mut em = Emulator::new(10, 2);
    em.feed(b"abcdef");
    em.feed(b"\x1b[3G"); // CHA → col 3 (1-based) → 2
    em.feed(b"\x1b[K");  // erase from cursor to end
    assert_eq!(cell_ch(&em, 0, 0), 'a');
    assert_eq!(cell_ch(&em, 1, 0), 'b');
    assert_eq!(cell_ch(&em, 2, 0), ' ');
    assert_eq!(cell_ch(&em, 5, 0), ' ');
}

#[test]
fn csi_ed_2_clears_whole_screen() {
    let mut em = Emulator::new(5, 3);
    em.feed(b"hello\r\nworld");
    em.feed(b"\x1b[2J");
    for r in 0..3 { for c in 0..5 { assert_eq!(cell_ch(&em, c, r), ' '); } }
}

#[test]
fn sgr_color_applies_to_following_chars() {
    let mut em = Emulator::new(5, 1);
    em.feed(b"\x1b[31mR\x1b[0mn");
    let f = em.snapshot();
    assert_eq!(f.cell(0, 0).fg, palette_color(1)); // red
    assert_eq!(f.cell(1, 0).fg, DEFAULT_FG);       // reset
}

#[test]
fn sgr_truecolor_24bit() {
    let mut em = Emulator::new(2, 1);
    em.feed(b"\x1b[38;2;10;20;30mZ");
    let c = em.snapshot().cell(0, 0).fg;
    assert_eq!(c, (10u32 << 24) | (20u32 << 16) | (30u32 << 8) | 0xFF);
}

#[test]
fn sgr_256_palette_index() {
    let mut em = Emulator::new(2, 1);
    em.feed(b"\x1b[38;5;196mX");
    assert_eq!(em.snapshot().cell(0, 0).fg, palette_256(196));
}

#[test]
fn sgr_attrs_bold_underline_reverse() {
    let mut em = Emulator::new(4, 1);
    em.feed(b"\x1b[1;4;7mz");
    let frame = em.snapshot();
    let c = frame.cell(0, 0);
    assert!(c.attrs.bold);
    assert!(c.attrs.underline);
    assert!(c.attrs.reverse);
}

#[test]
fn dec_private_alt_screen_preserves_primary() {
    let mut em = Emulator::new(4, 2);
    em.feed(b"primary");
    em.feed(b"\x1b[?1049h");
    em.feed(b"\x1b[Halt");
    // We're on alt screen now; primary is still "prim" (4 cols, wrap).
    assert_eq!(cell_ch(&em, 0, 0), 'a');
    em.feed(b"\x1b[?1049l"); // back to primary
    assert_eq!(cell_ch(&em, 0, 0), 'p');
    assert_eq!(cell_ch(&em, 1, 0), 'r');
}

#[test]
fn dec_private_cursor_visibility() {
    let mut em = Emulator::new(4, 1);
    em.feed(b"\x1b[?25l");
    assert!(em.snapshot().cursor.is_none());
    em.feed(b"\x1b[?25h");
    assert!(em.snapshot().cursor.is_some());
}

#[test]
fn linefeed_at_bottom_scrolls_up() {
    let mut em = Emulator::new(3, 2);
    em.feed(b"AB\r\nCD\r\nEF");
    assert_eq!(cell_ch(&em, 0, 0), 'C');
    assert_eq!(cell_ch(&em, 0, 1), 'E');
}

#[test]
fn esc_save_restore_cursor() {
    let mut em = Emulator::new(5, 2);
    em.feed(b"\x1b[1;3H");  // (0, 2)
    em.feed(b"\x1b7");       // save
    em.feed(b"\x1b[2;1Hx"); // jump and write
    em.feed(b"\x1b8");       // restore
    em.feed(b"y");
    assert_eq!(cell_ch(&em, 0, 1), 'x');
    assert_eq!(cell_ch(&em, 2, 0), 'y');
}

#[test]
fn resize_grows_and_clamps_cursor() {
    let mut em = Emulator::new(4, 2);
    em.feed(b"abcd");
    assert_eq!(em.snapshot().cursor, Some((3, 0))); // pending wrap state
    em.resize(8, 3);
    assert_eq!(em.cols(), 8);
    assert_eq!(em.rows(), 3);
    let s = em.snapshot();
    assert_eq!(s.cells.len(), 8 * 3);
    assert_eq!(s.cell(0, 0).ch, 'a');
}

#[test]
fn utf8_chars_render() {
    let mut em = Emulator::new(5, 1);
    em.feed("héllo".as_bytes());
    assert_eq!(cell_ch(&em, 1, 0), 'é');
}

fn row_text(frame: &DashboardFrame, row: u16) -> String {
    (0..frame.cols).map(|col| frame.cell(col, row).ch).collect()
}

#[test]
fn a_new_grid_is_blank_in_the_default_colors() {
    let frame = Emulator::new(0, 0).snapshot();
    assert_eq!((frame.cols, frame.rows), (1, 1));
    assert_eq!(frame.cell(0, 0).ch, ' ');
    assert_eq!(frame.cell(0, 0).fg, DEFAULT_FG);
    assert_eq!(frame.cell(0, 0).bg, DEFAULT_BG);
    assert_eq!(frame.cursor, Some((0, 0)));
}

#[test]
fn text_wraps_only_when_more_follows() {
    let mut em = Emulator::new(3, 2);
    em.feed(b"abc");
    assert_eq!(em.snapshot().cursor, Some((2, 0)));
    em.feed(b"d");
    assert_eq!(em.primary_text(), vec!["abc", "d"]);
    // Without autowrap the last column is overwritten.
    let mut em = Emulator::new(3, 2);
    em.feed(b"\x1b[?7labcd");
    assert_eq!(em.primary_text(), vec!["abd"]);
}

#[test]
fn resizing_keeps_columns_and_rows() {
    let mut em = Emulator::new(4, 3);
    em.feed(b"abcd\r\nefgh\r\nij");
    em.resize(6, 2);
    assert_eq!(em.primary_text(), vec!["abcd", "efgh"]);
    assert_eq!(em.snapshot().cursor, Some((2, 1)));
    em.resize(2, 3);
    assert_eq!(em.primary_text(), vec!["ab", "ef"]);
    assert_eq!(em.snapshot().cursor, Some((1, 1)));
}

#[test]
fn a_scroll_region_scrolls_alone() {
    let mut em = Emulator::new(2, 4);
    em.feed(b"a\r\nb\r\nc\r\nd");
    em.feed(b"\x1b[2;3r\x1b[3;1H\n");
    assert_eq!(em.primary_text(), vec!["a", "c", "", "d"]);
    em.feed(b"\x1b[T");
    assert_eq!(em.primary_text(), vec!["a", "", "c", "d"]);
    em.feed(b"\x1b[S");
    assert_eq!(em.primary_text(), vec!["a", "c", "", "d"]);
    em.feed(b"\x1b[2;1H\x1bM");
    assert_eq!(em.primary_text(), vec!["a", "", "c", "d"]);
}

#[test]
fn tabs_stop_at_every_eighth_column() {
    let mut em = Emulator::new(20, 1);
    em.feed(b"a\tb\tc\td");
    let text = row_text(&em.snapshot(), 0);
    assert_eq!(&text[0..1], "a");
    assert_eq!(&text[8..9], "b");
    assert_eq!(&text[16..17], "c");
    assert_eq!(&text[19..20], "d");
}

#[test]
fn erasing_parts_of_the_display() {
    let mut em = Emulator::new(3, 3);
    em.feed(b"abc\r\ndef\r\nghi\x1b[2;2H");
    let mut below = Emulator::new(3, 3);
    below.feed(b"abc\r\ndef\r\nghi\x1b[2;2H\x1b[J");
    assert_eq!(below.primary_text(), vec!["abc", "d"]);
    em.feed(b"\x1b[1J");
    assert_eq!(em.primary_text(), vec!["", "  f", "ghi"]);
    em.feed(b"\x1b[2K");
    assert_eq!(em.primary_text(), vec!["", "", "ghi"]);
    assert_eq!(em.snapshot().cursor, Some((1, 1)));
}

#[test]
fn a_reset_brings_everything_back() {
    let mut em = Emulator::new(4, 2);
    em.feed(b"\x1b[31m\x1b[?25l\x1b[?1049hxy\x1bc");
    assert!(em.primary_text().is_empty());
    let frame = em.snapshot();
    assert_eq!(frame.cursor, Some((0, 0)));
    em.feed(b"z");
    assert_eq!(em.snapshot().cell(0, 0).fg, DEFAULT_FG);
}

#[test]
fn palettes_have_the_usual_colors() {
    assert_eq!(palette_256(16), 0x0000_00FF);
    assert_eq!(palette_256(231), 0xFFFF_FFFF);
    assert_eq!(palette_256(232), 0x0808_08FF);
    assert_eq!(palette_256(255), 0xEEEE_EEFF);
    assert_eq!(palette_256(1), palette_color(1));
}

#[test]
fn subparameters_select_colors_too() {
    let mut em = Emulator::new(2, 1);
    em.feed(b"\x1b[38:2:1:2:3mQ");
    assert_eq!(em.snapshot().cell(0, 0).fg, 0x0102_03FF);
}

#[test]
fn a_blanked_screen_starts_over() {
    let mut em = Emulator::new(4, 2);
    em.feed(b"abcd");
    em.reset_primary();
    em.feed(b"x");
    assert_eq!(em.primary_text(), vec!["x"]);
    // A wrap that is due on the alternate screen stays due.
    let mut em = Emulator::new(4, 2);
    em.feed(b"\x1b[?1049habcd");
    em.reset_primary();
    em.feed(b"x");
    assert_eq!(row_text(&em.snapshot(), 0), "abcd");
    assert_eq!(row_text(&em.snapshot(), 1), "x   ");
}

#[test]
fn a_saved_cursor_comes_back_again_and_again() {
    let mut em = Emulator::new(6, 3);
    em.feed(b"\x1b8ab\x1b7cd\r\n\x1b[3;6Hx\x1b[2A\x1b8");
    assert_eq!(em.snapshot().cursor, Some((2, 0)));
    em.feed(b"\x1b[3;1H\x1b8");
    assert_eq!(em.snapshot().cursor, Some((2, 0)));
    assert_eq!(em.primary_text(), vec!["abcd", "", "     x"]);
}
