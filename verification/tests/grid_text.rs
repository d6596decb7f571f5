use oryxis_terminal::grid::{
    abs_cursor_logical_start, all_text, text_before_cursor, cursor_logical_line, get_selection_text, logical_line_from_abs, tail_text,
    text_from_abs, visible_text, GridCell, GridView,
};
use oryxis_terminal::links::{
    link_target_at, hover_osc8, hover_scraped, logical_line_at, osc8_link_at_cell, osc8_link_run, url_at_cell, url_run_at_cell,
};
use oryxis_terminal::highlight::PrivacyClasses;
use oryxis_terminal::selection::Selection;
use oryxis_terminal::paragraph::{clamp_click, paragraph_selection};
use oryxis_terminal::smart::{privacy_value_at_cell, smart_span_at};
use unicode_width::UnicodeWidthChar;

/// A small stand-in for the emulator: printable characters (with double
/// width glyphs and autowrap), CR, LF, scrollback and the alternate-screen
/// switch; enough to lay text out the way the terminal grid holds it.
struct Emu {
    cols: usize,
    screen: usize,
    history: usize,
    rows: Vec<Vec<GridCell>>,
    cursor_row: usize,
    cursor_col: usize,
    pending_wrap: bool,
    alt: bool,
    link: u32,
    uris: Vec<String>,
    ids: Vec<Option<String>>,
}

fn blank() -> GridCell {
    GridCell { c: ' ', wide_spacer: false, leading_wide_spacer: false, wrapline: false, link: 0 }
}

impl Emu {
    fn new(cols: usize, screen: usize) -> Emu {
        Emu {
            cols,
            screen,
            history: 0,
            rows: (0..screen).map(|_| vec![blank(); cols]).collect(),
            cursor_row: 0,
            cursor_col: 0,
            pending_wrap: false,
            alt: false,
            link: 0,
            uris: Vec::new(),
            ids: Vec::new(),
        }
    }

    /// `ESC ] 8 ; params ; uri ESC \`: an empty uri closes the link; an
    /// `id=` parameter ties separate sequences to one link.
    fn hyperlink(&mut self, params: &str, uri: &str) {
        if uri.is_empty() {
            self.link = 0;
            return;
        }
        let id = params.split(':').find_map(|p| p.strip_prefix("id=")).map(|s| s.to_string());
        if id.is_some() {
            for k in 0..self.uris.len() {
                if self.ids[k] == id && self.uris[k] == uri {
                    self.link = k as u32 + 1;
                    return;
                }
            }
        }
        self.uris.push(uri.to_string());
        self.ids.push(id);
        self.link = self.uris.len() as u32;
    }

    fn row_index(&self) -> usize {
        self.history + self.cursor_row
    }

    fn linefeed(&mut self) {
        if self.cursor_row + 1 == self.screen {
            self.rows.push(vec![blank(); self.cols]);
            self.history += 1;
        } else {
            self.cursor_row += 1;
        }
    }

    fn wrapline(&mut self) {
        let r = self.row_index();
        self.rows[r][self.cursor_col].wrapline = true;
        self.linefeed();
        self.cursor_col = 0;
        self.pending_wrap = false;
    }

    fn put(&mut self, cell: GridCell) {
        let r = self.row_index();
        let keep_wrap = self.rows[r][self.cursor_col].wrapline;
        self.rows[r][self.cursor_col] = GridCell { wrapline: keep_wrap, link: self.link, ..cell };
    }

    fn input(&mut self, c: char) {
        let width = c.width().unwrap_or(1);
        if self.pending_wrap {
            self.wrapline();
        }
        if width == 2 {
            if self.cursor_col + 1 >= self.cols {
                self.put(GridCell { c: ' ', leading_wide_spacer: true, ..blank() });
                self.wrapline();
            }
            self.put(GridCell { c, ..blank() });
            self.cursor_col += 1;
            self.put(GridCell { c: ' ', wide_spacer: true, ..blank() });
        } else {
            self.put(GridCell { c, ..blank() });
        }
        if self.cursor_col + 1 < self.cols {
            self.cursor_col += 1;
        } else {
            self.pending_wrap = true;
        }
    }

    fn process(&mut self, text: &str) {
        let mut rest = text;
        while let Some(c) = rest.chars().next() {
            if let Some(body) = rest.strip_prefix("\x1b]8;") {
                let end = body.find("\x1b\\").expect("terminated OSC 8");
                let (params, uri) = body[..end].split_once(';').expect("OSC 8 params");
                let (params, uri) = (params.to_string(), uri.to_string());
                self.hyperlink(&params, &uri);
                rest = &body[end + 2..];
                continue;
            }
            if rest.starts_with("\x1b[?1049h") {
                self.alt = true;
                rest = &rest["\x1b[?1049h".len()..];
                continue;
            }
            match c {
                '\r' => {
                    self.cursor_col = 0;
                    self.pending_wrap = false;
                }
                '\n' => self.linefeed(),
                _ => self.input(c),
            }
            rest = &rest[c.len_utf8()..];
        }
    }

    fn clear_history(&mut self) {
        self.rows.drain(0..self.history);
        self.history = 0;
    }

    fn grid(&self) -> GridView {
        GridView {
            cols: self.cols,
            history: self.history,
            rows: self.rows.clone(),
            cursor_line: self.cursor_row as i32,
            cursor_col: self.cursor_col,
            alt_screen: self.alt,
            link_uris: self.uris.clone(),
        }
    }
}

fn state_with(lines: &[&str]) -> GridView {
    let mut emu = Emu::new(40, 6);
    let mut text = String::new();
    for l in lines {
        text.push_str(l);
        text.push_str("\r\n");
    }
    emu.process(&text);
    emu.grid()
}

fn flowing_selection_spans_full_middle_rows_body() {
    let g = state_with(&["abcde", "fghij", "klmno"]);
    let sel = Selection { start: (3, 0), end: (2, 2), block: false };
    let text = get_selection_text(&g, &sel);
    let rows: Vec<&str> = text.split('\n').collect();
    assert_eq!(rows.len(), 3);
    assert_eq!(rows[0].trim_end(), "de");
    assert_eq!(rows[1].trim_end(), "fghij");
    assert_eq!(rows[2], "klm");
}

fn block_selection_takes_same_columns_each_row_body() {
    let g = state_with(&["abcde", "fghij", "klmno"]);
    let sel = Selection { start: (3, 0), end: (2, 2), block: true };
    assert_eq!(get_selection_text(&g, &sel), "cd\nhi\nmn");
}

fn block_selection_preserves_interior_trailing_spaces_body() {
    let g = state_with(&["aa  bb", "cc  dd", "x     "]);
    let sel = Selection { start: (0, 0), end: (3, 2), block: true };
    assert_eq!(get_selection_text(&g, &sel), "aa  \ncc  \nx   ");
}

fn flowing_selection_trims_trailing_per_row_body() {
    let g = state_with(&["hello     ", "world"]);
    let sel = Selection { start: (0, 0), end: (9, 0), block: false };
    assert_eq!(get_selection_text(&g, &sel), "hello");
}

fn smart_select_grabs_whole_url_body() {
    let g = state_with(&["see https://example.com x"]);
    let (c0, c1) = smart_span_at(&g, 0, 8).expect("URL should be detected");
    let sel = Selection { start: (c0, 0), end: (c1, 0), block: false };
    assert_eq!(get_selection_text(&g, &sel), "https://example.com");
}

fn smart_select_misses_plain_word_body() {
    let g = state_with(&["see https://example.com x"]);
    assert!(smart_span_at(&g, 0, 1).is_none());
}

fn paragraph_selection_spans_to_blank_lines_body() {
    let mut emu = Emu::new(40, 8);
    // Two paragraphs separated by a blank line.
    emu.process("para one a\r\npara one b\r\n\r\npara two\r\n");
    let g = emu.grid();
    // Click on the second line of the first paragraph.
    let sel = paragraph_selection(&g, 0, 1);
    assert_eq!(get_selection_text(&g, &sel), "para one a\npara one b");
}

#[test]
fn widget_paragraph_selection_spans_to_blank_lines() {
    paragraph_selection_spans_to_blank_lines_body();
}

#[test]
fn selection_paragraph_selection_spans_to_blank_lines() {
    paragraph_selection_spans_to_blank_lines_body();
}

#[test]
fn widget_flowing_selection_spans_full_middle_rows() {
    flowing_selection_spans_full_middle_rows_body();
}

#[test]
fn selection_flowing_selection_spans_full_middle_rows() {
    flowing_selection_spans_full_middle_rows_body();
}

#[test]
fn widget_block_selection_takes_same_columns_each_row() {
    block_selection_takes_same_columns_each_row_body();
}

#[test]
fn selection_block_selection_takes_same_columns_each_row() {
    block_selection_takes_same_columns_each_row_body();
}

#[test]
fn widget_block_selection_preserves_interior_trailing_spaces() {
    block_selection_preserves_interior_trailing_spaces_body();
}

#[test]
fn selection_block_selection_preserves_interior_trailing_spaces() {
    block_selection_preserves_interior_trailing_spaces_body();
}

#[test]
fn widget_flowing_selection_trims_trailing_per_row() {
    flowing_selection_trims_trailing_per_row_body();
}

#[test]
fn selection_flowing_selection_trims_trailing_per_row() {
    flowing_selection_trims_trailing_per_row_body();
}

#[test]
fn flowing_selection_skips_wide_char_spacers() {
    let g = state_with(&["专用发票"]);
    let sel = Selection { start: (0, 0), end: (7, 0), block: false };
    assert_eq!(get_selection_text(&g, &sel), "专用发票");
}

#[test]
fn block_selection_skips_wide_char_spacers() {
    let g = state_with(&["专用发票"]);
    let sel = Selection { start: (0, 0), end: (7, 0), block: true };
    assert_eq!(get_selection_text(&g, &sel), "专用发票");
}

#[test]
fn widget_smart_select_grabs_whole_url() {
    smart_select_grabs_whole_url_body();
}

#[test]
fn selection_smart_select_grabs_whole_url() {
    smart_select_grabs_whole_url_body();
}

#[test]
fn widget_smart_select_misses_plain_word() {
    smart_select_misses_plain_word_body();
}

#[test]
fn selection_smart_select_misses_plain_word() {
    smart_select_misses_plain_word_body();
}

#[test]
fn smart_select_takes_a_path_or_address_token() {
    let g = state_with(&["cd /usr/local/bin && ping 10.0.0.1"]);
    assert_eq!(smart_span_at(&g, 0, 6), Some((3, 16)));
    assert_eq!(smart_span_at(&g, 0, 30), Some((26, 33)));
    assert_eq!(smart_span_at(&g, 0, 2), None, "a blank cell selects nothing smart");
    assert_eq!(smart_span_at(&g, 0, 0), None, "plain word");
    assert_eq!(smart_span_at(&g, 9, 0), None, "outside the grid");
}

#[test]
fn soft_wrapped_rows_copy_without_a_newline() {
    let mut emu = Emu::new(10, 4);
    emu.process("0123456789abcdef\r\nnext");
    let g = emu.grid();
    let sel = Selection { start: (0, 0), end: (9, 2), block: false };
    assert_eq!(get_selection_text(&g, &sel), "0123456789abcdef\nnext");
}

#[test]
fn selection_reaching_past_the_grid_reads_only_grid_rows() {
    let g = state_with(&["top", "bottom"]);
    let sel = Selection { start: (0, -50), end: (200, 50), block: false };
    assert_eq!(get_selection_text(&g, &sel), "top\nbottom\n\n\n\n");
    let block = Selection { start: (0, -1), end: (2, 1), block: true };
    assert_eq!(get_selection_text(&g, &block), "\ntop\nbot");
}

fn five_lines() -> Emu {
    let mut emu = Emu::new(24, 3);
    emu.process("one\r\ntwo\r\nthree\r\nfour\r\nfive");
    emu
}

#[test]
fn visible_text_exports_only_the_drawn_viewport() {
    let g = five_lines().grid();
    assert_eq!(visible_text(&g, 0), "three\nfour\nfive");
    assert_eq!(visible_text(&g, 2), "one\ntwo\nthree");
}

#[test]
fn visible_text_clamps_an_offset_the_grid_no_longer_holds() {
    let mut emu = five_lines();
    assert_eq!(visible_text(&emu.grid(), 9), "one\ntwo\nthree");
    emu.clear_history();
    assert_eq!(visible_text(&emu.grid(), 9), "three\nfour\nfive");
    assert_eq!(visible_text(&emu.grid(), -3), "three\nfour\nfive");
}

#[test]
fn all_text_covers_scrollback_and_screen() {
    let g = five_lines().grid();
    assert_eq!(all_text(&g), "one\ntwo\nthree\nfour\nfive");
}

#[test]
fn tail_text_reaches_into_history_and_skips_trailing_blanks() {
    let mut emu = Emu::new(20, 4);
    emu.process("a\r\nb\r\n\r\nc\r\nd\r\n");
    let g = emu.grid();
    assert_eq!(tail_text(&g, 3), vec!["", "c", "d"]);
    assert_eq!(tail_text(&g, 100), vec!["a", "b", "", "c", "d"]);
    assert!(tail_text(&g, 0).is_empty());
}

#[test]
fn text_from_abs_starts_at_the_anchor() {
    let mut emu = Emu::new(80, 24);
    emu.process("Welcome to Ubuntu\r\nadmin@db:~$ ");
    let anchor = abs_cursor_logical_start(&emu.grid()).expect("primary screen");
    emu.process("uptime\r\n 07:55:44 up 3 days\r\nadmin@db:~$ ");
    let region = text_from_abs(&emu.grid(), anchor, 200).expect("anchor still readable");
    assert!(!region.lines.iter().any(|l| l.contains("Welcome to Ubuntu")));
    assert_eq!(region.lines[0], "admin@db:~$ uptime");
    assert_eq!(region.lines[1], " 07:55:44 up 3 days");
    assert_eq!(region.dropped, 0);
}

#[test]
fn text_from_abs_keeps_column_runs() {
    let mut emu = Emu::new(80, 24);
    emu.process("admin@db:~$ ");
    let anchor = abs_cursor_logical_start(&emu.grid()).expect("primary screen");
    emu.process("df -h\r\n/dev/sda1        47G   19G   26G  41% /\r\n");
    let region = text_from_abs(&emu.grid(), anchor, 200).expect("anchor still readable");
    assert!(region.lines[1].ends_with("41% /"), "the whole row survives: {:?}", region.lines[1]);
}

#[test]
fn text_from_abs_elides_the_middle_past_the_cap() {
    let mut emu = Emu::new(80, 200);
    emu.process("admin@db:~$ ");
    let anchor = abs_cursor_logical_start(&emu.grid()).expect("primary screen");
    emu.process("seq 1 40\r\n");
    for i in 1..=40 {
        emu.process(&format!("line{i}\r\n"));
    }
    let region = text_from_abs(&emu.grid(), anchor, 10).expect("anchor still readable");
    assert_eq!(region.lines.len(), 10);
    assert_eq!(region.head_len, 5);
    assert_eq!(region.dropped, 31);
    assert_eq!(region.lines[0], "admin@db:~$ seq 1 40");
    assert_eq!(region.lines[4], "line4");
    assert_eq!(region.lines[5], "line36");
    assert_eq!(region.lines[9], "line40");
}

#[test]
fn text_from_abs_joins_an_echo_that_wraps_to_the_last_row() {
    let mut emu = Emu::new(80, 24);
    emu.process("admin@db:~$ ");
    let anchor = abs_cursor_logical_start(&emu.grid()).expect("primary screen");
    let long = format!("find / -name \"{}\" 2>/dev/null", "x".repeat(90));
    emu.process(&long);
    let region = text_from_abs(&emu.grid(), anchor, 200).expect("anchor still readable");
    assert_eq!(region.lines.len(), 1, "the wrapped echo is one line: {:?}", region.lines);
    assert!(region.lines[0].ends_with("2>/dev/null"));
}

#[test]
fn text_from_abs_reports_the_line_the_cursor_sits_on() {
    let mut emu = Emu::new(80, 24);
    emu.process("admin@db:~$ ");
    let anchor = abs_cursor_logical_start(&emu.grid()).expect("primary screen");
    emu.process("uptime\r\n 07:55:44 up 3 days\r\n");
    let region = text_from_abs(&emu.grid(), anchor, 200).expect("anchor still readable");
    assert_eq!(region.lines.len(), 2);
    assert_eq!(region.cursor_line, None, "still running: the cursor is under the output");
    emu.process("admin@db:~$ ");
    let region = text_from_abs(&emu.grid(), anchor, 200).expect("anchor still readable");
    assert_eq!(region.cursor_line, Some(2), "the shell drew its prompt: {:?}", region.lines);
}

#[test]
fn text_from_abs_maps_the_cursor_through_a_wrap() {
    let mut emu = Emu::new(80, 24);
    emu.process("admin@db:~$ ");
    let anchor = abs_cursor_logical_start(&emu.grid()).expect("primary screen");
    emu.process("echo hi\r\nhi\r\n");
    emu.process(&format!("{}$ ", "d".repeat(90)));
    let region = text_from_abs(&emu.grid(), anchor, 200).expect("anchor still readable");
    assert_eq!(region.lines.len(), 3, "{:?}", region.lines);
    assert_eq!(region.cursor_line, Some(2));
}

#[test]
fn text_from_abs_renumbers_the_cursor_line_after_eliding() {
    let mut emu = Emu::new(80, 200);
    emu.process("admin@db:~$ ");
    let anchor = abs_cursor_logical_start(&emu.grid()).expect("primary screen");
    emu.process("seq 1 40\r\n");
    for i in 1..=40 {
        emu.process(&format!("line{i}\r\n"));
    }
    emu.process("admin@db:~$ ");
    let region = text_from_abs(&emu.grid(), anchor, 10).expect("anchor still readable");
    assert_eq!(region.lines.len(), 10);
    assert_eq!(region.cursor_line, Some(9));
    assert_eq!(region.lines[9], "admin@db:~$");
}

#[test]
fn the_alternate_screen_has_no_anchor() {
    let mut emu = Emu::new(80, 24);
    emu.process("admin@db:~$ ");
    let anchor = abs_cursor_logical_start(&emu.grid()).expect("primary screen");
    emu.process("\x1b[?1049h");
    assert!(abs_cursor_logical_start(&emu.grid()).is_none());
    assert!(text_from_abs(&emu.grid(), anchor, 200).is_none());
    assert!(cursor_logical_line(&emu.grid()).is_none());
}

#[test]
fn an_anchor_outside_the_grid_reads_nothing() {
    let g = five_lines().grid();
    assert!(text_from_abs(&g, -1, 10).is_none());
    assert!(text_from_abs(&g, 5, 10).is_none());
    assert!(logical_line_from_abs(&g, 99, 0).is_none());
}

#[test]
fn cursor_logical_line_joins_a_wrapped_command() {
    let mut emu = Emu::new(10, 5);
    emu.process("$ echo 0123456789 x");
    let g = emu.grid();
    assert_eq!(cursor_logical_line(&g).as_deref(), Some("$ echo 0123456789 x"));
    assert_eq!(abs_cursor_logical_start(&g), Some(0));
}

#[test]
fn a_single_row_logical_line_stops_at_a_right_prompt_gap() {
    let mut emu = Emu::new(60, 4);
    emu.process("$ make        [main] 10:02");
    let g = emu.grid();
    assert_eq!(cursor_logical_line(&g).as_deref(), Some("$ make"));
    assert_eq!(logical_line_from_abs(&g, 0, 2).as_deref(), Some("make"));
}

fn wrapped_url_term(text: &str) -> GridView {
    let mut emu = Emu::new(20, 6);
    emu.process(text);
    emu.grid()
}

#[test]
fn scraped_url_run_joins_a_soft_wrapped_url() {
    let url = "https://example.com/authorize?code=abcdefgh12";
    let g = wrapped_url_term(url);
    for (line, col) in [(0, 0), (0, 19), (1, 5), (2, 3)] {
        let (hit, segs) = url_run_at_cell(&g, line, col).unwrap_or_else(|| panic!("no link at {line},{col}"));
        assert_eq!(hit, url);
        assert_eq!(segs, vec![(0, 0, 19), (1, 0, 19), (2, 0, 4)]);
    }
}

#[test]
fn scraped_url_run_stops_at_a_hard_line_break() {
    let g = wrapped_url_term("see https://a.co\nnot-part-of-it");
    let (hit, segs) = url_run_at_cell(&g, 0, 6).expect("link on row 0");
    assert_eq!(hit, "https://a.co");
    assert_eq!(segs, vec![(0, 4, 15)]);
    assert!(url_run_at_cell(&g, 1, 2).is_none());
}

#[test]
fn scraped_url_run_keeps_the_row_local_rules() {
    let g = wrapped_url_term("go https://a.co/x. now");
    assert_eq!(url_at_cell(&g, 0, 5).as_deref(), Some("https://a.co/x"));
    assert!(url_at_cell(&g, 0, 1).is_none());
    assert!(url_at_cell(&g, 0, 19).is_none());
}

#[test]
fn scraped_url_run_picks_the_token_under_the_cell() {
    let g = wrapped_url_term("https://a.co/one https://b.co/two");
    assert_eq!(url_at_cell(&g, 0, 2).as_deref(), Some("https://a.co/one"));
    assert_eq!(url_at_cell(&g, 1, 2).as_deref(), Some("https://b.co/two"));
}

#[test]
fn a_chain_longer_than_the_walk_still_opens_whole_from_its_middle() {
    let url = format!("https://a.co/{}", "x".repeat(1387));
    let mut emu = Emu::new(20, 80);
    emu.process(&url);
    let g = emu.grid();
    assert_eq!(url_at_cell(&g, 64, 5).as_deref(), Some(url.as_str()));
}

#[test]
fn logical_line_keeps_the_cells_of_every_character() {
    let mut emu = Emu::new(4, 3);
    emu.process("ab网cd");
    let g = emu.grid();
    let l = logical_line_at(&g, 1).expect("text on the line");
    let text: String = l.text.iter().collect();
    assert_eq!(text, "ab网 cd");
    assert_eq!(l.cells.len(), 6);
    assert_eq!(l.byte_of(1, 1), Some(5));
    assert_eq!(l.byte_of(1, 3), None);
    assert_eq!(l.segments(1, 6), vec![(0, 1, 3), (1, 0, 1)]);
    assert!(logical_line_at(&g, 2).is_none(), "a blank line is no logical line");
}

fn osc8_term(text: &str) -> GridView {
    let mut emu = Emu::new(80, 4);
    emu.process(text);
    emu.grid()
}

fn osc8_narrow_term(text: &str) -> GridView {
    let mut emu = Emu::new(10, 4);
    emu.process(text);
    emu.grid()
}

#[test]
fn osc8_run_covers_the_whole_label() {
    let g = osc8_term("\x1b]8;;https://example.com\x1b\\click here\x1b]8;;\x1b\\");
    let hit = osc8_link_at_cell(&g, 0, 3).expect("cell inside the label is a link");
    assert_eq!(hit, ("https://example.com".to_string(), 0, 9));
    assert!(osc8_link_at_cell(&g, 0, 20).is_none());
}

#[test]
fn osc8_adjacent_distinct_links_do_not_merge() {
    let g = osc8_term(
        "\x1b]8;id=1;https://a.com\x1b\\AAA\x1b]8;;\x1b\\\x1b]8;id=2;https://b.com\x1b\\BBB\x1b]8;;\x1b\\",
    );
    let first = osc8_link_at_cell(&g, 0, 1).expect("first link");
    assert_eq!(first, ("https://a.com".to_string(), 0, 2));
    let second = osc8_link_at_cell(&g, 0, 4).expect("second link");
    assert_eq!(second, ("https://b.com".to_string(), 3, 5));
}

#[test]
fn osc8_link_at_cell_ignores_plain_text() {
    let g = osc8_term("visit https://plain.example.com now");
    assert!(osc8_link_at_cell(&g, 0, 10).is_none());
}

#[test]
fn osc8_run_follows_a_wrapped_link_across_rows() {
    let g = osc8_narrow_term("\x1b]8;;https://example.com\x1b\\ABCDEFGHIJKLM\x1b]8;;\x1b\\");
    let (uri, segs) = osc8_link_run(&g, 0, 5).expect("run from the top row");
    assert_eq!(uri, "https://example.com");
    assert_eq!(segs, vec![(0, 0, 9), (1, 0, 2)]);
    let (_, from_tail) = osc8_link_run(&g, 1, 1).expect("run from the tail row");
    assert_eq!(from_tail, vec![(0, 0, 9), (1, 0, 2)]);
}

#[test]
fn osc8_run_does_not_merge_stacked_distinct_links() {
    let g = osc8_narrow_term(
        "\x1b]8;id=1;https://a.com\x1b\\AAAAAAAAAA\x1b]8;;\x1b\\\x1b]8;id=2;https://b.com\x1b\\BBB\x1b]8;;\x1b\\",
    );
    let (uri_a, segs_a) = osc8_link_run(&g, 0, 4).expect("link A");
    assert_eq!(uri_a, "https://a.com");
    assert_eq!(segs_a, vec![(0, 0, 9)]);
    let (uri_b, segs_b) = osc8_link_run(&g, 1, 1).expect("link B");
    assert_eq!(uri_b, "https://b.com");
    assert_eq!(segs_b, vec![(1, 0, 2)]);
}

#[test]
fn osc8_run_keeps_apart_two_regions_of_one_link_id() {
    // The same id and target on two rows, but the first region stops short
    // of the right edge: no wrap joins them, so each is a run of its own.
    let g = osc8_narrow_term(
        "\x1b]8;id=7;https://a.com\x1b\\AAAA\x1b]8;;\x1b\\\r\n\x1b]8;id=7;https://a.com\x1b\\BBBB\x1b]8;;\x1b\\",
    );
    let (_, top) = osc8_link_run(&g, 0, 1).expect("upper region");
    assert_eq!(top, vec![(0, 0, 3)]);
    let (_, bottom) = osc8_link_run(&g, 1, 0).expect("lower region");
    assert_eq!(bottom, vec![(1, 0, 3)]);
}

#[test]
fn osc8_run_stops_after_eight_rows() {
    let label = "x".repeat(100);
    let g = osc8_narrow_term(&format!("\x1b]8;;https://long.example\x1b\\{label}\x1b]8;;\x1b\\"));
    // Ten rows of label on a four-row screen: lines -6..=3. The walk up from
    // line 0 takes the six rows above it, the walk down only one more.
    let (_, segs) = osc8_link_run(&g, 0, 0).expect("run");
    assert_eq!(segs.len(), 8);
    assert_eq!(segs[0], (-6, 0, 9));
    assert_eq!(segs[7], (1, 0, 9));
}

#[test]
fn hovering_an_allowed_link_underlines_and_opens_it() {
    let segs = vec![(-3, 4, 9), (-2, 0, 2)];
    let h = hover_osc8("https://example.com".to_string(), &segs, 5);
    let link = h.link.expect("chip");
    assert_eq!(link.target, "https://example.com");
    assert!(link.allowed);
    assert_eq!(h.spans, vec![(2, 4, 9), (3, 0, 2)]);
    assert_eq!(h.open_url.as_deref(), Some("https://example.com"));
}

#[test]
fn hovering_a_blocked_link_only_names_its_target() {
    let segs = vec![(0, 0, 5)];
    let h = hover_osc8("javascript:alert(1)".to_string(), &segs, 0);
    let link = h.link.expect("chip");
    assert_eq!(link.target, "javascript:alert(1)");
    assert!(!link.allowed);
    assert!(h.spans.is_empty());
    assert!(h.open_url.is_none());
}

#[test]
fn hovering_a_scraped_url_or_nothing() {
    let h = hover_scraped(Some(("https://a.co".to_string(), vec![(1, 4, 15)])), 2);
    assert!(h.link.is_none());
    assert_eq!(h.spans, vec![(3, 4, 15)]);
    assert_eq!(h.open_url.as_deref(), Some("https://a.co"));
    let none = hover_scraped(None, 0);
    assert!(none.link.is_none() && none.spans.is_empty() && none.open_url.is_none());
}

#[test]
fn privacy_value_reads_the_span_under_the_cell() {
    let g = state_with(&["ssh root@web01 then 8.8.8.8"]);
    let terms: Vec<String> = Vec::new();
    assert_eq!(privacy_value_at_cell(&g, &terms, PrivacyClasses::default(), 0, 6).as_deref(), Some("root@web01"));
    assert_eq!(privacy_value_at_cell(&g, &terms, PrivacyClasses::default(), 0, 22).as_deref(), Some("8.8.8.8"));
    assert_eq!(privacy_value_at_cell(&g, &terms, PrivacyClasses::default(), 0, 1), None);
    assert_eq!(privacy_value_at_cell(&g, &terms, PrivacyClasses::default(), 3, 1), None, "blank row");
}

#[test]
fn text_before_the_cursor_joins_a_wrapped_prompt() {
    let mut emu = Emu::new(10, 5);
    emu.process("out\r\n[sudo] password for wilson: ");
    let (text, abs) = text_before_cursor(&emu.grid()).expect("primary screen");
    assert_eq!(text, "[sudo] password for wilson: ");
    assert_eq!(abs, 1);
}

#[test]
fn only_what_is_before_the_cursor_counts() {
    let mut emu = Emu::new(40, 3);
    emu.process("Password: hunter\r");
    let (text, _) = text_before_cursor(&emu.grid()).expect("primary screen");
    assert_eq!(text, "");
    emu.process("\x1b[?1049h");
    assert!(text_before_cursor(&emu.grid()).is_none());
}

#[test]
fn ctrl_click_follows_hyperlink_rules_only() {
    let spoof = osc8_term("\x1b]8;;javascript:alert(1)\x1b\\https://real.com\x1b]8;;\x1b\\");
    assert!(link_target_at(&spoof, 0, 3).is_none(), "a blocked target never falls back to the label");
    let good = osc8_term("\x1b]8;;https://example.com\x1b\\docs\x1b]8;;\x1b\\");
    assert_eq!(link_target_at(&good, 0, 1).as_deref(), Some("https://example.com"));
    let plain = osc8_term("see https://plain.example.com now");
    assert_eq!(link_target_at(&plain, 0, 8).as_deref(), Some("https://plain.example.com"));
    assert!(link_target_at(&plain, 0, 1).is_none());
}

fn paragraphs() -> GridView {
    let mut emu = Emu::new(10, 6);
    emu.process("aa\r\nbb\r\n\r\ncc\r\ndd");
    emu.grid()
}

fn rows_of(s: &Selection) -> ((u16, i32), (u16, i32), bool) {
    (s.start, s.end, s.block)
}

#[test]
fn paragraph_selection_stops_at_blank_rows() {
    let g = paragraphs();
    assert_eq!(rows_of(&paragraph_selection(&g, 3, 0)), ((0, 0), (9, 1), false));
    assert_eq!(rows_of(&paragraph_selection(&g, 0, 4)), ((0, 3), (9, 4), false));
}

#[test]
fn paragraph_selection_on_a_blank_row_joins_its_neighbours() {
    let g = paragraphs();
    assert_eq!(rows_of(&paragraph_selection(&g, 1, 2)), ((0, 0), (9, 4), false));
}

#[test]
fn a_click_past_the_grid_lands_on_the_nearest_cell() {
    let g = paragraphs();
    assert_eq!(clamp_click(&g, 50, 99), (9, 5));
    assert_eq!(clamp_click(&g, 4, -3), (4, 0));
    assert_eq!(clamp_click(&g, 4, 2), (4, 2));
    assert_eq!(rows_of(&paragraph_selection(&g, 50, 99)), ((0, 3), (9, 5), false));
}

#[test]
fn reclicking_inside_a_paragraph_selects_it_again() {
    let g = paragraphs();
    let first = paragraph_selection(&g, 0, 3);
    let again = paragraph_selection(&g, 7, 4);
    assert_eq!(rows_of(&first), rows_of(&again));
}

#[test]
fn dragging_backwards_copies_the_same_text() {
    let g = state_with(&["abcde", "fghij", "klmno"]);
    for block in [false, true] {
        let forward = Selection { start: (3, 0), end: (2, 2), block };
        let backward = Selection { start: (2, 2), end: (3, 0), block };
        assert_eq!(get_selection_text(&g, &forward), get_selection_text(&g, &backward));
    }
}
