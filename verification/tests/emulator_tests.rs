use umux::appearance::{TerminalColor, TerminalPalette};
use umux::control::{limit_lines, TerminalControlError};
use umux::emulator::{
    map_cell, map_color, map_emulator_event, map_named_color, screen_text_from_rows, snapshot_from_grid, AnsiColor,
    AnsiNamedColor, ColorTable, EmulatorEvent, GridCell, GridContent, GridSelection, IndexedCell, OscStream,
    TerminalEventSink,
};
use umux::grid::dim;
use umux::pty::PtyError;
use umux::render::{TerminalCursor, TerminalSelection};
use umux::terminal_events::{TerminalEvent, TerminalHealth};

fn no_colors() -> ColorTable {
    ColorTable { indexed: [None; 256], named: [None; 29] }
}

fn cell(c: char) -> GridCell {
    GridCell {
        c,
        fg: AnsiColor::Named(AnsiNamedColor::Foreground),
        bg: AnsiColor::Named(AnsiNamedColor::Background),
        hidden: false,
        bold: false,
        italic: false,
        underline: false,
        inverse: false,
    }
}

fn text_cells(line: i32, text: &str) -> Vec<IndexedCell> {
    text.chars().enumerate().map(|(column, c)| IndexedCell { line, column, cell: cell(c) }).collect()
}

fn grid(cols: usize, rows: usize, display: Vec<IndexedCell>) -> GridContent {
    GridContent {
        screen_lines: rows,
        columns: cols,
        display,
        display_offset: 0,
        colors: no_colors(),
        cursor_line: 0,
        cursor_column: 0,
        cursor_hidden: false,
        selection: None,
        history_size: 0,
    }
}

#[test]
fn emulator_renders_plain_text_snapshot() {
    let mut display = text_cells(0, "hello");
    display.extend(text_cells(1, "world"));
    let snapshot = snapshot_from_grid(&grid(10, 3, display), &TerminalPalette::default(), 1);

    assert!(snapshot.visible_text().contains("hello"));
    assert!(snapshot.visible_text().contains("world"));
    assert_eq!(snapshot.cols, 10);
    assert_eq!(snapshot.rows, 3);
    assert_eq!(snapshot.visible_text(), "hello\nworld\n");
}

#[test]
fn emulator_preserves_ansi_named_colors() {
    let mut red = cell('r');
    red.fg = AnsiColor::Named(AnsiNamedColor::Red);
    let display = vec![IndexedCell { line: 0, column: 0, cell: red }];
    let snapshot = snapshot_from_grid(&grid(10, 2, display), &TerminalPalette::default(), 0);
    let first = snapshot.cells.iter().find(|cell| cell.ch == 'r').unwrap();

    assert_eq!(first.fg, TerminalPalette::default().ansi[1]);
}

#[test]
fn snapshot_skips_cells_out_of_view_and_places_cursor() {
    let mut g = grid(4, 2, text_cells(-1, "old"));
    g.display.extend(text_cells(1, "abcdef"));
    g.display_offset = 0;
    g.cursor_line = 5;
    g.cursor_column = 9;
    g.history_size = usize::MAX;
    let snapshot = snapshot_from_grid(&g, &TerminalPalette::default(), 7);

    assert_eq!(snapshot.visible_text(), "\nabcd");
    assert_eq!(snapshot.cursor, TerminalCursor { col: 3, row: 0, visible: true });
    assert_eq!(snapshot.scrollback_lines, u32::MAX);
    assert_eq!(snapshot.version, 7);
    assert_eq!(snapshot.cells.len(), 8);
}

#[test]
fn snapshot_scrolled_back_shows_history_and_clips_selection() {
    let mut g = grid(10, 3, text_cells(-1, "history"));
    g.display_offset = 1;
    g.selection = Some(GridSelection { start_column: 8, start_line: 1, end_column: 14, end_line: 4 });
    let snapshot = snapshot_from_grid(&g, &TerminalPalette::default(), 0);

    assert_eq!(snapshot.visible_text(), "history\n\n");
    assert_eq!(snapshot.selection, Some(TerminalSelection { start_col: 8, start_row: 2, end_col: 9, end_row: 2 }));
}

#[test]
fn snapshot_of_empty_grid_is_empty() {
    let snapshot = snapshot_from_grid(&grid(0, 0, Vec::new()), &TerminalPalette::default(), 0);

    assert_eq!(snapshot.cols, 0);
    assert_eq!(snapshot.rows, 0);
    assert!(snapshot.cells.is_empty());
    assert_eq!(snapshot.cursor, TerminalCursor { col: 0, row: 0, visible: true });
}

#[test]
fn named_colors_map_to_palette_entries() {
    let palette = TerminalPalette::default();

    assert_eq!(map_named_color(AnsiNamedColor::Black, &palette), palette.ansi[0]);
    assert_eq!(map_named_color(AnsiNamedColor::BrightWhite, &palette), palette.ansi[15]);
    assert_eq!(map_named_color(AnsiNamedColor::DimForeground, &palette), palette.foreground);
    assert_eq!(map_named_color(AnsiNamedColor::Background, &palette), palette.background);
    assert_eq!(map_named_color(AnsiNamedColor::Cursor, &palette), palette.cursor);
    assert_eq!(map_named_color(AnsiNamedColor::DimRed, &palette), dim(palette.ansi[1]));
    assert_eq!(dim(TerminalColor::rgb(0xcd, 0x31, 0x31)), TerminalColor::rgb(0x88, 0x20, 0x20));
}

#[test]
fn program_colors_override_the_palette() {
    let palette = TerminalPalette::default();
    let mut colors = no_colors();
    colors.named[1] = Some(TerminalColor::rgb(1, 2, 3));
    colors.indexed[200] = Some(TerminalColor::rgb(4, 5, 6));

    assert_eq!(map_color(AnsiColor::Named(AnsiNamedColor::Red), &colors, &palette), TerminalColor::rgb(1, 2, 3));
    assert_eq!(map_color(AnsiColor::Named(AnsiNamedColor::Green), &colors, &palette), palette.ansi[2]);
    assert_eq!(map_color(AnsiColor::Indexed(200), &colors, &palette), TerminalColor::rgb(4, 5, 6));
    assert_eq!(map_color(AnsiColor::Indexed(232), &colors, &palette), TerminalColor::rgb(8, 8, 8));
    assert_eq!(map_color(AnsiColor::Indexed(21), &colors, &palette), TerminalColor::rgb(0, 0, 255));
    assert_eq!(
        map_color(AnsiColor::Spec(TerminalColor::rgb(9, 9, 9)), &colors, &palette),
        TerminalColor::rgb(9, 9, 9)
    );
}

#[test]
fn hidden_cells_show_a_space() {
    let mut c = cell('x');
    c.hidden = true;
    c.bold = true;
    let mapped = map_cell(&c, &no_colors(), &TerminalPalette::default());

    assert_eq!(mapped.ch, ' ');
    assert!(mapped.bold);
    assert_eq!(mapped.fg, TerminalPalette::default().foreground);
}

#[test]
fn screen_text_trims_rows_and_outer_blank_lines() {
    let row = |s: &str| s.chars().map(cell).collect::<Vec<_>>();
    let mut hidden = row("pw");
    hidden[1].hidden = true;
    let rows = vec![row(""), row("one   "), hidden, row("  "), row("three"), row(""), row("   ")];

    assert_eq!(screen_text_from_rows(&rows), "one\np\n\nthree");
    assert_eq!(screen_text_from_rows(&vec![row(" "), row("")]), "");
    assert_eq!(screen_text_from_rows(&Vec::new()), "");
}

fn messages(notifications: &[umux::notify::TerminalNotification]) -> Vec<String> {
    notifications.iter().map(|n| n.message.clone()).collect()
}

#[test]
fn emulator_extracts_osc_notifications() {
    let mut stream = OscStream::new();

    assert_eq!(messages(&stream.feed(b"\x1b]9;ready\x07")), vec!["ready"]);
}

#[test]
fn emulator_ignores_empty_feed_without_panicking() {
    let mut stream = OscStream::new();

    assert!(stream.feed(b"").is_empty());
}

#[test]
fn emulator_extracts_osc_notifications_split_across_chunks() {
    let mut stream = OscStream::new();

    assert!(stream.feed(b"\x1b]9;rea").is_empty());
    assert_eq!(messages(&stream.feed(b"dy\x07")), vec!["ready"]);
}

#[test]
fn emulator_extracts_osc_notifications_split_between_escape_and_bracket() {
    let mut stream = OscStream::new();

    assert!(stream.feed(b"\x1b").is_empty());
    assert_eq!(messages(&stream.feed(b"]9;ready\x07")), vec!["ready"]);
}

#[test]
fn emulator_retains_trailing_escape_after_complete_osc() {
    let mut stream = OscStream::new();

    let first = stream.feed(b"\x1b]9;one\x07\x1b");
    let second = stream.feed(b"]9;two\x07");

    assert_eq!(messages(&first), vec!["one"]);
    assert_eq!(messages(&second), vec!["two"]);
}

#[test]
fn emulator_extracts_osc_notifications_with_split_st_terminator() {
    let mut stream = OscStream::new();

    assert!(stream.feed(b"\x1b]9;ready\x1b").is_empty());
    assert_eq!(messages(&stream.feed(b"\\")), vec!["ready"]);
}

#[test]
fn emulator_extracts_utf8_osc_notifications_split_across_chunks() {
    let mut stream = OscStream::new();

    assert!(stream.feed(b"\x1b]9;build \xe2\x9c").is_empty());
    assert_eq!(messages(&stream.feed(b"\x93\x07")), vec!["build \u{2713}"]);
}

#[test]
fn invalid_utf8_in_a_message_is_replaced() {
    let mut stream = OscStream::new();

    assert_eq!(messages(&stream.feed(b"\x1b]9;a\xffb\x07")), vec!["a\u{fffd}b"]);
}

#[test]
fn event_sink_keeps_terminal_events_until_drained() {
    let mut sink = TerminalEventSink::default();
    sink.send_event(EmulatorEvent::Title("build".to_string()));
    sink.send_event(EmulatorEvent::PtyWrite);
    sink.send_event(EmulatorEvent::ResetTitle);
    sink.send_event(EmulatorEvent::Bell);
    sink.send_event(EmulatorEvent::ChildExit(Some(3)));
    sink.send_event(EmulatorEvent::MouseCursorDirty);

    assert_eq!(
        sink.drain(),
        vec![
            TerminalEvent::TitleChanged("build".to_string()),
            TerminalEvent::TitleChanged("Terminal".to_string()),
            TerminalEvent::Bell,
            TerminalEvent::ChildExited(Some(3)),
        ]
    );
    assert!(sink.drain().is_empty());
    assert_eq!(map_emulator_event(EmulatorEvent::Exit), None);
    assert_eq!(map_emulator_event(EmulatorEvent::Wakeup), Some(TerminalEvent::Wakeup));
}

#[test]
fn read_screen_line_limit_handles_zero_one_and_multiple_lines() {
    let text = "one\ntwo\nthree";

    assert_eq!(limit_lines(text, Some(0)), "");
    assert_eq!(limit_lines(text, Some(1)), "one");
    assert_eq!(limit_lines(text, Some(2)), "one\ntwo");
    assert_eq!(limit_lines(text, Some(9)), "one\ntwo\nthree");
    assert_eq!(limit_lines(text, None), "one\ntwo\nthree");
}

#[test]
fn line_limit_splits_like_str_lines() {
    assert_eq!(limit_lines("a\r\nb\r\n", Some(5)), "a\nb");
    assert_eq!(limit_lines("a\rb\n\nc", Some(5)), "a\rb\n\nc");
    assert_eq!(limit_lines("\n\nx", Some(2)), "\n");
    assert_eq!(limit_lines("", Some(3)), "");
    assert_eq!(limit_lines("x\r", Some(1)), "x\r");
}

#[test]
fn pty_errors_become_control_errors() {
    let error: TerminalControlError = PtyError::Unsupported.into();

    assert_eq!(error, TerminalControlError::Pty(PtyError::Unsupported));
    assert_ne!(error, TerminalControlError::UnknownSurface(99));
}

#[test]
fn session_health_counts_bytes_and_records_errors() {
    let mut health = TerminalHealth::running("pwsh", "C:/work/alpha", 80, 24);
    health.record_read(7, 3);
    health.record_written(8);
    health.record_error(&PtyError::Io("write failed".to_string()));

    assert_eq!(health.bytes_read, 7);
    assert_eq!(health.bytes_written, 8);
    assert_eq!(health.scrollback_lines, 3);
    assert_eq!(health.last_error.as_deref(), Some("pty I/O error: write failed"));

    health.bytes_read = u64::MAX - 1;
    health.record_read(5, 0);
    assert_eq!(health.bytes_read, u64::MAX);
    assert_eq!(PtyError::Unsupported.message(), "pty backend is unsupported on this platform");
}

#[test]
fn session_resize_is_clamped_and_skipped_when_unchanged() {
    let mut health = TerminalHealth::running("pwsh", "C:/work/alpha", 80, 24);

    assert_eq!(health.resize_target(80, 24), None);
    assert_eq!(health.resize_target(100, 40), Some((100, 40)));
    assert_eq!(health.resize_target(u16::MAX, 0), Some((i16::MAX as u16, 1)));
    health.record_resize(100, 40);
    assert_eq!((health.cols, health.rows), (100, 40));
}

#[test]
fn cutting_output_at_any_point_gives_the_same_notifications() {
    let output: &[u8] = b"text \x1b]9;one\x07 more \x1b]777;notify;Build;two\x1b\\ tail \x1b]99;three\x07";
    let mut whole = OscStream::new();
    let expected = messages(&whole.feed(output));
    assert_eq!(expected, vec!["one", "two", "three"]);

    for cut in 0..=output.len() {
        let mut stream = OscStream::new();
        let mut got = messages(&stream.feed(&output[..cut]));
        got.extend(messages(&stream.feed(&output[cut..])));
        assert_eq!(got, expected, "cut at {cut}");
    }
}
