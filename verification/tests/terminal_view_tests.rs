use umux::appearance::{TerminalColor, TerminalPalette};
use umux::input::{TerminalInputRoute, TerminalInputRouter, TerminalKey, TerminalKeyEvent};
use umux::render::{TerminalCell, TerminalCursor, TerminalRenderCell, TerminalRendererSnapshot, TerminalSelection};
use umux::terminal_events::{TerminalHealth, TerminalStatus};

#[test]
fn health_records_running_terminal() {
    let health = TerminalHealth::running("pwsh", "C:/work/alpha", 80, 24);

    assert_eq!(health.status, TerminalStatus::Running);
    assert_eq!(health.shell, "pwsh");
    assert_eq!(health.cols, 80);
    assert_eq!(health.rows, 24);
    assert_eq!(health.last_error, None);
}

#[test]
fn ctrl_shift_c_copies_when_selection_exists() {
    let route = TerminalInputRouter::route_key(TerminalKeyEvent {
        key: TerminalKey::Character('c'),
        ctrl: true,
        shift: true,
        alt: false,
        selection_present: true,
    });

    assert_eq!(route, TerminalInputRoute::CopySelection);
}

#[test]
fn ordinary_character_writes_utf8() {
    let route = TerminalInputRouter::route_key(TerminalKeyEvent {
        key: TerminalKey::Character('x'),
        ctrl: false,
        shift: false,
        alt: false,
        selection_present: false,
    });

    assert_eq!(route, TerminalInputRoute::WriteBytes(vec![b'x']));
}

#[test]
fn ctrl_shift_v_pastes_clipboard() {
    let route = TerminalInputRouter::route_key(TerminalKeyEvent {
        key: TerminalKey::Character('v'),
        ctrl: true,
        shift: true,
        alt: false,
        selection_present: false,
    });

    assert_eq!(route, TerminalInputRoute::PasteClipboard);
}

#[test]
fn ctrl_shift_c_without_selection_ignores() {
    let route = TerminalInputRouter::route_key(TerminalKeyEvent {
        key: TerminalKey::Character('c'),
        ctrl: true,
        shift: true,
        alt: false,
        selection_present: false,
    });

    assert_eq!(route, TerminalInputRoute::Ignore);
}

#[test]
fn alt_modified_clipboard_shortcuts_follow_plan_routes() {
    let copy_route = TerminalInputRouter::route_key(TerminalKeyEvent {
        key: TerminalKey::Character('c'),
        ctrl: true,
        shift: true,
        alt: true,
        selection_present: true,
    });
    let paste_route = TerminalInputRouter::route_key(TerminalKeyEvent {
        key: TerminalKey::Character('v'),
        ctrl: true,
        shift: true,
        alt: true,
        selection_present: false,
    });

    assert_eq!(copy_route, TerminalInputRoute::CopySelection);
    assert_eq!(paste_route, TerminalInputRoute::PasteClipboard);
}

#[test]
fn special_keys_write_expected_bytes() {
    let cases = [
        (
            TerminalKeyEvent {
                key: TerminalKey::Enter,
                ctrl: false,
                shift: false,
                alt: false,
                selection_present: false,
            },
            b"\r".to_vec(),
        ),
        (
            TerminalKeyEvent {
                key: TerminalKey::Tab,
                ctrl: false,
                shift: false,
                alt: false,
                selection_present: false,
            },
            b"\t".to_vec(),
        ),
        (
            TerminalKeyEvent {
                key: TerminalKey::Backspace,
                ctrl: false,
                shift: false,
                alt: false,
                selection_present: false,
            },
            vec![0x7f],
        ),
        (
            TerminalKeyEvent {
                key: TerminalKey::Escape,
                ctrl: false,
                shift: false,
                alt: false,
                selection_present: false,
            },
            vec![0x1b],
        ),
        (
            TerminalKeyEvent {
                key: TerminalKey::Enter,
                ctrl: true,
                shift: false,
                alt: false,
                selection_present: false,
            },
            b"\r".to_vec(),
        ),
        (
            TerminalKeyEvent {
                key: TerminalKey::Tab,
                ctrl: false,
                shift: true,
                alt: false,
                selection_present: false,
            },
            b"\t".to_vec(),
        ),
        (
            TerminalKeyEvent {
                key: TerminalKey::Backspace,
                ctrl: false,
                shift: false,
                alt: true,
                selection_present: false,
            },
            vec![0x7f],
        ),
        (
            TerminalKeyEvent {
                key: TerminalKey::Escape,
                ctrl: true,
                shift: true,
                alt: true,
                selection_present: false,
            },
            vec![0x1b],
        ),
    ];

    for (event, bytes) in cases {
        let route = TerminalInputRouter::route_key(event);
        assert_eq!(route, TerminalInputRoute::WriteBytes(bytes));
    }
}

#[test]
fn default_palette_uses_exact_terminal_colors() {
    let palette = TerminalPalette::default();

    assert_eq!(palette.foreground, TerminalColor::rgb(0xe7, 0xea, 0xf0));
    assert_eq!(palette.background, TerminalColor::rgb(0x11, 0x13, 0x16));
    assert_eq!(palette.cursor, TerminalColor::rgb(0xe7, 0xea, 0xf0));
    assert_eq!(palette.selection, TerminalColor::rgb(0x2f, 0x80, 0xff));
    assert_eq!(
        palette.ansi,
        [
            TerminalColor::rgb(0x00, 0x00, 0x00),
            TerminalColor::rgb(0xcd, 0x31, 0x31),
            TerminalColor::rgb(0x0d, 0xa0, 0x47),
            TerminalColor::rgb(0xe5, 0xe5, 0x10),
            TerminalColor::rgb(0x24, 0x73, 0xc8),
            TerminalColor::rgb(0xbc, 0x3f, 0xbc),
            TerminalColor::rgb(0x11, 0xa8, 0xcd),
            TerminalColor::rgb(0xe5, 0xe5, 0xe5),
            TerminalColor::rgb(0x66, 0x66, 0x66),
            TerminalColor::rgb(0xf1, 0x4c, 0x4c),
            TerminalColor::rgb(0x23, 0xd1, 0x8b),
            TerminalColor::rgb(0xf5, 0xf5, 0x43),
            TerminalColor::rgb(0x3b, 0x8e, 0xff),
            TerminalColor::rgb(0xd6, 0x70, 0xd6),
            TerminalColor::rgb(0x29, 0xb8, 0xdb),
            TerminalColor::rgb(0xff, 0xff, 0xff),
        ]
    );
}

#[test]
fn snapshot_selected_text_extracts_rectangular_visible_cells() {
    let snapshot = TerminalRendererSnapshot {
        cols: 5,
        rows: 3,
        cells: "helloabc  tail ".chars().map(cell).collect::<Vec<_>>(),
        cursor: TerminalCursor {
            col: 0,
            row: 0,
            visible: true,
        },
        selection: Some(TerminalSelection {
            start_col: 1,
            start_row: 0,
            end_col: 3,
            end_row: 1,
        }),
        scrollback_lines: 0,
        version: 7,
    };

    assert_eq!(snapshot.selected_text(), Some("ell\nbc".to_string()));
}

#[test]
fn snapshot_selected_text_uses_rectangular_columns_for_multiline_reverse_column_drag() {
    let snapshot = TerminalRendererSnapshot {
        cols: 10,
        rows: 4,
        cells: "0123456789abcdefghijABCDEFGHIJklmnopqrst"
            .chars()
            .map(cell)
            .collect::<Vec<_>>(),
        cursor: TerminalCursor {
            col: 0,
            row: 0,
            visible: false,
        },
        selection: Some(TerminalSelection {
            start_col: 8,
            start_row: 1,
            end_col: 2,
            end_row: 3,
        }),
        scrollback_lines: 0,
        version: 7,
    };

    assert_eq!(
        snapshot.selected_text(),
        Some("cdefghi\nCDEFGHI\nmnopqrs".to_string())
    );
}

#[test]
fn snapshot_render_cells_marks_reverse_column_multiline_selection_rectangularly() {
    let snapshot = TerminalRendererSnapshot {
        cols: 10,
        rows: 4,
        cells: "0123456789abcdefghijABCDEFGHIJklmnopqrst"
            .chars()
            .map(cell)
            .collect::<Vec<_>>(),
        cursor: TerminalCursor {
            col: 0,
            row: 0,
            visible: false,
        },
        selection: Some(TerminalSelection {
            start_col: 8,
            start_row: 1,
            end_col: 2,
            end_row: 3,
        }),
        scrollback_lines: 0,
        version: 7,
    };

    let cells = snapshot.render_cells();

    assert!(cells[12].selected);
    assert!(cells[18].selected);
    assert!(cells[22].selected);
    assert!(cells[38].selected);
    assert!(!cells[11].selected);
    assert!(!cells[39].selected);
}

#[test]
fn snapshot_marks_cursor_and_selection_cells_for_ui_rendering() {
    let snapshot = TerminalRendererSnapshot {
        cols: 3,
        rows: 2,
        cells: "abcdef".chars().map(cell).collect::<Vec<_>>(),
        cursor: TerminalCursor {
            col: 2,
            row: 1,
            visible: true,
        },
        selection: Some(TerminalSelection {
            start_col: 1,
            start_row: 0,
            end_col: 1,
            end_row: 1,
        }),
        scrollback_lines: 0,
        version: 7,
    };

    let cells = snapshot.render_cells();

    assert!(cells[1].selected);
    assert!(cells[4].selected);
    assert!(cells[5].cursor);
    assert_eq!(cells[5].cell.ch, 'f');
}

#[test]
fn snapshot_plain_text_trims_padding_per_line() {
    let snapshot = TerminalRendererSnapshot {
        cols: 5,
        rows: 2,
        cells: vec![
            cell('h'),
            cell('i'),
            cell(' '),
            cell(' '),
            cell(' '),
            cell('o'),
            cell('k'),
            cell(' '),
            cell(' '),
            cell(' '),
        ],
        cursor: TerminalCursor {
            col: 2,
            row: 0,
            visible: true,
        },
        selection: None,
        scrollback_lines: 0,
        version: 7,
    };

    assert_eq!(snapshot.visible_text(), "hi\nok");
}

#[test]
fn snapshot_plain_text_handles_zero_columns_without_panicking() {
    let snapshot = TerminalRendererSnapshot {
        cols: 0,
        rows: 2,
        cells: vec![cell('h'), cell('i')],
        cursor: TerminalCursor {
            col: 0,
            row: 0,
            visible: true,
        },
        selection: None,
        scrollback_lines: 0,
        version: 7,
    };

    assert_eq!(snapshot.visible_text(), "");
}

#[test]
fn snapshot_plain_text_ignores_cells_beyond_declared_visible_rows() {
    let snapshot = TerminalRendererSnapshot {
        cols: 2,
        rows: 1,
        cells: vec![cell('o'), cell('k'), cell('n'), cell('o')],
        cursor: TerminalCursor {
            col: 0,
            row: 0,
            visible: true,
        },
        selection: None,
        scrollback_lines: 0,
        version: 7,
    };

    assert_eq!(snapshot.visible_text(), "ok");
}

fn cell(ch: char) -> TerminalCell {
    TerminalCell {
        ch,
        fg: TerminalColor::rgb(255, 255, 255),
        bg: TerminalColor::rgb(0, 0, 0),
        bold: false,
        italic: false,
        underline: false,
        inverse: false,
    }
}
