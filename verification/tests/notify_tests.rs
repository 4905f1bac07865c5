use umux::engine::TerminalSurface;
use umux::notify::{parse_osc_notifications, OscNotificationKind};

#[test]
fn parses_osc_9_bel_notification() {
    let notifications = parse_osc_notifications("before\u{1b}]9;build finished\u{7}after");

    assert_eq!(notifications.len(), 1);
    assert_eq!(notifications[0].kind, OscNotificationKind::Osc9);
    assert_eq!(notifications[0].message, "build finished");
}

#[test]
fn parses_osc_99_st_notification() {
    let notifications = parse_osc_notifications("\u{1b}]99;agent: waiting\u{1b}\\");

    assert_eq!(notifications.len(), 1);
    assert_eq!(notifications[0].kind, OscNotificationKind::Osc99);
    assert_eq!(notifications[0].message, "agent: waiting");
}

#[test]
fn parses_osc_777_notify_title_and_body() {
    let notifications = parse_osc_notifications("\u{1b}]777;notify;Codex;Needs input\u{7}");

    assert_eq!(notifications.len(), 1);
    assert_eq!(notifications[0].kind, OscNotificationKind::Osc777);
    assert_eq!(notifications[0].title.as_deref(), Some("Codex"));
    assert_eq!(notifications[0].message, "Needs input");
}

#[test]
fn ignores_unrelated_osc_sequences() {
    let notifications = parse_osc_notifications("\u{1b}]0;window title\u{7}");

    assert!(notifications.is_empty());
}

#[test]
fn terminal_feed_extracts_osc_notifications() {
    let mut surface = TerminalSurface::new("C:/work/alpha");
    let events = surface.feed_output("ok\u{1b}]9;ready\u{7}");

    assert_eq!(events.len(), 1);
    assert_eq!(events[0].message, "ready");
    assert!(surface.scrollback().contains("ok"));
}
