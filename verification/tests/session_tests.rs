use umux::model::{AppModel, SurfaceKind};
use umux::snapshot::AppSnapshot;

#[test]
fn restore_replaces_selected_browser_surface_with_terminal_surface() {
    let mut app = AppModel::new("C:/work/alpha");
    let browser = app
        .open_browser_surface("https://example.com".to_string())
        .unwrap();
    let restored = AppSnapshot::from_model(&app).into_model().unwrap();

    let pane = restored.selected_pane().unwrap();
    assert_ne!(pane.selected_surface, browser);
    assert_eq!(
        pane.surface(pane.selected_surface).unwrap().kind,
        SurfaceKind::Terminal
    );
}
#[test]
fn snapshot_round_trip_preserves_multiple_unread_surface_ordering() {
    let mut app = AppModel::new("C:/work/alpha");
    let first = app.selected_pane().unwrap().selected_surface;
    let second = app.open_terminal_surface().unwrap();
    app.mark_surface_unread(first, "First".to_string()).unwrap();
    app.mark_surface_unread(second, "Second".to_string())
        .unwrap();

    let mut restored = AppSnapshot::from_model(&app).into_model().unwrap();

    let target = restored.latest_unread_target.as_ref().unwrap();
    assert_eq!(target.surface_id, second);
    assert_eq!(target.sequence, 2);
    restored.mark_surface_read(second).unwrap();
    let fallback = restored.latest_unread_target.as_ref().unwrap();
    assert_eq!(fallback.surface_id, first);
    assert_eq!(fallback.sequence, 1);
}
