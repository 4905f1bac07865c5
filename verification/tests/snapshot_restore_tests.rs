use umux::ids::{PaneId, SurfaceId, WindowId};
use umux::model::{AppModel, SplitAxis, SplitTree};
use umux::snapshot::{
    AppSnapshot, AppWindowSnapshot, PaneSnapshot, SnapshotPaneId, SnapshotSplitAxis, SnapshotSplitTree,
    SnapshotSurfaceId, SnapshotSurfaceKind, SnapshotWindowId, SnapshotWorkspaceId, SurfaceSnapshot, WorkspaceSnapshot,
};

fn terminal(id: u64) -> SurfaceSnapshot {
    SurfaceSnapshot {
        id: SnapshotSurfaceId(id),
        kind: SnapshotSurfaceKind::Terminal,
        title: "Terminal".to_string(),
        unread: false,
        unread_message: None,
        unread_sequence: None,
    }
}

fn pane(id: u64, surface: u64) -> PaneSnapshot {
    PaneSnapshot {
        id: SnapshotPaneId(id),
        cwd: "C:/work/alpha".to_string(),
        selected_surface: SnapshotSurfaceId(surface),
        surfaces: vec![terminal(surface)],
    }
}

fn snapshot(selected_window: u64, selected_pane: u64, layout: SnapshotSplitTree, panes: Vec<PaneSnapshot>) -> AppSnapshot {
    AppSnapshot {
        schema_version: 2,
        selected_window: SnapshotWindowId(selected_window),
        latest_unread_target: None,
        next_unread_sequence: 1,
        windows: vec![AppWindowSnapshot {
            id: SnapshotWindowId(1),
            selected_workspace: SnapshotWorkspaceId(2),
            workspaces: vec![WorkspaceSnapshot {
                id: SnapshotWorkspaceId(2),
                title: "alpha".to_string(),
                cwd: "C:/work/alpha".to_string(),
                selected_pane: SnapshotPaneId(selected_pane),
                layout,
                unread: false,
                latest_notification: None,
                panes,
            }],
        }],
    }
}

#[test]
fn restore_repairs_missing_selected_window_to_first_window() {
    let model = snapshot(999, 3, SnapshotSplitTree::Leaf { pane: SnapshotPaneId(3) }, vec![pane(3, 4)])
        .into_model()
        .unwrap();

    assert_eq!(model.selected_window, WindowId(1));
}

#[test]
fn restore_collapses_malformed_split_layout_to_leaf() {
    let layout = SnapshotSplitTree::Split {
        axis: SnapshotSplitAxis::Vertical,
        first: SnapshotPaneId(3),
        second: SnapshotPaneId(999),
    };
    let model = snapshot(1, 3, layout, vec![pane(3, 4)]).into_model().unwrap();
    let workspace = model.selected_workspace().unwrap();

    assert_eq!(workspace.layout, SplitTree::Leaf(PaneId(3)));
}

#[test]
fn restore_repairs_one_missing_split_pane_to_distinct_existing_pane() {
    let layout = SnapshotSplitTree::Split {
        axis: SnapshotSplitAxis::Vertical,
        first: SnapshotPaneId(5),
        second: SnapshotPaneId(999),
    };
    let model = snapshot(1, 5, layout, vec![pane(3, 4), pane(5, 6)]).into_model().unwrap();
    let workspace = model.selected_workspace().unwrap();

    assert_eq!(workspace.layout, SplitTree::Split { axis: SplitAxis::Vertical, first: PaneId(5), second: PaneId(3) });
}

#[test]
fn snapshot_preserves_latest_unread_target_and_surface_unread_metadata() {
    let mut app = AppModel::new("C:/work/alpha");
    let surface_id = app.selected_pane().unwrap().selected_surface;
    app.mark_surface_unread(surface_id, "Build finished".to_string()).unwrap();

    let restored = AppSnapshot::from_model(&app).into_model().unwrap();

    let target = restored.latest_unread_target.as_ref().unwrap();
    assert_eq!(target.surface_id, surface_id);
    assert_eq!(target.message, "Build finished");
    assert_eq!(target.sequence, 1);
    assert_eq!(restored.next_unread_sequence, 2);
    let surface = restored.selected_pane().unwrap().surface(surface_id).unwrap();
    assert_eq!(surface.unread_message, Some("Build finished".to_string()));
    assert_eq!(surface.unread_sequence, Some(1));
    assert_eq!(surface.id, SurfaceId(4));
}

#[test]
fn ids_come_out_increasing_from_one() {
    let mut ids = umux::ids::IdGen::new();
    let a = ids.next_window().0;
    let b = ids.next_workspace().0;
    let c = ids.next_pane().0;
    let d = ids.next_surface().0;

    assert_eq!((a, b, c, d), (1, 2, 3, 4));
}
