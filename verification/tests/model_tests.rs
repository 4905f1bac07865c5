use umux::ids::{IdGen, PaneId, SurfaceId, WindowId, WorkspaceId};
use umux::model::{AppModel, ModelError, SplitAxis, SplitTree, SurfaceKind};

#[test]
fn id_gen_returns_incrementing_ids_starting_at_one() {
    let app = AppModel::new("C:/work/project");

    assert_eq!(app.selected_window, WindowId(1));
    let workspace = app.selected_workspace().unwrap();
    assert_eq!(workspace.id, WorkspaceId(2));
    assert_eq!(workspace.selected_pane, PaneId(3));
    assert_eq!(
        workspace.selected_pane().unwrap().selected_surface,
        SurfaceId(4)
    );
}

#[test]
fn new_app_has_one_workspace_one_pane_and_one_terminal_surface() {
    let cwd = "C:/Users/Better/projects/alpha";
    let app = AppModel::new(cwd);

    assert_eq!(app.windows.len(), 1);
    assert_eq!(app.selected_window, app.windows[0].id);

    let window = app.selected_window().unwrap();
    assert_eq!(window.workspaces.len(), 1);
    assert_eq!(window.selected_workspace, window.workspaces[0].id);

    let workspace = window.selected_workspace().unwrap();
    assert_eq!(workspace.title, "alpha");
    assert_eq!(workspace.cwd, cwd);
    assert_eq!(workspace.panes.len(), 1);
    assert_eq!(workspace.selected_pane, workspace.panes[0].id);
    assert!(!workspace.unread);
    assert_eq!(workspace.latest_notification, None);

    let pane = workspace.selected_pane().unwrap();
    assert_eq!(pane.cwd, cwd);
    assert_eq!(pane.surfaces.len(), 1);
    assert_eq!(pane.selected_surface, pane.surfaces[0].id);

    let surface = pane.surface(pane.selected_surface).unwrap();
    assert_eq!(surface.kind, SurfaceKind::Terminal);
    assert_eq!(surface.title, "Terminal");
    assert!(!surface.unread);
}

#[test]
fn split_selected_pane_creates_second_pane_with_inherited_cwd() {
    let cwd = "C:/work/project";
    let mut app = AppModel::new(cwd);
    let first_pane_id = app.selected_pane().unwrap().id;

    let new_pane_id = app.split_selected_pane(SplitAxis::Vertical).unwrap();

    let workspace = app.selected_workspace().unwrap();
    assert_eq!(workspace.panes.len(), 2);
    assert_eq!(workspace.selected_pane, new_pane_id);
    assert_eq!(
        workspace.layout,
        SplitTree::Split {
            axis: SplitAxis::Vertical,
            first: first_pane_id,
            second: new_pane_id,
        }
    );

    let new_pane = workspace.pane(new_pane_id).unwrap();
    assert_eq!(new_pane.cwd, cwd);
    assert_eq!(new_pane.surfaces.len(), 1);
    assert_eq!(
        new_pane.surface(new_pane.selected_surface).unwrap().kind,
        SurfaceKind::Terminal
    );
}

#[test]
fn second_split_is_rejected_without_changing_panes_or_layout() {
    let mut app = AppModel::new("C:/work/project");
    app.split_selected_pane(SplitAxis::Vertical).unwrap();
    let workspace = app.selected_workspace().unwrap();
    let pane_count = workspace.panes.len();
    let selected_pane = workspace.selected_pane;
    let layout = workspace.layout.clone();

    let result = app.split_selected_pane(SplitAxis::Horizontal);

    assert_eq!(result, Err(ModelError::LayoutAlreadySplit));
    let workspace = app.selected_workspace().unwrap();
    assert_eq!(workspace.panes.len(), pane_count);
    assert_eq!(workspace.selected_pane, selected_pane);
    assert_eq!(workspace.layout, layout);
}

#[test]
fn browser_surface_is_created_in_selected_pane() {
    let mut app = AppModel::new("C:/work/project");

    let surface_id = app
        .open_browser_surface("https://example.com".to_string())
        .unwrap();

    let pane = app.selected_pane().unwrap();
    assert_eq!(pane.surfaces.len(), 2);
    assert_eq!(pane.selected_surface, surface_id);

    let surface = pane.surface(surface_id).unwrap();
    assert_eq!(surface.kind, SurfaceKind::Browser);
    assert_eq!(surface.title, "https://example.com");
    assert!(!surface.unread);
}

#[test]
fn unread_state_rolls_up_from_surface_to_workspace() {
    let mut app = AppModel::new("C:/work/project");
    let surface_id = app.selected_pane().unwrap().selected_surface;

    app.mark_surface_unread(surface_id, "Build finished".to_string())
        .unwrap();

    let workspace = app.selected_workspace().unwrap();
    let surface = workspace
        .selected_pane()
        .unwrap()
        .surface(surface_id)
        .unwrap();

    assert!(surface.unread);
    assert!(workspace.unread);
    assert_eq!(
        workspace.latest_notification,
        Some("Build finished".to_string())
    );
}

#[test]
fn app_can_create_select_rename_and_close_workspaces() {
    let mut app = AppModel::new("C:/work/alpha");
    let original = app.selected_workspace().unwrap().id;

    let beta = app
        .create_workspace("C:/work/beta", Some("Beta".to_string()))
        .unwrap();
    assert_eq!(app.selected_workspace().unwrap().id, beta);
    assert_eq!(app.selected_workspace().unwrap().title, "Beta");

    app.rename_workspace(beta, "Beta renamed".to_string())
        .unwrap();
    assert_eq!(app.selected_workspace().unwrap().title, "Beta renamed");

    app.select_workspace(original).unwrap();
    app.close_workspace(beta).unwrap();

    let window = app.selected_window().unwrap();
    assert_eq!(window.workspaces.len(), 1);
    assert_eq!(window.selected_workspace, original);
}

#[test]
fn app_can_open_select_and_close_terminal_tabs_without_emptying_pane() {
    let mut app = AppModel::new("C:/work/alpha");
    let first = app.selected_pane().unwrap().selected_surface;

    let second = app.open_terminal_surface().unwrap();
    assert_eq!(app.selected_pane().unwrap().selected_surface, second);
    assert_eq!(app.selected_pane().unwrap().surfaces.len(), 2);

    app.select_surface(first).unwrap();
    app.close_surface(first).unwrap();
    assert_eq!(app.selected_pane().unwrap().selected_surface, second);

    app.close_surface(second).unwrap();
    let pane = app.selected_pane().unwrap();
    assert_eq!(pane.surfaces.len(), 1);
    assert_eq!(
        pane.surface(pane.selected_surface).unwrap().kind,
        SurfaceKind::Terminal
    );
}

#[test]
fn closing_split_pane_returns_workspace_to_leaf_layout() {
    let mut app = AppModel::new("C:/work/alpha");
    let first = app.selected_pane().unwrap().id;
    let second = app.split_selected_pane(SplitAxis::Vertical).unwrap();

    app.close_pane(second).unwrap();

    let workspace = app.selected_workspace().unwrap();
    assert_eq!(workspace.panes.len(), 1);
    assert_eq!(workspace.selected_pane, first);
    assert_eq!(workspace.layout, SplitTree::Leaf(first));
}

#[test]
fn unread_target_tracks_workspace_pane_and_surface() {
    let mut app = AppModel::new("C:/work/alpha");
    let workspace_id = app.selected_workspace().unwrap().id;
    let pane_id = app.selected_pane().unwrap().id;
    let surface_id = app.selected_pane().unwrap().selected_surface;

    app.mark_surface_unread(surface_id, "Build finished".to_string())
        .unwrap();

    let target = app.latest_unread_target.as_ref().unwrap();
    assert_eq!(target.workspace_id, workspace_id);
    assert_eq!(target.pane_id, pane_id);
    assert_eq!(target.surface_id, surface_id);
    assert_eq!(target.message, "Build finished");
    assert_eq!(target.sequence, 1);
    let surface = app.selected_pane().unwrap().surface(surface_id).unwrap();
    assert_eq!(surface.unread_message, Some("Build finished".to_string()));
    assert_eq!(surface.unread_sequence, Some(1));

    app.mark_surface_read(surface_id).unwrap();
    assert_eq!(app.latest_unread_target, None);
    let surface = app.selected_pane().unwrap().surface(surface_id).unwrap();
    assert_eq!(surface.unread_message, None);
    assert_eq!(surface.unread_sequence, None);
    assert!(!app.selected_workspace().unwrap().unread);
}

#[test]
fn unread_marking_finds_surfaces_in_non_selected_workspace() {
    let mut app = AppModel::new("C:/work/alpha");
    let alpha = app.selected_workspace().unwrap().id;
    let beta = app
        .create_workspace("C:/work/beta", Some("Beta".to_string()))
        .unwrap();
    let beta_surface = app.selected_pane().unwrap().selected_surface;

    app.select_workspace(alpha).unwrap();
    app.mark_surface_unread(beta_surface, "Beta done".to_string())
        .unwrap();

    let target = app.latest_unread_target.as_ref().unwrap();
    assert_eq!(target.workspace_id, beta);
    assert_eq!(target.surface_id, beta_surface);
    assert_eq!(target.message, "Beta done");
    assert!(
        app.selected_window()
            .unwrap()
            .workspace(beta)
            .unwrap()
            .unread
    );
    assert!(!app.selected_workspace().unwrap().unread);

    app.mark_surface_read(beta_surface).unwrap();
    assert_eq!(app.latest_unread_target, None);
    assert!(
        !app.selected_window()
            .unwrap()
            .workspace(beta)
            .unwrap()
            .unread
    );
}

#[test]
fn closing_pane_with_only_unread_surface_clears_workspace_unread_state() {
    let mut app = AppModel::new("C:/work/alpha");
    let first = app.selected_pane().unwrap().id;
    let second = app.split_selected_pane(SplitAxis::Vertical).unwrap();
    let unread_surface = app.selected_pane().unwrap().selected_surface;

    app.mark_surface_unread(unread_surface, "Done".to_string())
        .unwrap();
    app.select_pane(first).unwrap();
    app.close_pane(second).unwrap();

    let workspace = app.selected_workspace().unwrap();
    assert!(!workspace.unread);
    assert_eq!(workspace.latest_notification, None);
    assert_eq!(app.latest_unread_target, None);
}

#[test]
fn closing_surface_with_latest_unread_target_falls_back_to_remaining_unread_surface() {
    let mut app = AppModel::new("C:/work/alpha");
    let first = app.selected_pane().unwrap().selected_surface;
    let second = app.open_terminal_surface().unwrap();

    app.mark_surface_unread(first, "First".to_string()).unwrap();
    app.mark_surface_unread(second, "Second".to_string())
        .unwrap();

    app.close_surface(second).unwrap();

    let target = app.latest_unread_target.as_ref().unwrap();
    assert_eq!(target.surface_id, first);
    assert_ne!(target.surface_id, second);
    assert_eq!(target.message, "First");
    assert_eq!(target.sequence, 1);
}

#[test]
fn reading_latest_unread_target_falls_back_to_remaining_surface_metadata() {
    let mut app = AppModel::new("C:/work/alpha");
    let first = app.selected_pane().unwrap().selected_surface;
    let second = app.open_terminal_surface().unwrap();

    app.mark_surface_unread(first, "First".to_string()).unwrap();
    app.mark_surface_unread(second, "Second".to_string())
        .unwrap();

    app.mark_surface_read(second).unwrap();

    let target = app.latest_unread_target.as_ref().unwrap();
    assert_eq!(target.surface_id, first);
    assert_eq!(target.message, "First");
    assert_eq!(target.sequence, 1);
    assert_eq!(
        app.selected_workspace().unwrap().latest_notification,
        Some("First".to_string())
    );
}

#[test]
fn closing_pane_with_latest_notification_preserves_remaining_workspace_message() {
    let mut app = AppModel::new("C:/work/alpha");
    let first_surface = app.selected_pane().unwrap().selected_surface;
    let second_pane = app.split_selected_pane(SplitAxis::Vertical).unwrap();
    let second_surface = app.selected_pane().unwrap().selected_surface;

    app.mark_surface_unread(first_surface, "First".to_string())
        .unwrap();
    app.mark_surface_unread(second_surface, "Second".to_string())
        .unwrap();
    app.close_pane(second_pane).unwrap();

    let workspace = app.selected_workspace().unwrap();
    assert!(workspace.unread);
    assert_eq!(workspace.latest_notification, Some("First".to_string()));
    let target = app.latest_unread_target.as_ref().unwrap();
    assert_eq!(target.surface_id, first_surface);
    assert_eq!(target.message, "First");
    assert_eq!(target.sequence, 1);
}

#[test]
fn closing_workspace_with_latest_unread_target_falls_back_to_remaining_unread_surface() {
    let mut app = AppModel::new("C:/work/alpha");
    let alpha = app.selected_workspace().unwrap().id;
    let alpha_surface = app.selected_pane().unwrap().selected_surface;
    let beta = app
        .create_workspace("C:/work/beta", Some("Beta".to_string()))
        .unwrap();
    let beta_surface = app.selected_pane().unwrap().selected_surface;

    app.mark_surface_unread(alpha_surface, "Alpha".to_string())
        .unwrap();
    app.mark_surface_unread(beta_surface, "Beta".to_string())
        .unwrap();
    app.close_workspace(beta).unwrap();

    let target = app.latest_unread_target.as_ref().unwrap();
    assert_eq!(target.workspace_id, alpha);
    assert_eq!(target.surface_id, alpha_surface);
    assert_ne!(target.surface_id, beta_surface);
    assert_eq!(target.message, "Alpha");
    assert_eq!(target.sequence, 1);
}

#[test]
fn id_gen_can_advance_past_restored_ids() {
    let mut ids = IdGen::new();

    ids.advance_past(42);

    assert_eq!(ids.next_window().0, 43);
    assert_eq!(ids.next_workspace().0, 44);
}

#[test]
fn id_gen_from_next_id_treats_value_as_last_issued_id() {
    let mut ids = IdGen::from_next_id(42);

    assert_eq!(ids.next_surface().0, 43);
}

#[test]
fn id_gen_does_not_rewind_when_advancing_past_lower_id() {
    let mut ids = IdGen::new();
    assert_eq!(ids.next_surface().0, 1);

    ids.advance_past(1);
    ids.advance_past(0);

    assert_eq!(ids.next_surface().0, 2);
}

#[test]
fn foundation_flow_creates_split_browser_and_unread_state() {
    let mut app = AppModel::new("C:/work/alpha");
    app.split_selected_pane(SplitAxis::Horizontal).unwrap();
    let browser = app
        .open_browser_surface("https://example.com".to_string())
        .unwrap();
    app.mark_surface_unread(browser, "needs review".to_string())
        .unwrap();

    let workspace = app.selected_workspace().unwrap();
    assert_eq!(workspace.panes.len(), 2);
    assert!(workspace.unread);
    assert_eq!(
        workspace.latest_notification.as_deref(),
        Some("needs review")
    );
    assert!(
        workspace
            .panes
            .iter()
            .flat_map(|pane| pane.surfaces.iter())
            .any(|surface| surface.kind == SurfaceKind::Browser)
    );
}
