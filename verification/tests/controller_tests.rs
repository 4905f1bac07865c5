use umux::action::AppAction;
use umux::controller::{AppController, AppControllerError};
use umux::model::{AppModel, SplitAxis};

#[test]
fn controller_spawns_initial_terminal() {
    let controller = AppController::new(AppModel::new("C:/work/alpha")).unwrap();
    let surface_id = controller.model.selected_pane().unwrap().selected_surface;

    assert!(controller.terminals.contains(surface_id));
    assert_eq!(controller.terminals.len(), 1);
}

#[test]
fn new_workspace_selects_workspace_and_spawns_terminal() {
    let mut controller = AppController::new(AppModel::new("C:/work/alpha")).unwrap();

    let outcome = controller
        .apply(AppAction::NewWorkspace {
            cwd: "C:/work/beta".to_string(),
            title: Some("Beta".to_string()),
        })
        .unwrap();

    let workspace = controller.model.selected_workspace().unwrap();
    let surface_id = workspace.selected_pane().unwrap().selected_surface;
    assert_eq!(workspace.title, "Beta");
    assert!(outcome.selected_workspace_changed);
    assert!(outcome.selected_pane_changed);
    assert!(outcome.selected_surface_changed);
    assert_eq!(outcome.spawned_surfaces, vec![surface_id]);
    assert!(controller.terminals.contains(surface_id));
    assert_eq!(controller.terminals.len(), 2);
}

#[test]
fn controller_renames_surface() {
    let mut controller = AppController::new(AppModel::new("C:/work/alpha")).unwrap();
    let surface_id = controller.model.selected_pane().unwrap().selected_surface;

    controller
        .apply(AppAction::RenameSurface {
            surface_id,
            title: "cargo test".to_string(),
        })
        .unwrap();

    let surface = controller
        .model
        .selected_pane()
        .unwrap()
        .surface(surface_id)
        .unwrap();
    assert_eq!(surface.title, "cargo test");
}

#[test]
fn closing_workspace_removes_owned_terminal_sessions() {
    let mut controller = AppController::new(AppModel::new("C:/work/alpha")).unwrap();
    let alpha = controller.model.selected_workspace().unwrap().id;
    controller
        .apply(AppAction::NewWorkspace {
            cwd: "C:/work/beta".to_string(),
            title: Some("Beta".to_string()),
        })
        .unwrap();
    let beta = controller.model.selected_workspace().unwrap().id;
    let beta_surface = controller.model.selected_pane().unwrap().selected_surface;

    let outcome = controller.apply(AppAction::CloseWorkspace(beta)).unwrap();

    assert_eq!(controller.model.selected_workspace().unwrap().id, alpha);
    assert_eq!(outcome.closed_surfaces, vec![beta_surface]);
    assert!(!controller.terminals.contains(beta_surface));
    assert_eq!(controller.terminals.len(), 1);
}

#[test]
fn split_pane_spawns_new_terminal_session() {
    let mut controller = AppController::new(AppModel::new("C:/work/alpha")).unwrap();

    let outcome = controller
        .apply(AppAction::SplitPane(SplitAxis::Vertical))
        .unwrap();

    let pane = controller.model.selected_pane().unwrap();
    let surface_id = pane.selected_surface;
    assert!(outcome.selected_pane_changed);
    assert!(outcome.selected_surface_changed);
    assert_eq!(outcome.spawned_surfaces, vec![surface_id]);
    assert!(controller.terminals.contains(surface_id));
    assert_eq!(controller.terminals.len(), 2);
}

#[test]
fn jump_latest_unread_selects_target() {
    let mut controller = AppController::new(AppModel::new("C:/work/alpha")).unwrap();
    let alpha = controller.model.selected_workspace().unwrap().id;
    controller
        .apply(AppAction::NewWorkspace {
            cwd: "C:/work/beta".to_string(),
            title: Some("Beta".to_string()),
        })
        .unwrap();
    let beta = controller.model.selected_workspace().unwrap().id;
    let beta_pane = controller.model.selected_pane().unwrap().id;
    let beta_surface = controller.model.selected_pane().unwrap().selected_surface;
    controller.model.select_workspace(alpha).unwrap();
    controller
        .model
        .mark_surface_unread(beta_surface, "done".to_string())
        .unwrap();

    let outcome = controller.apply(AppAction::JumpLatestUnread).unwrap();

    assert_eq!(controller.model.selected_workspace().unwrap().id, beta);
    assert_eq!(controller.model.selected_pane().unwrap().id, beta_pane);
    assert_eq!(
        controller.model.selected_pane().unwrap().selected_surface,
        beta_surface
    );
    assert!(outcome.selected_workspace_changed);
    assert!(outcome.selected_pane_changed);
    assert!(outcome.selected_surface_changed);
}

#[test]
fn selecting_unread_surface_marks_it_read() {
    let mut controller = AppController::new(AppModel::new("C:/work/alpha")).unwrap();
    let first = controller.model.selected_pane().unwrap().selected_surface;
    controller.apply(AppAction::NewTerminalTab).unwrap();
    controller
        .model
        .mark_surface_unread(first, "done".to_string())
        .unwrap();

    controller.apply(AppAction::SelectSurface(first)).unwrap();

    let surface = controller
        .model
        .selected_pane()
        .unwrap()
        .surface(first)
        .unwrap();
    assert!(!surface.unread);
    assert_eq!(controller.model.latest_unread_target, None);
}

#[test]
fn jump_latest_unread_without_target_returns_error() {
    let mut controller = AppController::new(AppModel::new("C:/work/alpha")).unwrap();

    let result = controller.apply(AppAction::JumpLatestUnread);

    assert_eq!(result, Err(AppControllerError::NoLatestUnreadTarget));
}

#[test]
fn closing_latest_unread_surface_clears_or_falls_back_target() {
    let mut controller = AppController::new(AppModel::new("C:/work/alpha")).unwrap();
    let first = controller.model.selected_pane().unwrap().selected_surface;
    controller.apply(AppAction::NewTerminalTab).unwrap();
    let second = controller.model.selected_pane().unwrap().selected_surface;
    controller
        .model
        .mark_surface_unread(second, "done".to_string())
        .unwrap();

    controller.apply(AppAction::CloseSurface(second)).unwrap();

    assert_ne!(
        controller
            .model
            .latest_unread_target
            .as_ref()
            .map(|target| target.surface_id),
        Some(second)
    );
    assert!(controller.terminals.contains(first));
}

#[test]
fn close_surface_registers_replacement_terminal_when_pane_would_be_empty() {
    let mut controller = AppController::new(AppModel::new("C:/work/alpha")).unwrap();
    let closed = controller.model.selected_pane().unwrap().selected_surface;

    let outcome = controller.apply(AppAction::CloseSurface(closed)).unwrap();

    let replacement = controller.model.selected_pane().unwrap().selected_surface;
    assert_ne!(replacement, closed);
    assert_eq!(outcome.closed_surfaces, vec![closed]);
    assert_eq!(outcome.spawned_surfaces, vec![replacement]);
    assert!(!controller.terminals.contains(closed));
    assert!(controller.terminals.contains(replacement));
    assert_eq!(controller.terminals.len(), 1);
}

#[test]
fn successful_actions_request_session_save() {
    let mut controller = AppController::new(AppModel::new("C:/work/alpha")).unwrap();
    let selected_workspace = controller.model.selected_workspace().unwrap().id;

    let save_now = controller.apply(AppAction::SaveSessionNow).unwrap();
    let select_workspace = controller
        .apply(AppAction::SelectWorkspace(selected_workspace))
        .unwrap();

    assert!(save_now.should_save_session);
    assert!(select_workspace.should_save_session);
}

#[test]
fn controller_restore_spawns_restored_terminals() {
    let mut model = AppModel::new("C:/work/alpha");
    model
        .create_workspace("C:/work/beta", Some("Beta".to_string()))
        .unwrap();

    let controller = AppController::from_restored_model(model).unwrap();

    assert_eq!(controller.terminals.len(), 2);
    assert_eq!(controller.model.selected_workspace().unwrap().title, "Beta");
}
