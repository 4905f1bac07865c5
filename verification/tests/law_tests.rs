use umux::action::AppAction;
use umux::controller::AppController;
use umux::model::{AppModel, SplitAxis, SurfaceKind};
use umux::snapshot::AppSnapshot;

fn all_surface_ids(model: &AppModel) -> Vec<u64> {
    model
        .windows
        .iter()
        .flat_map(|w| w.workspaces.iter())
        .flat_map(|ws| ws.panes.iter())
        .flat_map(|p| p.surfaces.iter())
        .map(|s| s.id.0)
        .collect()
}

fn busy_controller() -> AppController {
    let mut controller = AppController::new(AppModel::new("C:/work/alpha")).unwrap();
    controller.apply(AppAction::SplitPane(SplitAxis::Vertical)).unwrap();
    controller.apply(AppAction::NewTerminalTab).unwrap();
    controller
        .apply(AppAction::NewWorkspace { cwd: "C:/work/beta".to_string(), title: None })
        .unwrap();
    controller.apply(AppAction::SplitPane(SplitAxis::Horizontal)).unwrap();
    let doomed = controller.model.selected_pane().unwrap().selected_surface;
    controller.apply(AppAction::CloseSurface(doomed)).unwrap();
    controller.apply(AppAction::NewTerminalTab).unwrap();
    controller
}

#[test]
fn actions_never_give_two_surfaces_one_id() {
    let controller = busy_controller();
    let mut ids = all_surface_ids(&controller.model);
    let n = ids.len();
    ids.sort();
    ids.dedup();

    assert_eq!(ids.len(), n);
    assert!(n >= 5);
}

#[test]
fn every_terminal_surface_keeps_a_registered_terminal() {
    let controller = busy_controller();
    for window in &controller.model.windows {
        for workspace in &window.workspaces {
            for pane in &workspace.panes {
                for surface in &pane.surfaces {
                    if surface.kind == SurfaceKind::Terminal {
                        assert!(controller.terminals.contains(surface.id));
                    }
                }
            }
        }
    }
    assert_eq!(controller.terminals.len(), all_surface_ids(&controller.model).len());
}

#[test]
fn restoring_a_saved_model_gives_back_its_windows() {
    let mut model = busy_controller().model;
    let first = model.selected_pane().unwrap().selected_surface;
    model.mark_surface_unread(first, "done".to_string()).unwrap();

    let restored = AppSnapshot::from_model(&model).into_model().unwrap();

    assert_eq!(restored.windows, model.windows);
    assert_eq!(restored.selected_window, model.selected_window);
    assert_eq!(restored.latest_unread_target, model.latest_unread_target);
    let mut ids = restored.ids;
    assert_eq!(ids.next_surface().0, all_surface_ids(&model).into_iter().max().unwrap() + 1);
    assert_eq!(restored.next_unread_sequence, model.next_unread_sequence);
}

fn summary_by_hand(workspace: &umux::model::Workspace) -> (bool, Option<String>) {
    let mut newest: Option<&umux::model::Surface> = None;
    for pane in &workspace.panes {
        for surface in pane.surfaces.iter().filter(|s| s.unread) {
            let key = surface.unread_sequence.unwrap_or(0);
            if newest.map_or(true, |n| key >= n.unread_sequence.unwrap_or(0)) {
                newest = Some(surface);
            }
        }
    }
    match newest {
        Some(s) => (true, s.unread_message.clone()),
        None => (false, None),
    }
}

fn assert_summaries_current(model: &AppModel) {
    for window in &model.windows {
        for workspace in &window.workspaces {
            assert_eq!((workspace.unread, workspace.latest_notification.clone()), summary_by_hand(workspace));
        }
    }
}

#[test]
fn workspace_unread_summaries_follow_the_surfaces() {
    let mut controller = busy_controller();
    let ids = all_surface_ids(&controller.model);
    for (n, id) in ids.iter().enumerate() {
        controller
            .model
            .mark_surface_unread(umux::ids::SurfaceId(*id), format!("message {n}"))
            .unwrap();
        assert_summaries_current(&controller.model);
    }
    let selected = controller.model.selected_pane().unwrap().selected_surface;
    controller.apply(AppAction::CloseSurface(selected)).unwrap();
    assert_summaries_current(&controller.model);
    controller.apply(AppAction::JumpLatestUnread).unwrap();
    assert_summaries_current(&controller.model);
    controller.apply(AppAction::SplitPane(SplitAxis::Vertical)).ok();
    assert_summaries_current(&controller.model);
    let surface = umux::ids::SurfaceId(ids[1]);
    controller.apply(AppAction::RenameSurface { surface_id: surface, title: "renamed".to_string() }).ok();
    controller.apply(AppAction::MarkSurfaceRead(surface)).ok();
    assert_summaries_current(&controller.model);
}

#[test]
fn restoring_stale_unread_state_recomputes_it() {
    let mut model = busy_controller().model;
    let ids = all_surface_ids(&model);
    model.mark_surface_unread(umux::ids::SurfaceId(ids[0]), "first".to_string()).unwrap();
    model.mark_surface_unread(umux::ids::SurfaceId(ids[2]), "second".to_string()).unwrap();
    let mut snapshot = AppSnapshot::from_model(&model);
    for window in &mut snapshot.windows {
        for workspace in &mut window.workspaces {
            workspace.unread = !workspace.unread;
            workspace.latest_notification = Some("stale".to_string());
        }
    }
    snapshot.next_unread_sequence = 0;

    let restored = snapshot.into_model().unwrap();

    assert_summaries_current(&restored);
    let highest = restored
        .windows
        .iter()
        .flat_map(|w| w.workspaces.iter())
        .flat_map(|ws| ws.panes.iter())
        .flat_map(|p| p.surfaces.iter())
        .filter_map(|s| s.unread_sequence)
        .max()
        .unwrap();
    assert!(restored.next_unread_sequence > highest);
}

#[test]
fn ids_keep_increasing_across_advance_past() {
    let mut ids = umux::ids::IdGen::new();
    let a = ids.next_window().0;
    ids.advance_past(10);
    let b = ids.next_surface().0;
    ids.advance_past(5);
    let c = ids.next_pane().0;

    assert_eq!((a, b, c), (1, 11, 12));
}

#[test]
fn marking_unread_makes_the_newest_surface_the_target_and_restore_keeps_it() {
    let mut model = AppModel::new("C:/work/alpha");
    let first = model.selected_workspace().unwrap().selected_pane().unwrap().selected_surface;
    let second = model.open_terminal_surface().unwrap();
    model.mark_surface_unread(first, "build done".to_string()).unwrap();
    model.mark_surface_unread(second, "tests done".to_string()).unwrap();
    model.mark_surface_unread(first, "deploy done".to_string()).unwrap();

    let target = model.latest_unread_target.clone().unwrap();
    assert_eq!(target.surface_id, first);
    assert_eq!(target.message, "deploy done");

    let restored = AppSnapshot::from_model(&model).into_model().unwrap();
    assert_eq!(restored.latest_unread_target, model.latest_unread_target);
    assert_eq!(restored.next_unread_sequence, model.next_unread_sequence);
}

#[test]
fn outcome_lists_exactly_the_surfaces_removed_and_added() {
    let mut controller = busy_controller();
    let first_workspace = controller.model.windows[0].workspaces[0].id;
    let before = all_surface_ids(&controller.model);
    let outcome = controller.apply(AppAction::CloseWorkspace(first_workspace)).unwrap();
    let after = all_surface_ids(&controller.model);

    let gone: Vec<u64> = before.iter().copied().filter(|id| !after.contains(id)).collect();
    let closed: Vec<u64> = outcome.closed_surfaces.iter().map(|id| id.0).collect();
    assert_eq!(closed, gone);
    assert_eq!(closed.len(), 3);
    assert!(outcome.spawned_surfaces.is_empty());

    let before = all_surface_ids(&controller.model);
    let outcome = controller.apply(AppAction::NewTerminalTab).unwrap();
    let after = all_surface_ids(&controller.model);
    let added: Vec<u64> = after.iter().copied().filter(|id| !before.contains(id)).collect();
    let spawned: Vec<u64> = outcome.spawned_surfaces.iter().map(|id| id.0).collect();
    assert_eq!(spawned, added);
    assert!(outcome.closed_surfaces.is_empty());
}
