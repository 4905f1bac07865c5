use vstd::prelude::*;

use crate::ids::{PaneId, SurfaceId, WorkspaceId};
use crate::model::{opt_string_view, SplitAxis};

verus! {

/// What the user can ask the application to do.
#[derive(Clone, Debug, PartialEq, Eq)]
pub enum AppAction {
    NewWorkspace { cwd: String, title: Option<String> },
    SelectWorkspace(WorkspaceId),
    RenameWorkspace { workspace_id: WorkspaceId, title: String },
    RenameSurface { surface_id: SurfaceId, title: String },
    CloseWorkspace(WorkspaceId),
    SplitPane(SplitAxis),
    ClosePane(PaneId),
    SelectPane(PaneId),
    NewTerminalTab,
    SelectSurface(SurfaceId),
    CloseSurface(SurfaceId),
    JumpLatestUnread,
    MarkSurfaceRead(SurfaceId),
    SaveSessionNow,
}

pub enum ActionView {
    NewWorkspace { cwd: Seq<char>, title: Option<Seq<char>> },
    SelectWorkspace(WorkspaceId),
    RenameWorkspace { workspace_id: WorkspaceId, title: Seq<char> },
    RenameSurface { surface_id: SurfaceId, title: Seq<char> },
    CloseWorkspace(WorkspaceId),
    SplitPane(SplitAxis),
    ClosePane(PaneId),
    SelectPane(PaneId),
    NewTerminalTab,
    SelectSurface(SurfaceId),
    CloseSurface(SurfaceId),
    JumpLatestUnread,
    MarkSurfaceRead(SurfaceId),
    SaveSessionNow,
}

impl View for AppAction {
    type V = ActionView;

    open spec fn view(&self) -> ActionView {
        match self {
            AppAction::NewWorkspace { cwd, title } => ActionView::NewWorkspace {
                cwd: cwd@,
                title: opt_string_view(*title),
            },
            AppAction::SelectWorkspace(id) => ActionView::SelectWorkspace(*id),
            AppAction::RenameWorkspace { workspace_id, title } => ActionView::RenameWorkspace {
                workspace_id: *workspace_id,
                title: title@,
            },
            AppAction::RenameSurface { surface_id, title } => ActionView::RenameSurface {
                surface_id: *surface_id,
                title: title@,
            },
            AppAction::CloseWorkspace(id) => ActionView::CloseWorkspace(*id),
            AppAction::SplitPane(axis) => ActionView::SplitPane(*axis),
            AppAction::ClosePane(id) => ActionView::ClosePane(*id),
            AppAction::SelectPane(id) => ActionView::SelectPane(*id),
            AppAction::NewTerminalTab => ActionView::NewTerminalTab,
            AppAction::SelectSurface(id) => ActionView::SelectSurface(*id),
            AppAction::CloseSurface(id) => ActionView::CloseSurface(*id),
            AppAction::JumpLatestUnread => ActionView::JumpLatestUnread,
            AppAction::MarkSurfaceRead(id) => ActionView::MarkSurfaceRead(*id),
            AppAction::SaveSessionNow => ActionView::SaveSessionNow,
        }
    }
}

/// What an action changed, for the UI and the session store.
#[derive(Clone, Debug, PartialEq, Eq)]
pub struct AppActionOutcome {
    pub selected_workspace_changed: bool,
    pub selected_pane_changed: bool,
    pub selected_surface_changed: bool,
    pub spawned_surfaces: Vec<SurfaceId>,
    pub closed_surfaces: Vec<SurfaceId>,
    pub should_save_session: bool,
}

pub struct OutcomeView {
    pub selected_workspace_changed: bool,
    pub selected_pane_changed: bool,
    pub selected_surface_changed: bool,
    pub spawned_surfaces: Seq<SurfaceId>,
    pub closed_surfaces: Seq<SurfaceId>,
    pub should_save_session: bool,
}

impl View for AppActionOutcome {
    type V = OutcomeView;

    open spec fn view(&self) -> OutcomeView {
        OutcomeView {
            selected_workspace_changed: self.selected_workspace_changed,
            selected_pane_changed: self.selected_pane_changed,
            selected_surface_changed: self.selected_surface_changed,
            spawned_surfaces: self.spawned_surfaces@,
            closed_surfaces: self.closed_surfaces@,
            should_save_session: self.should_save_session,
        }
    }
}

impl Default for AppActionOutcome {
    fn default() -> (r: Self)
        ensures
            !r.selected_workspace_changed,
            !r.selected_pane_changed,
            !r.selected_surface_changed,
            r.spawned_surfaces@.len() == 0,
            r.closed_surfaces@.len() == 0,
            !r.should_save_session,
    {
        AppActionOutcome {
            selected_workspace_changed: false,
            selected_pane_changed: false,
            selected_surface_changed: false,
            spawned_surfaces: Vec::new(),
            closed_surfaces: Vec::new(),
            should_save_session: false,
        }
    }
}

} // verus!
