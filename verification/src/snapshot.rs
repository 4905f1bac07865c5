use vstd::prelude::*;

use crate::ids::{IdGen, PaneId, SurfaceId, WindowId, WorkspaceId};
use crate::model::{
    opt_string_view, opt_target_view, panes_view, surfaces_view, windows_view, workspaces_view,
    terminal_surface, find_pane, find_window, find_workspace, AppModel, AppWindow, Pane, SplitAxis,
    SplitTree, Surface, SurfaceKind, UnreadTarget, Workspace,
};
use crate::model_view::{
    pv_ix, wsv_ix, wv_ix, PaneView, SurfaceView, TargetView, WindowView, WorkspaceView,
};
use crate::search::{first_where, lemma_first_where_absent, lemma_first_where_found};
use crate::snapshot_view::{
    distinct_pane, first_window_error, first_workspace_error, is_terminal, layout_max,
    max_pane_ids, max_pane_seq, max_surface_ids, max_surface_seq, max_u64, max_window_ids,
    max_window_seq, max_workspace_ids, max_workspace_seq, pane_has_no_surface, pane_id_is_not,
    pane_list_error, reconcile_layout, restore_pane_list, restore_surfaces, restore_window,
    restore_window_list, restore_workspace, restore_workspace_list, sat_inc, selected_terminal_is,
    snapshot_of, workspace_list_error, RestoreError, SnapshotView, SCHEMA_VERSION,
};
use crate::unread::{clone_opt_string, newest_target, workspace_unread_state_exec};

verus! {

/// `serde_json::Error`, why session JSON could not be read; carried as an opaque value.
#[verifier::external_type_specification]
#[verifier::external_body]
pub struct ExJsonError(serde_json::Error);

/// Why a session snapshot could not be read or restored.
#[derive(Debug)]
pub enum SessionError {
    Json(serde_json::Error),
    UnsupportedSchemaVersion(u32),
    MissingSelectedWindow,
    MissingSelectedWorkspace,
    MissingSelectedPane,
    MissingSelectedSurface,
}

impl SessionError {
    pub open spec fn is_restore_error(self, e: RestoreError) -> bool {
        match e {
            RestoreError::MissingSelectedWindow => self is MissingSelectedWindow,
            RestoreError::MissingSelectedWorkspace => self is MissingSelectedWorkspace,
            RestoreError::MissingSelectedPane => self is MissingSelectedPane,
            RestoreError::MissingSelectedSurface => self is MissingSelectedSurface,
        }
    }
}

#[derive(Clone, Copy, Debug, PartialEq, Eq, Structural)]
pub struct SnapshotWindowId(pub u64);

#[derive(Clone, Copy, Debug, PartialEq, Eq, Structural)]
pub struct SnapshotWorkspaceId(pub u64);

#[derive(Clone, Copy, Debug, PartialEq, Eq, Structural)]
pub struct SnapshotPaneId(pub u64);

#[derive(Clone, Copy, Debug, PartialEq, Eq, Structural)]
pub struct SnapshotSurfaceId(pub u64);

#[derive(Clone, Debug, PartialEq, Eq)]
pub struct SnapshotUnreadTarget {
    pub workspace_id: SnapshotWorkspaceId,
    pub pane_id: SnapshotPaneId,
    pub surface_id: SnapshotSurfaceId,
    pub message: String,
    pub sequence: u64,
}

#[derive(Clone, Copy, Debug, PartialEq, Eq, Structural)]
pub enum SnapshotSurfaceKind {
    Terminal,
    Browser,
}

#[derive(Clone, Copy, Debug, PartialEq, Eq, Structural)]
pub enum SnapshotSplitAxis {
    Horizontal,
    Vertical,
}

#[derive(Clone, Copy, Debug, PartialEq, Eq, Structural)]
pub enum SnapshotSplitTree {
    Leaf { pane: SnapshotPaneId },
    Split { axis: SnapshotSplitAxis, first: SnapshotPaneId, second: SnapshotPaneId },
}

#[derive(Clone, Debug, PartialEq, Eq)]
pub struct SurfaceSnapshot {
    pub id: SnapshotSurfaceId,
    pub kind: SnapshotSurfaceKind,
    pub title: String,
    pub unread: bool,
    pub unread_message: Option<String>,
    pub unread_sequence: Option<u64>,
}

#[derive(Clone, Debug, PartialEq, Eq)]
pub struct PaneSnapshot {
    pub id: SnapshotPaneId,
    pub cwd: String,
    pub selected_surface: SnapshotSurfaceId,
    pub surfaces: Vec<SurfaceSnapshot>,
}

#[derive(Clone, Debug, PartialEq, Eq)]
pub struct WorkspaceSnapshot {
    pub id: SnapshotWorkspaceId,
    pub title: String,
    pub cwd: String,
    pub selected_pane: SnapshotPaneId,
    pub layout: SnapshotSplitTree,
    pub unread: bool,
    pub latest_notification: Option<String>,
    pub panes: Vec<PaneSnapshot>,
}

#[derive(Clone, Debug, PartialEq, Eq)]
pub struct AppWindowSnapshot {
    pub id: SnapshotWindowId,
    pub selected_workspace: SnapshotWorkspaceId,
    pub workspaces: Vec<WorkspaceSnapshot>,
}

/// The stored form of the application model.
#[derive(Clone, Debug, PartialEq, Eq)]
pub struct AppSnapshot {
    pub schema_version: u32,
    pub selected_window: SnapshotWindowId,
    pub latest_unread_target: Option<SnapshotUnreadTarget>,
    pub next_unread_sequence: u64,
    pub windows: Vec<AppWindowSnapshot>,
}

pub open spec fn kind_view(k: SnapshotSurfaceKind) -> SurfaceKind {
    match k {
        SnapshotSurfaceKind::Terminal => SurfaceKind::Terminal,
        SnapshotSurfaceKind::Browser => SurfaceKind::Browser,
    }
}

pub open spec fn axis_view(a: SnapshotSplitAxis) -> SplitAxis {
    match a {
        SnapshotSplitAxis::Horizontal => SplitAxis::Horizontal,
        SnapshotSplitAxis::Vertical => SplitAxis::Vertical,
    }
}

pub open spec fn layout_view(t: SnapshotSplitTree) -> SplitTree {
    match t {
        SnapshotSplitTree::Leaf { pane } => SplitTree::Leaf(PaneId(pane.0)),
        SnapshotSplitTree::Split { axis, first, second } => SplitTree::Split {
            axis: axis_view(axis),
            first: PaneId(first.0),
            second: PaneId(second.0),
        },
    }
}

pub open spec fn surface_snapshots_view(s: Seq<SurfaceSnapshot>) -> Seq<SurfaceView> {
    s.map_values(|x: SurfaceSnapshot| x@)
}

pub open spec fn pane_snapshots_view(s: Seq<PaneSnapshot>) -> Seq<PaneView> {
    s.map_values(|x: PaneSnapshot| x@)
}

pub open spec fn workspace_snapshots_view(s: Seq<WorkspaceSnapshot>) -> Seq<WorkspaceView> {
    s.map_values(|x: WorkspaceSnapshot| x@)
}

pub open spec fn window_snapshots_view(s: Seq<AppWindowSnapshot>) -> Seq<WindowView> {
    s.map_values(|x: AppWindowSnapshot| x@)
}

impl View for SurfaceSnapshot {
    type V = SurfaceView;

    open spec fn view(&self) -> SurfaceView {
        SurfaceView {
            id: SurfaceId(self.id.0),
            kind: kind_view(self.kind),
            title: self.title@,
            unread: self.unread,
            unread_message: opt_string_view(self.unread_message),
            unread_sequence: self.unread_sequence,
        }
    }
}

impl View for PaneSnapshot {
    type V = PaneView;

    open spec fn view(&self) -> PaneView {
        PaneView {
            id: PaneId(self.id.0),
            cwd: self.cwd@,
            surfaces: surface_snapshots_view(self.surfaces@),
            selected_surface: SurfaceId(self.selected_surface.0),
        }
    }
}

impl View for WorkspaceSnapshot {
    type V = WorkspaceView;

    open spec fn view(&self) -> WorkspaceView {
        WorkspaceView {
            id: WorkspaceId(self.id.0),
            title: self.title@,
            cwd: self.cwd@,
            panes: pane_snapshots_view(self.panes@),
            selected_pane: PaneId(self.selected_pane.0),
            layout: layout_view(self.layout),
            unread: self.unread,
            latest_notification: opt_string_view(self.latest_notification),
        }
    }
}

impl View for AppWindowSnapshot {
    type V = WindowView;

    open spec fn view(&self) -> WindowView {
        WindowView {
            id: WindowId(self.id.0),
            workspaces: workspace_snapshots_view(self.workspaces@),
            selected_workspace: WorkspaceId(self.selected_workspace.0),
        }
    }
}

impl View for SnapshotUnreadTarget {
    type V = TargetView;

    open spec fn view(&self) -> TargetView {
        TargetView {
            workspace_id: WorkspaceId(self.workspace_id.0),
            pane_id: PaneId(self.pane_id.0),
            surface_id: SurfaceId(self.surface_id.0),
            message: self.message@,
            sequence: self.sequence,
        }
    }
}

impl View for AppSnapshot {
    type V = SnapshotView;

    open spec fn view(&self) -> SnapshotView {
        SnapshotView {
            schema_version: self.schema_version,
            selected_window: WindowId(self.selected_window.0),
            latest_unread_target: match self.latest_unread_target {
                Some(t) => Some(t@),
                None => None,
            },
            next_unread_sequence: self.next_unread_sequence,
            windows: window_snapshots_view(self.windows@),
        }
    }
}

fn surface_snapshot(s: &Surface) -> (r: SurfaceSnapshot)
    ensures
        r@ == s@,
{
    SurfaceSnapshot {
        id: SnapshotSurfaceId(s.id.0),
        kind: match s.kind {
            SurfaceKind::Terminal => SnapshotSurfaceKind::Terminal,
            SurfaceKind::Browser => SnapshotSurfaceKind::Browser,
        },
        title: s.title.clone(),
        unread: s.unread,
        unread_message: clone_opt_string(&s.unread_message),
        unread_sequence: s.unread_sequence,
    }
}

fn pane_snapshot(p: &Pane) -> (r: PaneSnapshot)
    ensures
        r@ == p@,
{
    let mut surfaces: Vec<SurfaceSnapshot> = Vec::new();
    let mut i: usize = 0;
    while i < p.surfaces.len()
        invariant
            i <= p.surfaces.len(),
            surface_snapshots_view(surfaces@) =~= surfaces_view(p.surfaces@).take(i as int),
        decreases p.surfaces.len() - i,
    {
        let ghost prev = surfaces@;
        let x = surface_snapshot(&p.surfaces[i]);
        surfaces.push(x);
        assert(surface_snapshots_view(surfaces@) =~= surface_snapshots_view(prev).push(x@));
        assert(surfaces_view(p.surfaces@).take(i + 1) =~= surfaces_view(p.surfaces@).take(i as int).push(surfaces_view(p.surfaces@)[i as int]));
        i = i + 1;
    }
    let r = PaneSnapshot {
        id: SnapshotPaneId(p.id.0),
        cwd: p.cwd.clone(),
        selected_surface: SnapshotSurfaceId(p.selected_surface.0),
        surfaces,
    };
    assert(r@.surfaces =~= p@.surfaces);
    r
}

fn workspace_snapshot(w: &Workspace) -> (r: WorkspaceSnapshot)
    ensures
        r@ == w@,
{
    let mut panes: Vec<PaneSnapshot> = Vec::new();
    let mut i: usize = 0;
    while i < w.panes.len()
        invariant
            i <= w.panes.len(),
            pane_snapshots_view(panes@) =~= panes_view(w.panes@).take(i as int),
        decreases w.panes.len() - i,
    {
        let ghost prev = panes@;
        let x = pane_snapshot(&w.panes[i]);
        panes.push(x);
        assert(pane_snapshots_view(panes@) =~= pane_snapshots_view(prev).push(x@));
        assert(panes_view(w.panes@).take(i + 1) =~= panes_view(w.panes@).take(i as int).push(panes_view(w.panes@)[i as int]));
        i = i + 1;
    }
    let layout = match w.layout {
        SplitTree::Leaf(p) => SnapshotSplitTree::Leaf { pane: SnapshotPaneId(p.0) },
        SplitTree::Split { axis, first, second } => SnapshotSplitTree::Split {
            axis: match axis {
                SplitAxis::Horizontal => SnapshotSplitAxis::Horizontal,
                SplitAxis::Vertical => SnapshotSplitAxis::Vertical,
            },
            first: SnapshotPaneId(first.0),
            second: SnapshotPaneId(second.0),
        },
    };
    let r = WorkspaceSnapshot {
        id: SnapshotWorkspaceId(w.id.0),
        title: w.title.clone(),
        cwd: w.cwd.clone(),
        selected_pane: SnapshotPaneId(w.selected_pane.0),
        layout,
        unread: w.unread,
        latest_notification: clone_opt_string(&w.latest_notification),
        panes,
    };
    assert(r@.panes =~= w@.panes);
    r
}

fn window_snapshot(w: &AppWindow) -> (r: AppWindowSnapshot)
    ensures
        r@ == w@,
{
    let mut workspaces: Vec<WorkspaceSnapshot> = Vec::new();
    let mut i: usize = 0;
    while i < w.workspaces.len()
        invariant
            i <= w.workspaces.len(),
            workspace_snapshots_view(workspaces@) =~= workspaces_view(w.workspaces@).take(i as int),
        decreases w.workspaces.len() - i,
    {
        let ghost prev = workspaces@;
        let x = workspace_snapshot(&w.workspaces[i]);
        workspaces.push(x);
        assert(workspace_snapshots_view(workspaces@) =~= workspace_snapshots_view(prev).push(x@));
        assert(workspaces_view(w.workspaces@).take(i + 1) =~= workspaces_view(w.workspaces@).take(i as int).push(workspaces_view(w.workspaces@)[i as int]));
        i = i + 1;
    }
    let r = AppWindowSnapshot {
        id: SnapshotWindowId(w.id.0),
        selected_workspace: SnapshotWorkspaceId(w.selected_workspace.0),
        workspaces,
    };
    assert(r@.workspaces =~= w@.workspaces);
    r
}

impl AppSnapshot {
    /// The snapshot of a model, at the current schema version.
    pub fn from_model(app: &AppModel) -> (r: Self)
        ensures
            r@ == snapshot_of(app@),
    {
        let mut windows: Vec<AppWindowSnapshot> = Vec::new();
        let mut i: usize = 0;
        while i < app.windows.len()
            invariant
                i <= app.windows.len(),
                window_snapshots_view(windows@) =~= windows_view(app.windows@).take(i as int),
            decreases app.windows.len() - i,
        {
            let ghost prev = windows@;
            let x = window_snapshot(&app.windows[i]);
            windows.push(x);
            assert(window_snapshots_view(windows@) =~= window_snapshots_view(prev).push(x@));
            assert(windows_view(app.windows@).take(i + 1) =~= windows_view(app.windows@).take(i as int).push(windows_view(app.windows@)[i as int]));
            i = i + 1;
        }
        let latest_unread_target = match &app.latest_unread_target {
            Some(t) => Some(
                SnapshotUnreadTarget {
                    workspace_id: SnapshotWorkspaceId(t.workspace_id.0),
                    pane_id: SnapshotPaneId(t.pane_id.0),
                    surface_id: SnapshotSurfaceId(t.surface_id.0),
                    message: t.message.clone(),
                    sequence: t.sequence,
                },
            ),
            None => None,
        };
        let r = AppSnapshot {
            schema_version: SCHEMA_VERSION,
            selected_window: SnapshotWindowId(app.selected_window.0),
            latest_unread_target,
            next_unread_sequence: app.next_unread_sequence,
            windows,
        };
        assert(r@.windows =~= app@.windows);
        r
    }
}


fn max_u64_exec(a: u64, b: u64) -> (r: u64)
    ensures
        r == max_u64(a, b),
{
    if a >= b {
        a
    } else {
        b
    }
}

fn max_surface_ids_exec(acc: u64, ss: &Vec<SurfaceSnapshot>) -> (r: u64)
    ensures
        r == max_surface_ids(acc, surface_snapshots_view(ss@)),
{
    let ghost v = surface_snapshots_view(ss@);
    let mut r = acc;
    let mut i: usize = 0;
    while i < ss.len()
        invariant
            i <= ss.len(),
            v == surface_snapshots_view(ss@),
            r == max_surface_ids(acc, v.take(i as int)),
        decreases ss.len() - i,
    {
        assert(v.take(i + 1).drop_last() =~= v.take(i as int));
        assert(v.take(i + 1).last() == ss@[i as int]@);
        r = max_u64_exec(r, ss[i].id.0);
        i = i + 1;
    }
    assert(v.take(ss.len() as int) =~= v);
    r
}

fn max_pane_ids_exec(acc: u64, ps: &Vec<PaneSnapshot>) -> (r: u64)
    ensures
        r == max_pane_ids(acc, pane_snapshots_view(ps@)),
{
    let ghost v = pane_snapshots_view(ps@);
    let mut r = acc;
    let mut i: usize = 0;
    while i < ps.len()
        invariant
            i <= ps.len(),
            v == pane_snapshots_view(ps@),
            r == max_pane_ids(acc, v.take(i as int)),
        decreases ps.len() - i,
    {
        assert(v.take(i + 1).drop_last() =~= v.take(i as int));
        assert(v.take(i + 1).last() == ps@[i as int]@);
        let p = &ps[i];
        r = max_u64_exec(max_u64_exec(r, p.id.0), p.selected_surface.0);
        r = max_surface_ids_exec(r, &p.surfaces);
        i = i + 1;
    }
    assert(v.take(ps.len() as int) =~= v);
    r
}

fn layout_max_exec(layout: SnapshotSplitTree) -> (r: u64)
    ensures
        r == layout_max(layout_view(layout)),
{
    match layout {
        SnapshotSplitTree::Leaf { pane } => pane.0,
        SnapshotSplitTree::Split { first, second, .. } => max_u64_exec(first.0, second.0),
    }
}

fn max_workspace_ids_exec(acc: u64, wss: &Vec<WorkspaceSnapshot>) -> (r: u64)
    ensures
        r == max_workspace_ids(acc, workspace_snapshots_view(wss@)),
{
    let ghost v = workspace_snapshots_view(wss@);
    let mut r = acc;
    let mut i: usize = 0;
    while i < wss.len()
        invariant
            i <= wss.len(),
            v == workspace_snapshots_view(wss@),
            r == max_workspace_ids(acc, v.take(i as int)),
        decreases wss.len() - i,
    {
        assert(v.take(i + 1).drop_last() =~= v.take(i as int));
        assert(v.take(i + 1).last() == wss@[i as int]@);
        let w = &wss[i];
        r = max_u64_exec(max_u64_exec(max_u64_exec(r, w.id.0), w.selected_pane.0), layout_max_exec(w.layout));
        r = max_pane_ids_exec(r, &w.panes);
        i = i + 1;
    }
    assert(v.take(wss.len() as int) =~= v);
    r
}

fn max_window_ids_exec(acc: u64, ws: &Vec<AppWindowSnapshot>) -> (r: u64)
    ensures
        r == max_window_ids(acc, window_snapshots_view(ws@)),
{
    let ghost v = window_snapshots_view(ws@);
    let mut r = acc;
    let mut i: usize = 0;
    while i < ws.len()
        invariant
            i <= ws.len(),
            v == window_snapshots_view(ws@),
            r == max_window_ids(acc, v.take(i as int)),
        decreases ws.len() - i,
    {
        assert(v.take(i + 1).drop_last() =~= v.take(i as int));
        assert(v.take(i + 1).last() == ws@[i as int]@);
        let w = &ws[i];
        r = max_u64_exec(max_u64_exec(r, w.id.0), w.selected_workspace.0);
        r = max_workspace_ids_exec(r, &w.workspaces);
        i = i + 1;
    }
    assert(v.take(ws.len() as int) =~= v);
    r
}

fn max_surface_seq_exec(acc: u64, ss: &Vec<SurfaceSnapshot>) -> (r: u64)
    ensures
        r == max_surface_seq(acc, surface_snapshots_view(ss@)),
{
    let ghost v = surface_snapshots_view(ss@);
    let mut r = acc;
    let mut i: usize = 0;
    while i < ss.len()
        invariant
            i <= ss.len(),
            v == surface_snapshots_view(ss@),
            r == max_surface_seq(acc, v.take(i as int)),
        decreases ss.len() - i,
    {
        assert(v.take(i + 1).drop_last() =~= v.take(i as int));
        assert(v.take(i + 1).last() == ss@[i as int]@);
        let q = match ss[i].unread_sequence {
            Some(q) => q,
            None => 0,
        };
        r = max_u64_exec(r, q);
        i = i + 1;
    }
    assert(v.take(ss.len() as int) =~= v);
    r
}

fn max_pane_seq_exec(acc: u64, ps: &Vec<PaneSnapshot>) -> (r: u64)
    ensures
        r == max_pane_seq(acc, pane_snapshots_view(ps@)),
{
    let ghost v = pane_snapshots_view(ps@);
    let mut r = acc;
    let mut i: usize = 0;
    while i < ps.len()
        invariant
            i <= ps.len(),
            v == pane_snapshots_view(ps@),
            r == max_pane_seq(acc, v.take(i as int)),
        decreases ps.len() - i,
    {
        assert(v.take(i + 1).drop_last() =~= v.take(i as int));
        assert(v.take(i + 1).last() == ps@[i as int]@);
        r = max_surface_seq_exec(r, &ps[i].surfaces);
        i = i + 1;
    }
    assert(v.take(ps.len() as int) =~= v);
    r
}

fn max_workspace_seq_exec(acc: u64, wss: &Vec<WorkspaceSnapshot>) -> (r: u64)
    ensures
        r == max_workspace_seq(acc, workspace_snapshots_view(wss@)),
{
    let ghost v = workspace_snapshots_view(wss@);
    let mut r = acc;
    let mut i: usize = 0;
    while i < wss.len()
        invariant
            i <= wss.len(),
            v == workspace_snapshots_view(wss@),
            r == max_workspace_seq(acc, v.take(i as int)),
        decreases wss.len() - i,
    {
        assert(v.take(i + 1).drop_last() =~= v.take(i as int));
        assert(v.take(i + 1).last() == wss@[i as int]@);
        r = max_pane_seq_exec(r, &wss[i].panes);
        i = i + 1;
    }
    assert(v.take(wss.len() as int) =~= v);
    r
}

fn max_window_seq_exec(acc: u64, ws: &Vec<AppWindowSnapshot>) -> (r: u64)
    ensures
        r == max_window_seq(acc, window_snapshots_view(ws@)),
{
    let ghost v = window_snapshots_view(ws@);
    let mut r = acc;
    let mut i: usize = 0;
    while i < ws.len()
        invariant
            i <= ws.len(),
            v == window_snapshots_view(ws@),
            r == max_window_seq(acc, v.take(i as int)),
        decreases ws.len() - i,
    {
        assert(v.take(i + 1).drop_last() =~= v.take(i as int));
        assert(v.take(i + 1).last() == ws@[i as int]@);
        r = max_workspace_seq_exec(r, &ws[i].workspaces);
        i = i + 1;
    }
    assert(v.take(ws.len() as int) =~= v);
    r
}

impl AppSnapshot {
    fn max_restored_id(&self) -> (r: u64)
        ensures
            r == self@.max_restored_id(),
    {
        let mut max_id = self.selected_window.0;
        match &self.latest_unread_target {
            Some(t) => {
                max_id = max_u64_exec(
                    max_u64_exec(max_u64_exec(max_id, t.workspace_id.0), t.pane_id.0),
                    t.surface_id.0,
                );
            },
            None => {},
        }
        max_window_ids_exec(max_id, &self.windows)
    }
}


fn surface_from_snapshot(s: &SurfaceSnapshot) -> (r: Surface)
    ensures
        r@ == s@,
{
    Surface {
        id: SurfaceId(s.id.0),
        kind: match s.kind {
            SnapshotSurfaceKind::Terminal => SurfaceKind::Terminal,
            SnapshotSurfaceKind::Browser => SurfaceKind::Browser,
        },
        title: s.title.clone(),
        unread: s.unread,
        unread_message: clone_opt_string(&s.unread_message),
        unread_sequence: s.unread_sequence,
    }
}

fn sat_inc_exec(a: u64) -> (r: u64)
    ensures
        r == sat_inc(a),
{
    if a == u64::MAX {
        a
    } else {
        a + 1
    }
}

/// The surfaces of a stored pane as restored, the selected one, and the new largest id.
fn restore_surfaces_exec(p: &PaneSnapshot, max_id: u64) -> (r: (Vec<Surface>, SurfaceId, u64))
    ensures
        (surfaces_view(r.0@), r.1, r.2) == restore_surfaces(p@.surfaces, p@.selected_surface, max_id),
{
    let ghost v = p@.surfaces;
    let mut surfaces: Vec<Surface> = Vec::new();
    let mut i: usize = 0;
    while i < p.surfaces.len()
        invariant
            i <= p.surfaces.len(),
            v == p@.surfaces,
            surfaces_view(surfaces@) =~= v.take(i as int),
        decreases p.surfaces.len() - i,
    {
        let ghost prev = surfaces@;
        let x = surface_from_snapshot(&p.surfaces[i]);
        surfaces.push(x);
        assert(surfaces_view(surfaces@) =~= surfaces_view(prev).push(x@));
        assert(v.take(i + 1) =~= v.take(i as int).push(v[i as int]));
        i = i + 1;
    }
    assert(v.take(p.surfaces.len() as int) =~= v);
    let selected = SurfaceId(p.selected_surface.0);
    let ghost sv = surfaces_view(surfaces@);
    assert(sv =~= v);
    let mut j: usize = 0;
    while j < surfaces.len()
        invariant
            j <= surfaces.len(),
            sv == surfaces_view(surfaces@),
            sv == p@.surfaces,
            selected == p@.selected_surface,
            forall|q: int| 0 <= q < j ==> !selected_terminal_is(selected)(#[trigger] sv[q]),
        decreases surfaces.len() - j,
    {
        assert(sv[j as int] == surfaces@[j as int]@);
        if surfaces[j].id == selected && surfaces[j].kind == SurfaceKind::Terminal {
            proof {
                lemma_first_where_found(sv, selected_terminal_is(selected), j as int);
            }
            return (surfaces, selected, max_id);
        }
        j = j + 1;
    }
    proof {
        lemma_first_where_absent(sv, selected_terminal_is(selected));
    }
    let mut k: usize = 0;
    while k < surfaces.len()
        invariant
            k <= surfaces.len(),
            sv == surfaces_view(surfaces@),
            sv == p@.surfaces,
            selected == p@.selected_surface,
            first_where(sv, selected_terminal_is(selected)) == -1,
            forall|q: int| 0 <= q < k ==> !is_terminal()(#[trigger] sv[q]),
        decreases surfaces.len() - k,
    {
        assert(sv[k as int] == surfaces@[k as int]@);
        if surfaces[k].kind == SurfaceKind::Terminal {
            proof {
                lemma_first_where_found(sv, is_terminal(), k as int);
            }
            let id = surfaces[k].id;
            return (surfaces, id, max_id);
        }
        k = k + 1;
    }
    proof {
        lemma_first_where_absent(sv, is_terminal());
    }
    let n = sat_inc_exec(max_id);
    let replacement = SurfaceId(n);
    surfaces.push(terminal_surface(replacement));
    assert(surfaces_view(surfaces@) =~= sv.push(crate::model_view::terminal_surface_view(replacement)));
    (surfaces, replacement, n)
}

/// The panes of a stored workspace as restored, or the first missing collection.
fn restore_panes_exec(ps: &Vec<PaneSnapshot>, max_id: u64) -> (r: Result<(Vec<Pane>, u64), SessionError>)
    ensures
        match pane_list_error(pane_snapshots_view(ps@)) {
            Some(e) => r matches Err(x) && x.is_restore_error(e),
            None => r matches Ok((v, m)) && (panes_view(v@), m) == restore_pane_list(pane_snapshots_view(ps@), max_id),
        },
{
    let ghost v = pane_snapshots_view(ps@);
    let mut panes: Vec<Pane> = Vec::new();
    let mut m = max_id;
    let mut i: usize = 0;
    while i < ps.len()
        invariant
            i <= ps.len(),
            v == pane_snapshots_view(ps@),
            forall|q: int| 0 <= q < i ==> !pane_has_no_surface()(#[trigger] v[q]),
            (panes_view(panes@), m) == restore_pane_list(v.take(i as int), max_id),
        decreases ps.len() - i,
    {
        let p = &ps[i];
        assert(v[i as int] == p@);
        if p.surfaces.len() == 0 {
            proof {
                lemma_first_where_found(v, pane_has_no_surface(), i as int);
            }
            return Err(SessionError::MissingSelectedSurface);
        }
        let (surfaces, selected_surface, m2) = restore_surfaces_exec(p, m);
        let pane = Pane { id: PaneId(p.id.0), cwd: p.cwd.clone(), surfaces, selected_surface };
        let ghost prev = panes@;
        panes.push(pane);
        proof {
            assert(v.take(i + 1).drop_last() =~= v.take(i as int));
            assert(v.take(i + 1).last() == p@);
            assert(panes_view(panes@) =~= panes_view(prev).push(pane@));
        }
        m = m2;
        i = i + 1;
    }
    proof {
        lemma_first_where_absent(v, pane_has_no_surface());
        assert(v.take(ps.len() as int) =~= v);
    }
    if ps.len() == 0 {
        return Err(SessionError::MissingSelectedPane);
    }
    Ok((panes, m))
}

fn distinct_pane_exec(panes: &Vec<Pane>, id: PaneId) -> (r: Option<PaneId>)
    ensures
        r == distinct_pane(panes_view(panes@), id),
{
    let ghost v = panes_view(panes@);
    let mut i: usize = 0;
    while i < panes.len()
        invariant
            i <= panes.len(),
            v == panes_view(panes@),
            forall|q: int| 0 <= q < i ==> !pane_id_is_not(id)(#[trigger] v[q]),
        decreases panes.len() - i,
    {
        assert(v[i as int] == panes@[i as int]@);
        if panes[i].id != id {
            proof {
                lemma_first_where_found(v, pane_id_is_not(id), i as int);
            }
            return Some(panes[i].id);
        }
        i = i + 1;
    }
    proof {
        lemma_first_where_absent(v, pane_id_is_not(id));
    }
    None
}

/// A stored layout made to name existing panes.
pub fn reconcile_layout_exec(layout: SnapshotSplitTree, panes: &Vec<Pane>) -> (r: SplitTree)
    requires
        panes.len() > 0,
    ensures
        r == reconcile_layout(layout_view(layout), panes_view(panes@)),
{
    let first_valid = panes[0].id;
    assert(panes_view(panes@)[0] == panes@[0]@);
    match layout {
        SnapshotSplitTree::Leaf { pane } => {
            let p = PaneId(pane.0);
            if find_pane(panes, p).is_some() {
                SplitTree::Leaf(p)
            } else {
                SplitTree::Leaf(first_valid)
            }
        },
        SnapshotSplitTree::Split { axis, first, second } => {
            let axis = match axis {
                SnapshotSplitAxis::Horizontal => SplitAxis::Horizontal,
                SnapshotSplitAxis::Vertical => SplitAxis::Vertical,
            };
            let first_exists = find_pane(panes, PaneId(first.0)).is_some();
            let second_exists = find_pane(panes, PaneId(second.0)).is_some();
            let mut f = if first_exists { PaneId(first.0) } else { first_valid };
            let mut s = if second_exists { PaneId(second.0) } else { first_valid };
            if f == s {
                if !second_exists {
                    match distinct_pane_exec(panes, f) {
                        Some(a) => { s = a; },
                        None => {},
                    }
                } else if !first_exists {
                    match distinct_pane_exec(panes, s) {
                        Some(a) => { f = a; },
                        None => {},
                    }
                } else {
                    match distinct_pane_exec(panes, f) {
                        Some(a) => { s = a; },
                        None => {},
                    }
                }
            }
            if f != s {
                SplitTree::Split { axis, first: f, second: s }
            } else {
                SplitTree::Leaf(first_valid)
            }
        },
    }
}

fn restore_workspace_exec(ws: &WorkspaceSnapshot, max_id: u64) -> (r: Result<(Workspace, u64), SessionError>)
    ensures
        match pane_list_error(ws@.panes) {
            Some(e) => r matches Err(x) && x.is_restore_error(e),
            None => r matches Ok((w, m)) && (w@, m) == restore_workspace(ws@, max_id),
        },
{
    let (panes, m) = restore_panes_exec(&ws.panes, max_id)?;
    proof {
        lemma_restore_pane_list_len(ws@.panes, max_id);
    }
    let snap_selected = PaneId(ws.selected_pane.0);
    let selected_pane = if find_pane(&panes, snap_selected).is_some() {
        snap_selected
    } else {
        panes[0].id
    };
    assert(panes_view(panes@)[0] == panes@[0]@);
    let layout = reconcile_layout_exec(ws.layout, &panes);
    let (unread, latest_notification) = workspace_unread_state_exec(&panes);
    let w = Workspace {
        id: WorkspaceId(ws.id.0),
        title: ws.title.clone(),
        cwd: ws.cwd.clone(),
        panes,
        selected_pane,
        layout,
        unread,
        latest_notification,
    };
    Ok((w, m))
}

fn restore_workspaces_exec(wss: &Vec<WorkspaceSnapshot>, max_id: u64) -> (r: Result<(Vec<Workspace>, u64), SessionError>)
    ensures
        match first_workspace_error(workspace_snapshots_view(wss@)) {
            Some(e) => r matches Err(x) && x.is_restore_error(e),
            None => r matches Ok((v, m)) && (workspaces_view(v@), m) == restore_workspace_list(
                workspace_snapshots_view(wss@),
                max_id,
            ),
        },
{
    let ghost v = workspace_snapshots_view(wss@);
    let mut out: Vec<Workspace> = Vec::new();
    let mut m = max_id;
    let mut i: usize = 0;
    while i < wss.len()
        invariant
            i <= wss.len(),
            v == workspace_snapshots_view(wss@),
            first_workspace_error(v.take(i as int)) is None,
            (workspaces_view(out@), m) == restore_workspace_list(v.take(i as int), max_id),
        decreases wss.len() - i,
    {
        proof {
            assert(v.take(i + 1).drop_last() =~= v.take(i as int));
            assert(v.take(i + 1).last() == wss@[i as int]@);
        }
        let (w, m2) = match restore_workspace_exec(&wss[i], m) {
            Ok(x) => x,
            Err(e) => {
                proof {
                    lemma_workspace_error_prefix(v, i as int);
                }
                return Err(e);
            },
        };
        let ghost prev = out@;
        out.push(w);
        assert(workspaces_view(out@) =~= workspaces_view(prev).push(w@));
        m = m2;
        i = i + 1;
    }
    assert(v.take(wss.len() as int) =~= v);
    Ok((out, m))
}

proof fn lemma_restore_workspace_list_len(v: Seq<WorkspaceView>, max_id: u64)
    ensures
        restore_workspace_list(v, max_id).0.len() == v.len(),
    decreases v.len(),
{
    if v.len() > 0 {
        lemma_restore_workspace_list_len(v.drop_last(), max_id);
    }
}

proof fn lemma_restore_pane_list_len(v: Seq<PaneView>, max_id: u64)
    ensures
        restore_pane_list(v, max_id).0.len() == v.len(),
    decreases v.len(),
{
    if v.len() > 0 {
        lemma_restore_pane_list_len(v.drop_last(), max_id);
    }
}

proof fn lemma_restore_window_list_len(v: Seq<WindowView>, max_id: u64)
    ensures
        restore_window_list(v, max_id).0.len() == v.len(),
    decreases v.len(),
{
    if v.len() > 0 {
        lemma_restore_window_list_len(v.drop_last(), max_id);
    }
}

proof fn lemma_workspace_error_prefix(v: Seq<WorkspaceView>, i: int)
    requires
        0 <= i < v.len(),
        first_workspace_error(v.take(i)) is None,
        pane_list_error(v[i].panes) is Some,
    ensures
        first_workspace_error(v) == pane_list_error(v[i].panes),
    decreases v.len() - i,
{
    assert(v.take(i + 1).drop_last() =~= v.take(i));
    assert(v.take(i + 1).last() == v[i]);
    lemma_workspace_error_extend(v, i + 1);
}

proof fn lemma_workspace_error_extend(v: Seq<WorkspaceView>, j: int)
    requires
        0 <= j <= v.len(),
        first_workspace_error(v.take(j)) is Some,
    ensures
        first_workspace_error(v) == first_workspace_error(v.take(j)),
    decreases v.len() - j,
{
    if j == v.len() {
        assert(v.take(j) =~= v);
    } else {
        assert(v.take(j + 1).drop_last() =~= v.take(j));
        lemma_workspace_error_extend(v, j + 1);
    }
}

proof fn lemma_window_error_prefix(v: Seq<WindowView>, i: int)
    requires
        0 <= i < v.len(),
        first_window_error(v.take(i)) is None,
        workspace_list_error(v[i].workspaces) is Some,
    ensures
        first_window_error(v) == workspace_list_error(v[i].workspaces),
{
    assert(v.take(i + 1).drop_last() =~= v.take(i));
    assert(v.take(i + 1).last() == v[i]);
    lemma_window_error_extend(v, i + 1);
}

proof fn lemma_window_error_extend(v: Seq<WindowView>, j: int)
    requires
        0 <= j <= v.len(),
        first_window_error(v.take(j)) is Some,
    ensures
        first_window_error(v) == first_window_error(v.take(j)),
    decreases v.len() - j,
{
    if j == v.len() {
        assert(v.take(j) =~= v);
    } else {
        assert(v.take(j + 1).drop_last() =~= v.take(j));
        lemma_window_error_extend(v, j + 1);
    }
}

fn restore_window_exec(w: &AppWindowSnapshot, max_id: u64) -> (r: Result<(AppWindow, u64), SessionError>)
    ensures
        match workspace_list_error(w@.workspaces) {
            Some(e) => r matches Err(x) && x.is_restore_error(e),
            None => r matches Ok((win, m)) && (win@, m) == restore_window(w@, max_id),
        },
{
    let (workspaces, m) = restore_workspaces_exec(&w.workspaces, max_id)?;
    if w.workspaces.len() == 0 {
        return Err(SessionError::MissingSelectedWorkspace);
    }
    assert(workspaces_view(workspaces@).len() == w.workspaces.len()) by {
        lemma_restore_workspace_list_len(w@.workspaces, max_id);
    }
    let snap_selected = WorkspaceId(w.selected_workspace.0);
    assert(workspaces_view(workspaces@)[0] == workspaces@[0]@);
    let selected_workspace = if find_workspace(&workspaces, snap_selected).is_some() {
        snap_selected
    } else {
        workspaces[0].id
    };
    Ok((AppWindow { id: WindowId(w.id.0), workspaces, selected_workspace }, m))
}

impl AppSnapshot {
    /// Rebuilds the model. Fails on the first missing collection (no window; a window, workspace or
    /// pane with nothing in it); otherwise repairs selections and layouts, recomputes the unread
    /// state, and sets the id counter past every id.
    pub fn into_model(self) -> (r: Result<AppModel, SessionError>)
        ensures
            match self@.restore_error() {
                Some(e) => r matches Err(x) && x.is_restore_error(e),
                None => r matches Ok(m) && m@ == self@.restored_model(),
            },
    {
        let max_id0 = self.max_restored_id();
        if self.windows.len() == 0 {
            return Err(SessionError::MissingSelectedWindow);
        }
        let seq0 = match &self.latest_unread_target {
            Some(t) => t.sequence,
            None => 0,
        };
        let max_unread_sequence = max_window_seq_exec(seq0, &self.windows);
        let ghost v = window_snapshots_view(self.windows@);
        let mut windows: Vec<AppWindow> = Vec::new();
        let mut m = max_id0;
        let mut i: usize = 0;
        while i < self.windows.len()
            invariant
                i <= self.windows.len(),
                v == window_snapshots_view(self.windows@),
                first_window_error(v.take(i as int)) is None,
                (windows_view(windows@), m) == restore_window_list(v.take(i as int), max_id0),
            decreases self.windows.len() - i,
        {
            proof {
                assert(v.take(i + 1).drop_last() =~= v.take(i as int));
                assert(v.take(i + 1).last() == self.windows@[i as int]@);
            }
            let (w, m2) = match restore_window_exec(&self.windows[i], m) {
                Ok(x) => x,
                Err(e) => {
                    proof {
                        lemma_window_error_prefix(v, i as int);
                    }
                    return Err(e);
                },
            };
            let ghost prev = windows@;
            windows.push(w);
            assert(windows_view(windows@) =~= windows_view(prev).push(w@));
            m = m2;
            i = i + 1;
        }
        assert(v.take(self.windows.len() as int) =~= v);
        proof {
            lemma_restore_window_list_len(v, max_id0);
        }
        let snap_selected = WindowId(self.selected_window.0);
        assert(windows_view(windows@)[0] == windows@[0]@);
        let selected_window = if find_window(&windows, snap_selected).is_some() {
            snap_selected
        } else {
            windows[0].id
        };
        let latest_unread_target = newest_target(&windows);
        let next_unread_sequence = max_u64_exec(
            max_u64_exec(1, self.next_unread_sequence),
            sat_inc_exec(max_unread_sequence),
        );
        Ok(AppModel {
            ids: IdGen::from_next_id(m),
            windows,
            selected_window,
            latest_unread_target,
            next_unread_sequence,
        })
    }
}


/// How a stored schema version is read.
#[derive(Clone, Copy, Debug, PartialEq, Eq, Structural)]
pub enum SchemaSupport {
    /// Written at the current version: read as it is.
    Current,
    /// Written at version 1: read, then migrated.
    Legacy,
}

/// Decides, from the stored schema version alone (before the body is read), how a snapshot is read.
pub fn schema_support(version: u32) -> (r: Result<SchemaSupport, SessionError>)
    ensures
        version == SCHEMA_VERSION ==> r == Ok::<SchemaSupport, SessionError>(SchemaSupport::Current),
        version == 1 ==> r == Ok::<SchemaSupport, SessionError>(SchemaSupport::Legacy),
        version != SCHEMA_VERSION && version != 1 ==> (r matches Err(SessionError::UnsupportedSchemaVersion(v)) && v == version),
{
    if version == SCHEMA_VERSION {
        Ok(SchemaSupport::Current)
    } else if version == 1 {
        Ok(SchemaSupport::Legacy)
    } else {
        Err(SessionError::UnsupportedSchemaVersion(version))
    }
}

impl AppSnapshot {
    /// A version-1 snapshot brought to the current version.
    pub fn migrate_from_v1(self) -> (r: Self)
        ensures
            r@ == self@.migrated_from_v1(),
    {
        AppSnapshot { schema_version: SCHEMA_VERSION, latest_unread_target: None, next_unread_sequence: 1, ..self }
    }

    /// A snapshot that was read with the given support, made current.
    pub fn upgrade(self, support: SchemaSupport) -> (r: Self)
        ensures
            support == SchemaSupport::Current ==> r@ == self@,
            support == SchemaSupport::Legacy ==> r@ == self@.migrated_from_v1(),
    {
        match support {
            SchemaSupport::Current => self,
            SchemaSupport::Legacy => self.migrate_from_v1(),
        }
    }
}

} // verus!
