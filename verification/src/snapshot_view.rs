use vstd::prelude::*;

use crate::ids::{PaneId, SurfaceId, WindowId, WorkspaceId};
use crate::model::{SplitTree, SurfaceKind};
use crate::model_view::{
    newest_unread_target, pv_is, pv_ix, recompute_workspace, terminal_surface_view, wsv_ix, wv_ix,
    ModelView, PaneView, SurfaceView, TargetView, WindowView, WorkspaceView,
};
use crate::search::first_where;

verus! {

/// The schema version snapshots are written with.
pub const SCHEMA_VERSION: u32 = 2;

/// Why a snapshot could not be restored (the JSON failures are added by whoever parses).
pub enum RestoreError {
    MissingSelectedWindow,
    MissingSelectedWorkspace,
    MissingSelectedPane,
    MissingSelectedSurface,
}

/// Mathematical model of a snapshot: the model's windows as stored, without the id counter.
pub struct SnapshotView {
    pub schema_version: u32,
    pub selected_window: WindowId,
    pub latest_unread_target: Option<TargetView>,
    pub next_unread_sequence: u64,
    pub windows: Seq<WindowView>,
}

pub open spec fn max_u64(a: u64, b: u64) -> u64 {
    if a >= b {
        a
    } else {
        b
    }
}

pub open spec fn sat_inc(a: u64) -> u64 {
    if a == u64::MAX {
        a
    } else {
        (a + 1) as u64
    }
}

pub open spec fn layout_max(layout: SplitTree) -> u64 {
    match layout {
        SplitTree::Leaf(p) => p.0,
        SplitTree::Split { first, second, .. } => max_u64(first.0, second.0),
    }
}

pub open spec fn max_surface_ids(acc: u64, ss: Seq<SurfaceView>) -> u64
    decreases ss.len(),
{
    if ss.len() == 0 {
        acc
    } else {
        max_u64(max_surface_ids(acc, ss.drop_last()), ss.last().id.0)
    }
}

pub open spec fn max_pane_ids(acc: u64, ps: Seq<PaneView>) -> u64
    decreases ps.len(),
{
    if ps.len() == 0 {
        acc
    } else {
        let p = ps.last();
        max_surface_ids(max_u64(max_u64(max_pane_ids(acc, ps.drop_last()), p.id.0), p.selected_surface.0), p.surfaces)
    }
}

pub open spec fn max_workspace_ids(acc: u64, wss: Seq<WorkspaceView>) -> u64
    decreases wss.len(),
{
    if wss.len() == 0 {
        acc
    } else {
        let w = wss.last();
        max_pane_ids(
            max_u64(max_u64(max_u64(max_workspace_ids(acc, wss.drop_last()), w.id.0), w.selected_pane.0), layout_max(w.layout)),
            w.panes,
        )
    }
}

pub open spec fn max_window_ids(acc: u64, ws: Seq<WindowView>) -> u64
    decreases ws.len(),
{
    if ws.len() == 0 {
        acc
    } else {
        let w = ws.last();
        max_workspace_ids(max_u64(max_u64(max_window_ids(acc, ws.drop_last()), w.id.0), w.selected_workspace.0), w.workspaces)
    }
}

impl SnapshotView {
    /// The largest id the snapshot mentions anywhere, the unread target included.
    pub open spec fn max_restored_id(self) -> u64 {
        let start = match self.latest_unread_target {
            Some(t) => max_u64(max_u64(max_u64(self.selected_window.0, t.workspace_id.0), t.pane_id.0), t.surface_id.0),
            None => self.selected_window.0,
        };
        max_window_ids(start, self.windows)
    }
}

pub open spec fn seq_of(s: SurfaceView) -> u64 {
    match s.unread_sequence {
        Some(q) => q,
        None => 0,
    }
}

pub open spec fn max_surface_seq(acc: u64, ss: Seq<SurfaceView>) -> u64
    decreases ss.len(),
{
    if ss.len() == 0 {
        acc
    } else {
        max_u64(max_surface_seq(acc, ss.drop_last()), seq_of(ss.last()))
    }
}

pub open spec fn max_pane_seq(acc: u64, ps: Seq<PaneView>) -> u64
    decreases ps.len(),
{
    if ps.len() == 0 {
        acc
    } else {
        max_surface_seq(max_pane_seq(acc, ps.drop_last()), ps.last().surfaces)
    }
}

pub open spec fn max_workspace_seq(acc: u64, wss: Seq<WorkspaceView>) -> u64
    decreases wss.len(),
{
    if wss.len() == 0 {
        acc
    } else {
        max_pane_seq(max_workspace_seq(acc, wss.drop_last()), wss.last().panes)
    }
}

pub open spec fn max_window_seq(acc: u64, ws: Seq<WindowView>) -> u64
    decreases ws.len(),
{
    if ws.len() == 0 {
        acc
    } else {
        max_workspace_seq(max_window_seq(acc, ws.drop_last()), ws.last().workspaces)
    }
}

pub open spec fn selected_terminal_is(id: SurfaceId) -> spec_fn(SurfaceView) -> bool {
    |s: SurfaceView| s.id == id && s.kind == SurfaceKind::Terminal
}

pub open spec fn is_terminal() -> spec_fn(SurfaceView) -> bool {
    |s: SurfaceView| s.kind == SurfaceKind::Terminal
}

/// A pane's surfaces as restored: the selected surface must be a terminal; otherwise the first
/// terminal is selected, and when there is none a new terminal (id one past `max_id`) is added.
/// Gives the surfaces, the selected surface and the new largest id.
pub open spec fn restore_surfaces(ss: Seq<SurfaceView>, selected: SurfaceId, max_id: u64) -> (
    Seq<SurfaceView>,
    SurfaceId,
    u64,
) {
    if first_where(ss, selected_terminal_is(selected)) >= 0 {
        (ss, selected, max_id)
    } else if first_where(ss, is_terminal()) >= 0 {
        (ss, ss[first_where(ss, is_terminal())].id, max_id)
    } else {
        let n = sat_inc(max_id);
        (ss.push(terminal_surface_view(SurfaceId(n))), SurfaceId(n), n)
    }
}

pub open spec fn restore_pane_list(ps: Seq<PaneView>, max_id: u64) -> (Seq<PaneView>, u64)
    decreases ps.len(),
{
    if ps.len() == 0 {
        (Seq::empty(), max_id)
    } else {
        let (prev, m) = restore_pane_list(ps.drop_last(), max_id);
        let p = ps.last();
        let (ss, sel, m2) = restore_surfaces(p.surfaces, p.selected_surface, m);
        (prev.push(PaneView { surfaces: ss, selected_surface: sel, ..p }), m2)
    }
}

pub open spec fn pane_id_is_not(id: PaneId) -> spec_fn(PaneView) -> bool {
    |p: PaneView| p.id != id
}

/// The first pane whose id differs from `id`.
pub open spec fn distinct_pane(panes: Seq<PaneView>, id: PaneId) -> Option<PaneId> {
    let i = first_where(panes, pane_id_is_not(id));
    if i >= 0 {
        Some(panes[i].id)
    } else {
        None
    }
}

/// A stored layout made to name panes that exist: a missing pane becomes one that exists and
/// differs from the other side where there is one; a split of one pane becomes a leaf.
pub open spec fn reconcile_layout(layout: SplitTree, panes: Seq<PaneView>) -> SplitTree {
    let first_valid = panes[0].id;
    match layout {
        SplitTree::Leaf(p) => SplitTree::Leaf(
            if pv_ix(panes, p) >= 0 {
                p
            } else {
                first_valid
            },
        ),
        SplitTree::Split { axis, first, second } => {
            let first_exists = pv_ix(panes, first) >= 0;
            let second_exists = pv_ix(panes, second) >= 0;
            let f = if first_exists {
                first
            } else {
                first_valid
            };
            let s = if second_exists {
                second
            } else {
                first_valid
            };
            let (f2, s2) = if f == s {
                if !second_exists {
                    match distinct_pane(panes, f) {
                        Some(a) => (f, a),
                        None => (f, s),
                    }
                } else if !first_exists {
                    match distinct_pane(panes, s) {
                        Some(a) => (a, s),
                        None => (f, s),
                    }
                } else {
                    match distinct_pane(panes, f) {
                        Some(a) => (f, a),
                        None => (f, s),
                    }
                }
            } else {
                (f, s)
            };
            if f2 != s2 {
                SplitTree::Split { axis, first: f2, second: s2 }
            } else {
                SplitTree::Leaf(first_valid)
            }
        },
    }
}

pub open spec fn restore_workspace(ws: WorkspaceView, max_id: u64) -> (WorkspaceView, u64) {
    let (panes, m) = restore_pane_list(ws.panes, max_id);
    let sel = if pv_ix(panes, ws.selected_pane) >= 0 {
        ws.selected_pane
    } else {
        panes[0].id
    };
    (
        recompute_workspace(
            WorkspaceView { panes, selected_pane: sel, layout: reconcile_layout(ws.layout, panes), ..ws },
        ),
        m,
    )
}

pub open spec fn restore_workspace_list(wss: Seq<WorkspaceView>, max_id: u64) -> (Seq<WorkspaceView>, u64)
    decreases wss.len(),
{
    if wss.len() == 0 {
        (Seq::empty(), max_id)
    } else {
        let (prev, m) = restore_workspace_list(wss.drop_last(), max_id);
        let (w, m2) = restore_workspace(wss.last(), m);
        (prev.push(w), m2)
    }
}

pub open spec fn restore_window(w: WindowView, max_id: u64) -> (WindowView, u64) {
    let (wss, m) = restore_workspace_list(w.workspaces, max_id);
    let sel = if wsv_ix(wss, w.selected_workspace) >= 0 {
        w.selected_workspace
    } else {
        wss[0].id
    };
    (WindowView { workspaces: wss, selected_workspace: sel, ..w }, m)
}

pub open spec fn restore_window_list(ws: Seq<WindowView>, max_id: u64) -> (Seq<WindowView>, u64)
    decreases ws.len(),
{
    if ws.len() == 0 {
        (Seq::empty(), max_id)
    } else {
        let (prev, m) = restore_window_list(ws.drop_last(), max_id);
        let (w, m2) = restore_window(ws.last(), m);
        (prev.push(w), m2)
    }
}

pub open spec fn pane_has_no_surface() -> spec_fn(PaneView) -> bool {
    |p: PaneView| p.surfaces.len() == 0
}

/// What restoring a workspace's panes fails with, if anything.
pub open spec fn pane_list_error(ps: Seq<PaneView>) -> Option<RestoreError> {
    if first_where(ps, pane_has_no_surface()) >= 0 {
        Some(RestoreError::MissingSelectedSurface)
    } else if ps.len() == 0 {
        Some(RestoreError::MissingSelectedPane)
    } else {
        None
    }
}

pub open spec fn first_workspace_error(wss: Seq<WorkspaceView>) -> Option<RestoreError>
    decreases wss.len(),
{
    if wss.len() == 0 {
        None
    } else {
        match first_workspace_error(wss.drop_last()) {
            Some(e) => Some(e),
            None => pane_list_error(wss.last().panes),
        }
    }
}

pub open spec fn workspace_list_error(wss: Seq<WorkspaceView>) -> Option<RestoreError> {
    match first_workspace_error(wss) {
        Some(e) => Some(e),
        None => if wss.len() == 0 {
            Some(RestoreError::MissingSelectedWorkspace)
        } else {
            None
        },
    }
}

pub open spec fn first_window_error(ws: Seq<WindowView>) -> Option<RestoreError>
    decreases ws.len(),
{
    if ws.len() == 0 {
        None
    } else {
        match first_window_error(ws.drop_last()) {
            Some(e) => Some(e),
            None => workspace_list_error(ws.last().workspaces),
        }
    }
}

impl SnapshotView {
    /// The first missing collection met, in window, workspace, pane order.
    pub open spec fn restore_error(self) -> Option<RestoreError> {
        if self.windows.len() == 0 {
            Some(RestoreError::MissingSelectedWindow)
        } else {
            first_window_error(self.windows)
        }
    }

    /// The model a snapshot restores to, when `restore_error` is `None`: selections and layouts
    /// repaired, unread state recomputed from the surfaces, and the id counter past every id.
    pub open spec fn restored_model(self) -> ModelView {
        let (windows, max_id) = restore_window_list(self.windows, self.max_restored_id());
        let max_seq = max_window_seq(
            match self.latest_unread_target {
                Some(t) => t.sequence,
                None => 0,
            },
            self.windows,
        );
        ModelView {
            next_id: max_id,
            windows,
            selected_window: if wv_ix(windows, self.selected_window) >= 0 {
                self.selected_window
            } else {
                windows[0].id
            },
            latest_unread_target: newest_unread_target(windows),
            next_unread_sequence: max_u64(max_u64(1, self.next_unread_sequence), sat_inc(max_seq)),
        }
    }

    /// A version-1 snapshot read as version 2: no unread target, sequences restart at 1.
    pub open spec fn migrated_from_v1(self) -> SnapshotView {
        SnapshotView { schema_version: SCHEMA_VERSION, latest_unread_target: None, next_unread_sequence: 1, ..self }
    }
}

/// The snapshot of a model.
pub open spec fn snapshot_of(m: ModelView) -> SnapshotView {
    SnapshotView {
        schema_version: SCHEMA_VERSION,
        selected_window: m.selected_window,
        latest_unread_target: m.latest_unread_target,
        next_unread_sequence: m.next_unread_sequence,
        windows: m.windows,
    }
}

} // verus!
