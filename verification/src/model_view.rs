use vstd::prelude::*;

use crate::ids::{PaneId, SurfaceId, WindowId, WorkspaceId};
use crate::model::{ModelError, SplitAxis, SplitTree, SurfaceKind};
use crate::search::{first_where, last_max_by};

verus! {

/// Mathematical model of a surface.
pub struct SurfaceView {
    pub id: SurfaceId,
    pub kind: SurfaceKind,
    pub title: Seq<char>,
    pub unread: bool,
    pub unread_message: Option<Seq<char>>,
    pub unread_sequence: Option<u64>,
}

pub struct TargetView {
    pub workspace_id: WorkspaceId,
    pub pane_id: PaneId,
    pub surface_id: SurfaceId,
    pub message: Seq<char>,
    pub sequence: u64,
}

pub struct PaneView {
    pub id: PaneId,
    pub cwd: Seq<char>,
    pub surfaces: Seq<SurfaceView>,
    pub selected_surface: SurfaceId,
}

pub struct WorkspaceView {
    pub id: WorkspaceId,
    pub title: Seq<char>,
    pub cwd: Seq<char>,
    pub panes: Seq<PaneView>,
    pub selected_pane: PaneId,
    pub layout: SplitTree,
    pub unread: bool,
    pub latest_notification: Option<Seq<char>>,
}

pub struct WindowView {
    pub id: WindowId,
    pub workspaces: Seq<WorkspaceView>,
    pub selected_workspace: WorkspaceId,
}

/// Mathematical model of the application state; `next_id` is the last identifier issued.
pub struct ModelView {
    pub next_id: u64,
    pub windows: Seq<WindowView>,
    pub selected_window: WindowId,
    pub latest_unread_target: Option<TargetView>,
    pub next_unread_sequence: u64,
}

pub open spec fn sv_is(id: SurfaceId) -> spec_fn(SurfaceView) -> bool {
    |s: SurfaceView| s.id == id
}

pub open spec fn pv_is(id: PaneId) -> spec_fn(PaneView) -> bool {
    |p: PaneView| p.id == id
}

pub open spec fn wsv_is(id: WorkspaceId) -> spec_fn(WorkspaceView) -> bool {
    |w: WorkspaceView| w.id == id
}

pub open spec fn wv_is(id: WindowId) -> spec_fn(WindowView) -> bool {
    |w: WindowView| w.id == id
}

pub open spec fn sv_ix(s: Seq<SurfaceView>, id: SurfaceId) -> int {
    first_where(s, sv_is(id))
}

pub open spec fn pv_ix(s: Seq<PaneView>, id: PaneId) -> int {
    first_where(s, pv_is(id))
}

pub open spec fn wsv_ix(s: Seq<WorkspaceView>, id: WorkspaceId) -> int {
    first_where(s, wsv_is(id))
}

pub open spec fn wv_ix(s: Seq<WindowView>, id: WindowId) -> int {
    first_where(s, wv_is(id))
}

/// A fresh terminal surface.
pub open spec fn terminal_surface_view(id: SurfaceId) -> SurfaceView {
    SurfaceView {
        id,
        kind: SurfaceKind::Terminal,
        title: "Terminal"@,
        unread: false,
        unread_message: None,
        unread_sequence: None,
    }
}

pub open spec fn is_path_separator(c: char) -> bool {
    c == '/' || c == '\\'
}

/// `s` without its trailing path separators.
pub open spec fn trim_trailing_separators(s: Seq<char>) -> Seq<char>
    decreases s.len(),
{
    if s.len() > 0 && is_path_separator(s.last()) {
        trim_trailing_separators(s.drop_last())
    } else {
        s
    }
}

/// The trailing run of characters of `s` that holds no path separator.
pub open spec fn trailing_segment(s: Seq<char>) -> Seq<char>
    decreases s.len(),
{
    if s.len() == 0 || is_path_separator(s.last()) {
        Seq::empty()
    } else {
        trailing_segment(s.drop_last()).push(s.last())
    }
}

/// The last non-empty path segment of `cwd` (either separator counts), or "Workspace".
pub open spec fn workspace_title_view(cwd: Seq<char>) -> Seq<char> {
    let seg = trailing_segment(trim_trailing_separators(cwd));
    if seg.len() == 0 {
        "Workspace"@
    } else {
        seg
    }
}

pub open spec fn surface_key() -> spec_fn(SurfaceView) -> int {
    |s: SurfaceView|
        match s.unread_sequence {
            Some(q) => q as int,
            None => 0,
        }
}

pub open spec fn target_key() -> spec_fn(TargetView) -> int {
    |t: TargetView| t.sequence as int
}

/// The unread surfaces of a list, in order.
pub open spec fn unread_surfaces(s: Seq<SurfaceView>) -> Seq<SurfaceView>
    decreases s.len(),
{
    if s.len() == 0 {
        Seq::empty()
    } else if s.last().unread {
        unread_surfaces(s.drop_last()).push(s.last())
    } else {
        unread_surfaces(s.drop_last())
    }
}

/// The unread surfaces of a list of panes, pane by pane.
pub open spec fn panes_unread_surfaces(ps: Seq<PaneView>) -> Seq<SurfaceView>
    decreases ps.len(),
{
    if ps.len() == 0 {
        Seq::empty()
    } else {
        panes_unread_surfaces(ps.drop_last()) + unread_surfaces(ps.last().surfaces)
    }
}

/// What a workspace's `unread` flag and `latest_notification` are recomputed to:
/// the newest unread surface (highest sequence, the last one among equals).
pub open spec fn workspace_unread_state(panes: Seq<PaneView>) -> (bool, Option<Seq<char>>) {
    match last_max_by(panes_unread_surfaces(panes), surface_key()) {
        None => (false, None),
        Some(s) => (true, s.unread_message),
    }
}

pub open spec fn recompute_workspace(ws: WorkspaceView) -> WorkspaceView {
    WorkspaceView {
        unread: workspace_unread_state(ws.panes).0,
        latest_notification: workspace_unread_state(ws.panes).1,
        ..ws
    }
}

pub open spec fn target_of(workspace_id: WorkspaceId, pane_id: PaneId, s: SurfaceView) -> TargetView {
    TargetView {
        workspace_id,
        pane_id,
        surface_id: s.id,
        message: match s.unread_message {
            Some(m) => m,
            None => Seq::empty(),
        },
        sequence: match s.unread_sequence {
            Some(q) => q,
            None => 0,
        },
    }
}

pub open spec fn surfaces_targets(
    workspace_id: WorkspaceId,
    pane_id: PaneId,
    s: Seq<SurfaceView>,
) -> Seq<TargetView>
    decreases s.len(),
{
    if s.len() == 0 {
        Seq::empty()
    } else if s.last().unread {
        surfaces_targets(workspace_id, pane_id, s.drop_last()).push(
            target_of(workspace_id, pane_id, s.last()),
        )
    } else {
        surfaces_targets(workspace_id, pane_id, s.drop_last())
    }
}

pub open spec fn panes_targets(workspace_id: WorkspaceId, ps: Seq<PaneView>) -> Seq<TargetView>
    decreases ps.len(),
{
    if ps.len() == 0 {
        Seq::empty()
    } else {
        panes_targets(workspace_id, ps.drop_last()) + surfaces_targets(
            workspace_id,
            ps.last().id,
            ps.last().surfaces,
        )
    }
}

pub open spec fn workspaces_targets(wss: Seq<WorkspaceView>) -> Seq<TargetView>
    decreases wss.len(),
{
    if wss.len() == 0 {
        Seq::empty()
    } else {
        workspaces_targets(wss.drop_last()) + panes_targets(wss.last().id, wss.last().panes)
    }
}

pub open spec fn windows_targets(wins: Seq<WindowView>) -> Seq<TargetView>
    decreases wins.len(),
{
    if wins.len() == 0 {
        Seq::empty()
    } else {
        windows_targets(wins.drop_last()) + workspaces_targets(wins.last().workspaces)
    }
}

/// The unread surface with the highest sequence across all windows (the last one among
/// equals, in window, workspace, pane, surface order).
pub open spec fn newest_unread_target(wins: Seq<WindowView>) -> Option<TargetView> {
    last_max_by(windows_targets(wins), target_key())
}

/// Every surface id of a list of panes, pane by pane.
pub open spec fn panes_surface_ids(ps: Seq<PaneView>) -> Seq<SurfaceId>
    decreases ps.len(),
{
    if ps.len() == 0 {
        Seq::empty()
    } else {
        panes_surface_ids(ps.drop_last()) + ps.last().surfaces.map_values(|s: SurfaceView| s.id)
    }
}

pub open spec fn pane_holds(id: SurfaceId) -> spec_fn(PaneView) -> bool {
    |p: PaneView| sv_ix(p.surfaces, id) >= 0
}

pub open spec fn workspace_holds(id: SurfaceId) -> spec_fn(WorkspaceView) -> bool {
    |w: WorkspaceView| first_where(w.panes, pane_holds(id)) >= 0
}

pub open spec fn window_holds(id: SurfaceId) -> spec_fn(WindowView) -> bool {
    |w: WindowView| first_where(w.workspaces, workspace_holds(id)) >= 0
}

impl ModelView {
    pub open spec fn window(self, wi: int) -> WindowView {
        self.windows[wi]
    }

    pub open spec fn workspace(self, wi: int, k: int) -> WorkspaceView {
        self.windows[wi].workspaces[k]
    }

    pub open spec fn pane(self, wi: int, k: int, p: int) -> PaneView {
        self.windows[wi].workspaces[k].panes[p]
    }

    pub open spec fn surface(self, wi: int, k: int, p: int, s: int) -> SurfaceView {
        self.windows[wi].workspaces[k].panes[p].surfaces[s]
    }

    /// Index of the selected window.
    pub open spec fn selected_window_loc(self) -> Result<int, ModelError> {
        let wi = wv_ix(self.windows, self.selected_window);
        if wi < 0 {
            Err(ModelError::NoSelectedWindow)
        } else {
            Ok(wi)
        }
    }

    /// Indices of the selected workspace: its window, then its place in that window.
    pub open spec fn selected_workspace_loc(self) -> Result<(int, int), ModelError> {
        match self.selected_window_loc() {
            Err(e) => Err(e),
            Ok(wi) => {
                let w = self.windows[wi];
                let k = wsv_ix(w.workspaces, w.selected_workspace);
                if k < 0 {
                    Err(ModelError::NoSelectedWorkspace)
                } else {
                    Ok((wi, k))
                }
            },
        }
    }

    pub open spec fn selected_pane_loc(self) -> Result<(int, int, int), ModelError> {
        match self.selected_workspace_loc() {
            Err(e) => Err(e),
            Ok((wi, k)) => {
                let ws = self.workspace(wi, k);
                let p = pv_ix(ws.panes, ws.selected_pane);
                if p < 0 {
                    Err(ModelError::NoSelectedPane)
                } else {
                    Ok((wi, k, p))
                }
            },
        }
    }

    /// Where a surface lives: the first window that holds it, the first workspace of that
    /// window that holds it, the first pane of that workspace, and its place in the pane.
    pub open spec fn surface_loc(self, id: SurfaceId) -> Option<(int, int, int, int)> {
        let wi = first_where(self.windows, window_holds(id));
        if wi < 0 {
            None
        } else {
            let k = first_where(self.windows[wi].workspaces, workspace_holds(id));
            let p = first_where(self.workspace(wi, k).panes, pane_holds(id));
            let s = sv_ix(self.pane(wi, k, p).surfaces, id);
            Some((wi, k, p, s))
        }
    }

    pub open spec fn set_window(self, wi: int, w: WindowView) -> ModelView {
        ModelView { windows: self.windows.update(wi, w), ..self }
    }

    pub open spec fn set_workspace(self, wi: int, k: int, ws: WorkspaceView) -> ModelView {
        self.set_window(
            wi,
            WindowView { workspaces: self.windows[wi].workspaces.update(k, ws), ..self.windows[wi] },
        )
    }

    pub open spec fn set_pane(self, wi: int, k: int, p: int, pane: PaneView) -> ModelView {
        self.set_workspace(
            wi,
            k,
            WorkspaceView { panes: self.workspace(wi, k).panes.update(p, pane), ..self.workspace(wi, k) },
        )
    }

    pub open spec fn set_surface(self, wi: int, k: int, p: int, s: int, sv: SurfaceView) -> ModelView {
        self.set_pane(
            wi,
            k,
            p,
            PaneView { surfaces: self.pane(wi, k, p).surfaces.update(s, sv), ..self.pane(wi, k, p) },
        )
    }

    pub open spec fn with_ids(self, next_id: u64) -> ModelView {
        ModelView { next_id, ..self }
    }

    /// When one of `removed` is the latest unread target, recompute the target.
    pub open spec fn clear_target_if_removed(self, removed: Seq<SurfaceId>) -> ModelView {
        match self.latest_unread_target {
            Some(t) => if removed.contains(t.surface_id) {
                ModelView { latest_unread_target: newest_unread_target(self.windows), ..self }
            } else {
                self
            },
            None => self,
        }
    }
}

/// The model a fresh application starts from.
pub open spec fn new_model_view(cwd: Seq<char>) -> ModelView {
    let pane = PaneView {
        id: PaneId(3),
        cwd,
        surfaces: seq![terminal_surface_view(SurfaceId(4))],
        selected_surface: SurfaceId(4),
    };
    let ws = WorkspaceView {
        id: WorkspaceId(2),
        title: workspace_title_view(cwd),
        cwd,
        panes: seq![pane],
        selected_pane: PaneId(3),
        layout: SplitTree::Leaf(PaneId(3)),
        unread: false,
        latest_notification: None,
    };
    let window = WindowView {
        id: WindowId(1),
        workspaces: seq![ws],
        selected_workspace: WorkspaceId(2),
    };
    ModelView {
        next_id: 4,
        windows: seq![window],
        selected_window: WindowId(1),
        latest_unread_target: None,
        next_unread_sequence: 1,
    }
}

/// A fresh workspace holding one pane with one terminal; ids are the next three after `n`.
pub open spec fn new_workspace_view(n: u64, cwd: Seq<char>, title: Seq<char>) -> WorkspaceView {
    WorkspaceView {
        id: WorkspaceId((n + 1) as u64),
        title,
        cwd,
        panes: seq![
            PaneView {
                id: PaneId((n + 2) as u64),
                cwd,
                surfaces: seq![terminal_surface_view(SurfaceId((n + 3) as u64))],
                selected_surface: SurfaceId((n + 3) as u64),
            },
        ],
        selected_pane: PaneId((n + 2) as u64),
        layout: SplitTree::Leaf(PaneId((n + 2) as u64)),
        unread: false,
        latest_notification: None,
    }
}


impl ModelView {
    pub open spec fn create_workspace(self, cwd: Seq<char>, title: Option<Seq<char>>) -> (
        ModelView,
        Result<WorkspaceId, ModelError>,
    ) {
        let n = self.next_id;
        let t = match title {
            Some(t) => t,
            None => workspace_title_view(cwd),
        };
        let ws = new_workspace_view(n, cwd, t);
        let m = self.with_ids((n + 3) as u64);
        match m.selected_window_loc() {
            Err(e) => (m, Err(e)),
            Ok(wi) => (
                m.set_window(
                    wi,
                    WindowView {
                        workspaces: m.windows[wi].workspaces.push(ws),
                        selected_workspace: ws.id,
                        ..m.windows[wi]
                    },
                ),
                Ok(ws.id),
            ),
        }
    }

    pub open spec fn select_workspace(self, id: WorkspaceId) -> (ModelView, Result<(), ModelError>) {
        match self.selected_window_loc() {
            Err(e) => (self, Err(e)),
            Ok(wi) => if wsv_ix(self.windows[wi].workspaces, id) < 0 {
                (self, Err(ModelError::UnknownWorkspace(id)))
            } else {
                (self.set_window(wi, WindowView { selected_workspace: id, ..self.windows[wi] }), Ok(()))
            },
        }
    }

    pub open spec fn rename_workspace(self, id: WorkspaceId, title: Seq<char>) -> (
        ModelView,
        Result<(), ModelError>,
    ) {
        match self.selected_window_loc() {
            Err(e) => (self, Err(e)),
            Ok(wi) => {
                let k = wsv_ix(self.windows[wi].workspaces, id);
                if k < 0 {
                    (self, Err(ModelError::UnknownWorkspace(id)))
                } else {
                    (
                        self.set_workspace(wi, k, WorkspaceView { title, ..self.workspace(wi, k) }),
                        Ok(()),
                    )
                }
            },
        }
    }

    pub open spec fn close_workspace(self, id: WorkspaceId) -> (
        ModelView,
        Result<Seq<SurfaceId>, ModelError>,
    ) {
        match self.selected_window_loc() {
            Err(e) => (self, Err(e)),
            Ok(wi) => {
                let w = self.windows[wi];
                let k = wsv_ix(w.workspaces, id);
                if w.workspaces.len() == 1 {
                    (self, Err(ModelError::CannotCloseLastWorkspace))
                } else if k < 0 {
                    (self, Err(ModelError::UnknownWorkspace(id)))
                } else {
                    let removed = panes_surface_ids(w.workspaces[k].panes);
                    let rest = w.workspaces.remove(k);
                    let sel = if w.selected_workspace == id {
                        rest[if k == 0 {
                            0
                        } else {
                            k - 1
                        }].id
                    } else {
                        w.selected_workspace
                    };
                    let m = self.set_window(
                        wi,
                        WindowView { workspaces: rest, selected_workspace: sel, ..w },
                    );
                    (m.clear_target_if_removed(removed), Ok(removed))
                }
            },
        }
    }

    pub open spec fn select_pane(self, id: PaneId) -> (ModelView, Result<(), ModelError>) {
        match self.selected_workspace_loc() {
            Err(e) => (self, Err(e)),
            Ok((wi, k)) => if pv_ix(self.workspace(wi, k).panes, id) < 0 {
                (self, Err(ModelError::UnknownPane(id)))
            } else {
                (
                    self.set_workspace(wi, k, WorkspaceView { selected_pane: id, ..self.workspace(wi, k) }),
                    Ok(()),
                )
            },
        }
    }

    pub open spec fn close_pane(self, id: PaneId) -> (ModelView, Result<Seq<SurfaceId>, ModelError>) {
        match self.selected_workspace_loc() {
            Err(e) => (self, Err(e)),
            Ok((wi, k)) => {
                let ws = self.workspace(wi, k);
                let p = pv_ix(ws.panes, id);
                if ws.panes.len() == 1 {
                    (self, Err(ModelError::CannotCloseLastPane))
                } else if p < 0 {
                    (self, Err(ModelError::UnknownPane(id)))
                } else {
                    let removed = ws.panes[p].surfaces.map_values(|s: SurfaceView| s.id);
                    let rest = ws.panes.remove(p);
                    let remaining = rest[0].id;
                    let ws2 = recompute_workspace(
                        WorkspaceView {
                            panes: rest,
                            selected_pane: remaining,
                            layout: SplitTree::Leaf(remaining),
                            ..ws
                        },
                    );
                    (self.set_workspace(wi, k, ws2).clear_target_if_removed(removed), Ok(removed))
                }
            },
        }
    }

    pub open spec fn split_selected_pane(self, axis: SplitAxis) -> (ModelView, Result<PaneId, ModelError>) {
        match self.selected_workspace_loc() {
            Err(e) => (self, Err(e)),
            Ok((wi, k)) => {
                let ws = self.workspace(wi, k);
                let sp = ws.selected_pane;
                let p = pv_ix(ws.panes, sp);
                if ws.layout is Split {
                    (self, Err(ModelError::LayoutAlreadySplit))
                } else if p < 0 {
                    (self, Err(ModelError::UnknownPane(sp)))
                } else {
                    let n = self.next_id;
                    let new_id = PaneId((n + 1) as u64);
                    let sid = SurfaceId((n + 2) as u64);
                    let pane = PaneView {
                        id: new_id,
                        cwd: ws.panes[p].cwd,
                        surfaces: seq![terminal_surface_view(sid)],
                        selected_surface: sid,
                    };
                    let ws2 = WorkspaceView {
                        panes: ws.panes.push(pane),
                        layout: SplitTree::Split { axis, first: sp, second: new_id },
                        selected_pane: new_id,
                        ..ws
                    };
                    (self.with_ids((n + 2) as u64).set_workspace(wi, k, ws2), Ok(new_id))
                }
            },
        }
    }

    /// Adds `surface` to the selected pane and selects it; the id counter is first moved to `next_id`.
    pub open spec fn open_surface(self, next_id: u64, surface: SurfaceView) -> (
        ModelView,
        Result<SurfaceId, ModelError>,
    ) {
        let m = self.with_ids(next_id);
        match m.selected_pane_loc() {
            Err(e) => (m, Err(e)),
            Ok((wi, k, p)) => (
                m.set_pane(
                    wi,
                    k,
                    p,
                    PaneView {
                        surfaces: m.pane(wi, k, p).surfaces.push(surface),
                        selected_surface: surface.id,
                        ..m.pane(wi, k, p)
                    },
                ),
                Ok(surface.id),
            ),
        }
    }

    pub open spec fn open_browser_surface(self, url: Seq<char>) -> (
        ModelView,
        Result<SurfaceId, ModelError>,
    ) {
        let sid = SurfaceId((self.next_id + 1) as u64);
        self.open_surface(
            (self.next_id + 1) as u64,
            SurfaceView {
                id: sid,
                kind: SurfaceKind::Browser,
                title: url,
                unread: false,
                unread_message: None,
                unread_sequence: None,
            },
        )
    }

    pub open spec fn open_terminal_surface(self) -> (ModelView, Result<SurfaceId, ModelError>) {
        self.open_surface(
            (self.next_id + 1) as u64,
            terminal_surface_view(SurfaceId((self.next_id + 1) as u64)),
        )
    }

    pub open spec fn select_surface(self, id: SurfaceId) -> (ModelView, Result<(), ModelError>) {
        match self.selected_pane_loc() {
            Err(e) => (self, Err(e)),
            Ok((wi, k, p)) => if sv_ix(self.pane(wi, k, p).surfaces, id) < 0 {
                (self, Err(ModelError::UnknownSurface(id)))
            } else {
                (
                    self.set_pane(wi, k, p, PaneView { selected_surface: id, ..self.pane(wi, k, p) }),
                    Ok(()),
                )
            },
        }
    }

    pub open spec fn close_surface(self, id: SurfaceId) -> (
        ModelView,
        Result<Seq<SurfaceId>, ModelError>,
    ) {
        match self.selected_pane_loc() {
            Err(e) => (self, Err(e)),
            Ok((wi, k, p)) => {
                let pane = self.pane(wi, k, p);
                let s = sv_ix(pane.surfaces, id);
                if s < 0 {
                    (self, Err(ModelError::UnknownSurface(id)))
                } else {
                    let rest = pane.surfaces.remove(s);
                    let m = if rest.len() == 0 {
                        let r = SurfaceId((self.next_id + 1) as u64);
                        self.with_ids((self.next_id + 1) as u64).set_pane(
                            wi,
                            k,
                            p,
                            PaneView {
                                surfaces: seq![terminal_surface_view(r)],
                                selected_surface: r,
                                ..pane
                            },
                        )
                    } else {
                        self.set_pane(
                            wi,
                            k,
                            p,
                            PaneView {
                                surfaces: rest,
                                selected_surface: rest[if s == 0 {
                                    0
                                } else {
                                    s - 1
                                }].id,
                                ..pane
                            },
                        )
                    };
                    let m2 = m.clear_target_if_removed(seq![id]);
                    (m2.set_workspace(wi, k, recompute_workspace(m2.workspace(wi, k))), Ok(seq![id]))
                }
            },
        }
    }

    pub open spec fn mark_surface_unread(self, id: SurfaceId, message: Seq<char>) -> (
        ModelView,
        Result<(), ModelError>,
    ) {
        match self.surface_loc(id) {
            None => (self, Err(ModelError::UnknownSurface(id))),
            Some((wi, k, p, s)) => {
                let seq_no = self.next_unread_sequence;
                let m = self.set_surface(
                    wi,
                    k,
                    p,
                    s,
                    SurfaceView {
                        unread: true,
                        unread_message: Some(message),
                        unread_sequence: Some(seq_no),
                        ..self.surface(wi, k, p, s)
                    },
                );
                let m2 = m.set_workspace(
                    wi,
                    k,
                    WorkspaceView {
                        unread: true,
                        latest_notification: Some(message),
                        ..m.workspace(wi, k)
                    },
                );
                (
                    ModelView {
                        latest_unread_target: Some(
                            TargetView {
                                workspace_id: self.workspace(wi, k).id,
                                pane_id: self.pane(wi, k, p).id,
                                surface_id: id,
                                message,
                                sequence: seq_no,
                            },
                        ),
                        next_unread_sequence: (seq_no + 1) as u64,
                        ..m2
                    },
                    Ok(()),
                )
            },
        }
    }

    pub open spec fn mark_surface_read(self, id: SurfaceId) -> (ModelView, Result<(), ModelError>) {
        match self.surface_loc(id) {
            None => (self, Err(ModelError::UnknownSurface(id))),
            Some((wi, k, p, s)) => {
                let m = self.set_surface(
                    wi,
                    k,
                    p,
                    s,
                    SurfaceView {
                        unread: false,
                        unread_message: None,
                        unread_sequence: None,
                        ..self.surface(wi, k, p, s)
                    },
                );
                let m2 = m.set_workspace(wi, k, recompute_workspace(m.workspace(wi, k)));
                (ModelView { latest_unread_target: newest_unread_target(m2.windows), ..m2 }, Ok(()))
            },
        }
    }

    pub open spec fn rename_surface(self, id: SurfaceId, title: Seq<char>) -> (
        ModelView,
        Result<(), ModelError>,
    ) {
        match self.surface_loc(id) {
            None => (self, Err(ModelError::UnknownSurface(id))),
            Some((wi, k, p, s)) => (
                self.set_surface(wi, k, p, s, SurfaceView { title, ..self.surface(wi, k, p, s) }),
                Ok(()),
            ),
        }
    }
}


impl ModelView {
    /// `close_surface` hands out a new id for a replacement terminal.
    pub open spec fn close_surface_replaces(self, id: SurfaceId) -> bool {
        match self.selected_pane_loc() {
            Err(_) => false,
            Ok((wi, k, p)) => {
                let pane = self.pane(wi, k, p);
                sv_ix(pane.surfaces, id) >= 0 && pane.surfaces.len() == 1
            },
        }
    }

    /// `split_selected_pane` gets as far as handing out ids.
    pub open spec fn split_allocates(self) -> bool {
        self.split_selected_pane(SplitAxis::Horizontal).1 is Ok
    }
}

} // verus!
