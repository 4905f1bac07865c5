use vstd::prelude::*;

use crate::ids::{IdGen, PaneId, SurfaceId, WindowId, WorkspaceId};
use crate::model_view::{
    ModelView, PaneView, SurfaceView, TargetView, WindowView, WorkspaceView, is_path_separator,
    pv_is, pv_ix, sv_is, sv_ix, terminal_surface_view, trailing_segment, trim_trailing_separators,
    workspace_title_view, wsv_is, wsv_ix, wv_is, wv_ix, new_model_view, new_workspace_view, pane_holds,
    workspace_holds, window_holds, panes_surface_ids, recompute_workspace,
};
use crate::unread::{newest_target, recompute_workspace_unread};
use crate::search::{first_where, lemma_first_where_found, lemma_first_where_absent};

verus! {

#[derive(Clone, Copy, Debug, PartialEq, Eq, Structural)]
pub enum SurfaceKind {
    Terminal,
    Browser,
}

#[derive(Clone, Copy, Debug, PartialEq, Eq, Structural)]
pub enum SplitAxis {
    Horizontal,
    Vertical,
}

/// How a workspace lays out its panes: one pane, or two panes side by side.
#[derive(Clone, Copy, Debug, PartialEq, Eq, Structural)]
pub enum SplitTree {
    Leaf(PaneId),
    Split { axis: SplitAxis, first: PaneId, second: PaneId },
}

/// A tab inside a pane.
#[derive(Clone, Debug, PartialEq, Eq)]
pub struct Surface {
    pub id: SurfaceId,
    pub kind: SurfaceKind,
    pub title: String,
    pub unread: bool,
    pub unread_message: Option<String>,
    pub unread_sequence: Option<u64>,
}

/// Where the most recent unread notification lives.
#[derive(Clone, Debug, PartialEq, Eq)]
pub struct UnreadTarget {
    pub workspace_id: WorkspaceId,
    pub pane_id: PaneId,
    pub surface_id: SurfaceId,
    pub message: String,
    pub sequence: u64,
}

#[derive(Clone, Debug, PartialEq, Eq)]
pub struct Pane {
    pub id: PaneId,
    pub cwd: String,
    pub surfaces: Vec<Surface>,
    pub selected_surface: SurfaceId,
}

#[derive(Clone, Debug, PartialEq, Eq)]
pub struct Workspace {
    pub id: WorkspaceId,
    pub title: String,
    pub cwd: String,
    pub panes: Vec<Pane>,
    pub selected_pane: PaneId,
    pub layout: SplitTree,
    pub unread: bool,
    pub latest_notification: Option<String>,
}

#[derive(Clone, Debug, PartialEq, Eq)]
pub struct AppWindow {
    pub id: WindowId,
    pub workspaces: Vec<Workspace>,
    pub selected_workspace: WorkspaceId,
}

/// The whole application state: windows, their workspaces, panes and surfaces,
/// plus the unread-notification bookkeeping.
#[derive(Clone, Debug, PartialEq, Eq)]
pub struct AppModel {
    pub ids: IdGen,
    pub windows: Vec<AppWindow>,
    pub selected_window: WindowId,
    pub latest_unread_target: Option<UnreadTarget>,
    pub next_unread_sequence: u64,
}

#[derive(Clone, Copy, Debug, PartialEq, Eq, Structural)]
pub enum ModelError {
    NoSelectedWindow,
    NoSelectedWorkspace,
    NoSelectedPane,
    LayoutAlreadySplit,
    UnknownWorkspace(WorkspaceId),
    UnknownPane(PaneId),
    UnknownSurface(SurfaceId),
    CannotCloseLastWorkspace,
    CannotCloseLastPane,
}

pub open spec fn surfaces_view(s: Seq<Surface>) -> Seq<SurfaceView> {
    s.map_values(|x: Surface| x@)
}

pub open spec fn panes_view(s: Seq<Pane>) -> Seq<PaneView> {
    s.map_values(|x: Pane| x@)
}

pub open spec fn workspaces_view(s: Seq<Workspace>) -> Seq<WorkspaceView> {
    s.map_values(|x: Workspace| x@)
}

pub open spec fn windows_view(s: Seq<AppWindow>) -> Seq<WindowView> {
    s.map_values(|x: AppWindow| x@)
}

pub open spec fn opt_string_view(o: Option<String>) -> Option<Seq<char>> {
    match o {
        Some(s) => Some(s@),
        None => None,
    }
}

impl View for Surface {
    type V = SurfaceView;

    open spec fn view(&self) -> SurfaceView {
        SurfaceView {
            id: self.id,
            kind: self.kind,
            title: self.title@,
            unread: self.unread,
            unread_message: opt_string_view(self.unread_message),
            unread_sequence: self.unread_sequence,
        }
    }
}

impl View for UnreadTarget {
    type V = TargetView;

    open spec fn view(&self) -> TargetView {
        TargetView {
            workspace_id: self.workspace_id,
            pane_id: self.pane_id,
            surface_id: self.surface_id,
            message: self.message@,
            sequence: self.sequence,
        }
    }
}

impl View for Pane {
    type V = PaneView;

    open spec fn view(&self) -> PaneView {
        PaneView {
            id: self.id,
            cwd: self.cwd@,
            surfaces: surfaces_view(self.surfaces@),
            selected_surface: self.selected_surface,
        }
    }
}

impl View for Workspace {
    type V = WorkspaceView;

    open spec fn view(&self) -> WorkspaceView {
        WorkspaceView {
            id: self.id,
            title: self.title@,
            cwd: self.cwd@,
            panes: panes_view(self.panes@),
            selected_pane: self.selected_pane,
            layout: self.layout,
            unread: self.unread,
            latest_notification: opt_string_view(self.latest_notification),
        }
    }
}

impl View for AppWindow {
    type V = WindowView;

    open spec fn view(&self) -> WindowView {
        WindowView {
            id: self.id,
            workspaces: workspaces_view(self.workspaces@),
            selected_workspace: self.selected_workspace,
        }
    }
}

pub open spec fn opt_target_view(o: Option<UnreadTarget>) -> Option<TargetView> {
    match o {
        Some(t) => Some(t@),
        None => None,
    }
}

impl View for AppModel {
    type V = ModelView;

    open spec fn view(&self) -> ModelView {
        ModelView {
            next_id: self.ids@,
            windows: windows_view(self.windows@),
            selected_window: self.selected_window,
            latest_unread_target: opt_target_view(self.latest_unread_target),
            next_unread_sequence: self.next_unread_sequence,
        }
    }
}

pub fn find_surface(items: &Vec<Surface>, id: SurfaceId) -> (r: Option<usize>)
    ensures
        match r {
            Some(i) => i < items.len() && i == sv_ix(surfaces_view(items@), id),
            None => sv_ix(surfaces_view(items@), id) == -1,
        },
{
    let ghost v = surfaces_view(items@);
    let mut i: usize = 0;
    while i < items.len()
        invariant
            i <= items.len(),
            v == surfaces_view(items@),
            forall|j: int| 0 <= j < i ==> !sv_is(id)(#[trigger] v[j]),
        decreases items.len() - i,
    {
        assert(v[i as int] == items@[i as int]@);
        if items[i].id == id {
            proof {
                lemma_first_where_found(v, sv_is(id), i as int);
            }
            return Some(i);
        }
        i = i + 1;
    }
    proof {
        lemma_first_where_absent(v, sv_is(id));
    }
    None
}

pub fn find_pane(items: &Vec<Pane>, id: PaneId) -> (r: Option<usize>)
    ensures
        match r {
            Some(i) => i < items.len() && i == pv_ix(panes_view(items@), id),
            None => pv_ix(panes_view(items@), id) == -1,
        },
{
    let ghost v = panes_view(items@);
    let mut i: usize = 0;
    while i < items.len()
        invariant
            i <= items.len(),
            v == panes_view(items@),
            forall|j: int| 0 <= j < i ==> !pv_is(id)(#[trigger] v[j]),
        decreases items.len() - i,
    {
        assert(v[i as int] == items@[i as int]@);
        if items[i].id == id {
            proof {
                lemma_first_where_found(v, pv_is(id), i as int);
            }
            return Some(i);
        }
        i = i + 1;
    }
    proof {
        lemma_first_where_absent(v, pv_is(id));
    }
    None
}

pub fn find_workspace(items: &Vec<Workspace>, id: WorkspaceId) -> (r: Option<usize>)
    ensures
        match r {
            Some(i) => i < items.len() && i == wsv_ix(workspaces_view(items@), id),
            None => wsv_ix(workspaces_view(items@), id) == -1,
        },
{
    let ghost v = workspaces_view(items@);
    let mut i: usize = 0;
    while i < items.len()
        invariant
            i <= items.len(),
            v == workspaces_view(items@),
            forall|j: int| 0 <= j < i ==> !wsv_is(id)(#[trigger] v[j]),
        decreases items.len() - i,
    {
        assert(v[i as int] == items@[i as int]@);
        if items[i].id == id {
            proof {
                lemma_first_where_found(v, wsv_is(id), i as int);
            }
            return Some(i);
        }
        i = i + 1;
    }
    proof {
        lemma_first_where_absent(v, wsv_is(id));
    }
    None
}

pub fn find_window(items: &Vec<AppWindow>, id: WindowId) -> (r: Option<usize>)
    ensures
        match r {
            Some(i) => i < items.len() && i == wv_ix(windows_view(items@), id),
            None => wv_ix(windows_view(items@), id) == -1,
        },
{
    let ghost v = windows_view(items@);
    let mut i: usize = 0;
    while i < items.len()
        invariant
            i <= items.len(),
            v == windows_view(items@),
            forall|j: int| 0 <= j < i ==> !wv_is(id)(#[trigger] v[j]),
        decreases items.len() - i,
    {
        assert(v[i as int] == items@[i as int]@);
        if items[i].id == id {
            proof {
                lemma_first_where_found(v, wv_is(id), i as int);
            }
            return Some(i);
        }
        i = i + 1;
    }
    proof {
        lemma_first_where_absent(v, wv_is(id));
    }
    None
}


fn is_separator(c: char) -> (r: bool)
    ensures
        r == is_path_separator(c),
{
    c == '/' || c == '\\'
}

proof fn lemma_trim_prefix(s: Seq<char>, e: int)
    requires
        0 < e <= s.len(),
        is_path_separator(s[e - 1]),
    ensures
        trim_trailing_separators(s.subrange(0, e)) == trim_trailing_separators(s.subrange(0, e - 1)),
{
    assert(s.subrange(0, e).drop_last() =~= s.subrange(0, e - 1));
}

proof fn lemma_segment_prefix(s: Seq<char>, b: int, e: int)
    requires
        0 < b <= e <= s.len(),
        !is_path_separator(s[b - 1]),
    ensures
        trailing_segment(s.subrange(0, b)) == trailing_segment(s.subrange(0, b - 1)).push(s[b - 1]),
{
    assert(s.subrange(0, b).drop_last() =~= s.subrange(0, b - 1));
}

/// The title a workspace gets from its working directory.
pub fn workspace_title(cwd: &str) -> (title: String)
    ensures
        title@ == workspace_title_view(cwd@),
{
    let ghost s = cwd@;
    let n = cwd.unicode_len();
    let mut e: usize = n;
    assert(s.subrange(0, n as int) =~= s);
    while e > 0 && is_separator(cwd.get_char(e - 1))
        invariant
            e <= n,
            n == s.len(),
            s == cwd@,
            trim_trailing_separators(s) == trim_trailing_separators(s.subrange(0, e as int)),
        decreases e,
    {
        proof {
            lemma_trim_prefix(s, e as int);
        }
        e = e - 1;
    }
    assert(trim_trailing_separators(s.subrange(0, e as int)) == s.subrange(0, e as int));
    let mut b: usize = e;
    while b > 0 && !is_separator(cwd.get_char(b - 1))
        invariant
            b <= e <= n,
            n == s.len(),
            s == cwd@,
            trailing_segment(s.subrange(0, e as int)) == trailing_segment(s.subrange(0, b as int)) + s.subrange(b as int, e as int),
        decreases b,
    {
        proof {
            lemma_segment_prefix(s, b as int, e as int);
            assert(trailing_segment(s.subrange(0, b - 1)).push(s[b - 1]) + s.subrange(b as int, e as int)
                =~= trailing_segment(s.subrange(0, b - 1)) + s.subrange(b - 1, e as int));
        }
        b = b - 1;
    }
    assert(trailing_segment(s.subrange(0, b as int)) =~= Seq::<char>::empty());
    assert(trailing_segment(s.subrange(0, e as int)) =~= s.subrange(b as int, e as int));
    if b == e {
        String::from_str("Workspace")
    } else {
        String::from_str(cwd.substring_char(b, e))
    }
}

/// A fresh terminal tab.
pub fn terminal_surface(id: SurfaceId) -> (s: Surface)
    ensures
        s@ == terminal_surface_view(id),
{
    Surface {
        id,
        kind: SurfaceKind::Terminal,
        title: String::from_str("Terminal"),
        unread: false,
        unread_message: None,
        unread_sequence: None,
    }
}

impl Pane {
    pub fn surface(&self, id: SurfaceId) -> (r: Option<&Surface>)
        ensures
            r == (if sv_ix(surfaces_view(self.surfaces@), id) >= 0 {
                Some(&self.surfaces@[sv_ix(surfaces_view(self.surfaces@), id)])
            } else {
                None
            }),
    {
        match find_surface(&self.surfaces, id) {
            Some(i) => Some(&self.surfaces[i]),
            None => None,
        }
    }
}

impl Workspace {
    pub fn pane(&self, id: PaneId) -> (r: Option<&Pane>)
        ensures
            r == (if pv_ix(panes_view(self.panes@), id) >= 0 {
                Some(&self.panes@[pv_ix(panes_view(self.panes@), id)])
            } else {
                None
            }),
    {
        match find_pane(&self.panes, id) {
            Some(i) => Some(&self.panes[i]),
            None => None,
        }
    }

    pub fn selected_pane(&self) -> (r: Option<&Pane>)
        ensures
            r == (if pv_ix(panes_view(self.panes@), self.selected_pane) >= 0 {
                Some(&self.panes@[pv_ix(panes_view(self.panes@), self.selected_pane)])
            } else {
                None
            }),
    {
        self.pane(self.selected_pane)
    }
}

impl AppWindow {
    pub fn workspace(&self, id: WorkspaceId) -> (r: Option<&Workspace>)
        ensures
            r == (if wsv_ix(workspaces_view(self.workspaces@), id) >= 0 {
                Some(&self.workspaces@[wsv_ix(workspaces_view(self.workspaces@), id)])
            } else {
                None
            }),
    {
        match find_workspace(&self.workspaces, id) {
            Some(i) => Some(&self.workspaces[i]),
            None => None,
        }
    }

    pub fn selected_workspace(&self) -> (r: Option<&Workspace>)
        ensures
            r == (if wsv_ix(workspaces_view(self.workspaces@), self.selected_workspace) >= 0 {
                Some(&self.workspaces@[wsv_ix(workspaces_view(self.workspaces@), self.selected_workspace)])
            } else {
                None
            }),
    {
        self.workspace(self.selected_workspace)
    }
}



pub open spec fn ids_result_view(r: Result<Vec<SurfaceId>, ModelError>) -> Result<Seq<SurfaceId>, ModelError> {
    match r {
        Ok(v) => Ok(v@),
        Err(e) => Err(e),
    }
}

pub fn vec_contains_surface(v: &Vec<SurfaceId>, id: SurfaceId) -> (r: bool)
    ensures
        r == v@.contains(id),
{
    let mut i: usize = 0;
    while i < v.len()
        invariant
            i <= v.len(),
            forall|j: int| 0 <= j < i ==> v@[j] != id,
        decreases v.len() - i,
    {
        if v[i] == id {
            return true;
        }
        i = i + 1;
    }
    false
}

fn pane_surface_ids(pane: &Pane) -> (r: Vec<SurfaceId>)
    ensures
        r@ == pane@.surfaces.map_values(|s: SurfaceView| s.id),
{
    let mut out: Vec<SurfaceId> = Vec::new();
    let mut i: usize = 0;
    while i < pane.surfaces.len()
        invariant
            i <= pane.surfaces.len(),
            out@ == pane@.surfaces.take(i as int).map_values(|s: SurfaceView| s.id),
        decreases pane.surfaces.len() - i,
    {
        assert(pane@.surfaces[i as int] == pane.surfaces@[i as int]@);
        out.push(pane.surfaces[i].id);
        assert(pane@.surfaces.take(i + 1).map_values(|s: SurfaceView| s.id) =~= pane@.surfaces.take(
            i as int,
        ).map_values(|s: SurfaceView| s.id).push(pane.surfaces@[i as int].id));
        i = i + 1;
    }
    assert(pane@.surfaces.take(i as int) =~= pane@.surfaces);
    out
}

/// Every surface id of a workspace, pane by pane.
pub fn workspace_surface_ids(workspace: &Workspace) -> (r: Vec<SurfaceId>)
    ensures
        r@ == panes_surface_ids(workspace@.panes),
{
    let ghost pv = workspace@.panes;
    let mut out: Vec<SurfaceId> = Vec::new();
    let mut j: usize = 0;
    while j < workspace.panes.len()
        invariant
            j <= workspace.panes.len(),
            pv == workspace@.panes,
            pv.len() == workspace.panes.len(),
            out@ == panes_surface_ids(pv.take(j as int)),
        decreases workspace.panes.len() - j,
    {
        let mut ids = pane_surface_ids(&workspace.panes[j]);
        proof {
            assert(pv.take(j + 1).drop_last() =~= pv.take(j as int));
            assert(pv.take(j + 1).last() == workspace.panes@[j as int]@);
        }
        out.append(&mut ids);
        j = j + 1;
    }
    assert(pv.take(pv.len() as int) =~= pv);
    out
}

fn pane_holding(panes: &Vec<Pane>, id: SurfaceId) -> (r: Option<(usize, usize)>)
    ensures
        match r {
            Some((p, s)) => p < panes.len() && s < panes@[p as int].surfaces.len() && p == first_where(
                panes_view(panes@),
                pane_holds(id),
            ) && s == sv_ix(panes_view(panes@)[p as int].surfaces, id),
            None => first_where(panes_view(panes@), pane_holds(id)) == -1,
        },
{
    let ghost v = panes_view(panes@);
    let mut i: usize = 0;
    while i < panes.len()
        invariant
            i <= panes.len(),
            v == panes_view(panes@),
            forall|j: int| 0 <= j < i ==> !pane_holds(id)(#[trigger] v[j]),
        decreases panes.len() - i,
    {
        assert(v[i as int] == panes@[i as int]@);
        match find_surface(&panes[i].surfaces, id) {
            Some(s) => {
                proof {
                    lemma_first_where_found(v, pane_holds(id), i as int);
                }
                return Some((i, s));
            },
            None => {},
        }
        i = i + 1;
    }
    proof {
        lemma_first_where_absent(v, pane_holds(id));
    }
    None
}

fn workspace_holding(workspaces: &Vec<Workspace>, id: SurfaceId) -> (r: Option<(usize, usize, usize)>)
    ensures
        match r {
            Some((k, p, s)) => k < workspaces.len() && p < workspaces@[k as int].panes.len() && s
                < workspaces@[k as int].panes@[p as int].surfaces.len() && k == first_where(
                workspaces_view(workspaces@),
                workspace_holds(id),
            ) && p == first_where(workspaces_view(workspaces@)[k as int].panes, pane_holds(id))
                && s == sv_ix(workspaces_view(workspaces@)[k as int].panes[p as int].surfaces, id),
            None => first_where(workspaces_view(workspaces@), workspace_holds(id)) == -1,
        },
{
    let ghost v = workspaces_view(workspaces@);
    let mut i: usize = 0;
    while i < workspaces.len()
        invariant
            i <= workspaces.len(),
            v == workspaces_view(workspaces@),
            forall|j: int| 0 <= j < i ==> !workspace_holds(id)(#[trigger] v[j]),
        decreases workspaces.len() - i,
    {
        assert(v[i as int] == workspaces@[i as int]@);
        match pane_holding(&workspaces[i].panes, id) {
            Some((p, s)) => {
                proof {
                    lemma_first_where_found(v, workspace_holds(id), i as int);
                }
                return Some((i, p, s));
            },
            None => {},
        }
        i = i + 1;
    }
    proof {
        lemma_first_where_absent(v, workspace_holds(id));
    }
    None
}

impl AppModel {
    pub(crate) fn selected_window_index(&self) -> (r: Result<usize, ModelError>)
        ensures
            match r {
                Ok(i) => i < self.windows.len() && self@.selected_window_loc() == Ok::<int, ModelError>(i as int),
                Err(e) => self@.selected_window_loc() == Err::<int, ModelError>(e),
            },
    {
        match find_window(&self.windows, self.selected_window) {
            Some(i) => Ok(i),
            None => Err(ModelError::NoSelectedWindow),
        }
    }

    pub(crate) fn selected_workspace_index(&self) -> (r: Result<(usize, usize), ModelError>)
        ensures
            match r {
                Ok((i, k)) => i < self.windows.len() && k < self.windows@[i as int].workspaces.len()
                    && self@.selected_workspace_loc() == Ok::<(int, int), ModelError>((i as int, k as int)),
                Err(e) => self@.selected_workspace_loc() == Err::<(int, int), ModelError>(e),
            },
    {
        let i = self.selected_window_index()?;
        let w = &self.windows[i];
        assert(self@.windows[i as int] == w@);
        match find_workspace(&w.workspaces, w.selected_workspace) {
            Some(k) => Ok((i, k)),
            None => Err(ModelError::NoSelectedWorkspace),
        }
    }

    pub(crate) fn selected_pane_index(&self) -> (r: Result<(usize, usize, usize), ModelError>)
        ensures
            match r {
                Ok((i, k, p)) => i < self.windows.len() && k < self.windows@[i as int].workspaces.len()
                    && p < self.windows@[i as int].workspaces@[k as int].panes.len()
                    && self@.selected_pane_loc() == Ok::<(int, int, int), ModelError>((i as int, k as int, p as int)),
                Err(e) => self@.selected_pane_loc() == Err::<(int, int, int), ModelError>(e),
            },
    {
        let (i, k) = self.selected_workspace_index()?;
        let ws = &self.windows[i].workspaces[k];
        assert(self@.workspace(i as int, k as int) == ws@);
        match find_pane(&ws.panes, ws.selected_pane) {
            Some(p) => Ok((i, k, p)),
            None => Err(ModelError::NoSelectedPane),
        }
    }

    pub fn selected_window(&self) -> (r: Result<&AppWindow, ModelError>)
        ensures
            match self@.selected_window_loc() {
                Ok(i) => r == Ok::<&AppWindow, ModelError>(&self.windows@[i]),
                Err(e) => r == Err::<&AppWindow, ModelError>(e),
            },
    {
        let i = self.selected_window_index()?;
        Ok(&self.windows[i])
    }

    pub fn selected_workspace(&self) -> (r: Result<&Workspace, ModelError>)
        ensures
            match self@.selected_workspace_loc() {
                Ok((i, k)) => r == Ok::<&Workspace, ModelError>(&self.windows@[i].workspaces@[k]),
                Err(e) => r == Err::<&Workspace, ModelError>(e),
            },
    {
        let (i, k) = self.selected_workspace_index()?;
        Ok(&self.windows[i].workspaces[k])
    }

    pub fn selected_pane(&self) -> (r: Result<&Pane, ModelError>)
        ensures
            match self@.selected_pane_loc() {
                Ok((i, k, p)) => r == Ok::<&Pane, ModelError>(&self.windows@[i].workspaces@[k].panes@[p]),
                Err(e) => r == Err::<&Pane, ModelError>(e),
            },
    {
        let (i, k, p) = self.selected_pane_index()?;
        Ok(&self.windows[i].workspaces[k].panes[p])
    }

    pub fn select_workspace(&mut self, workspace_id: WorkspaceId) -> (r: Result<(), ModelError>)
        ensures
            (final(self)@, r) == old(self)@.select_workspace(workspace_id),
    {
        let i = self.selected_window_index()?;
        let found = find_workspace(&self.windows[i].workspaces, workspace_id);
        assert(self@.windows[i as int] == self.windows@[i as int]@);
        if found.is_none() {
            return Err(ModelError::UnknownWorkspace(workspace_id));
        }
        self.windows[i].selected_workspace = workspace_id;
        assert(self@.windows =~= old(self)@.select_workspace(workspace_id).0.windows);
        Ok(())
    }

    pub fn rename_workspace(&mut self, workspace_id: WorkspaceId, title: String) -> (r: Result<(), ModelError>)
        ensures
            (final(self)@, r) == old(self)@.rename_workspace(workspace_id, title@),
    {
        let i = self.selected_window_index()?;
        assert(self@.windows[i as int] == self.windows@[i as int]@);
        let k = match find_workspace(&self.windows[i].workspaces, workspace_id) {
            Some(k) => k,
            None => return Err(ModelError::UnknownWorkspace(workspace_id)),
        };
        self.windows[i].workspaces[k].title = title;
        assert(self@.windows[i as int].workspaces =~= old(self)@.rename_workspace(workspace_id, title@).0.windows[i as int].workspaces);
        assert(self@.windows =~= old(self)@.rename_workspace(workspace_id, title@).0.windows);
        Ok(())
    }
}


impl AppModel {
    fn surface_location(&self, id: SurfaceId) -> (r: Option<(usize, usize, usize, usize)>)
        ensures
            match r {
                Some((a, b, c, d)) => a < self.windows.len() && b < self.windows@[a as int].workspaces.len()
                    && c < self.windows@[a as int].workspaces@[b as int].panes.len() && d
                    < self.windows@[a as int].workspaces@[b as int].panes@[c as int].surfaces.len()
                    && self@.surface_loc(id) == Some((a as int, b as int, c as int, d as int)),
                None => self@.surface_loc(id) is None,
            },
    {
        let ghost v = self@.windows;
        let mut i: usize = 0;
        while i < self.windows.len()
            invariant
                i <= self.windows.len(),
                v == self@.windows,
                forall|j: int| 0 <= j < i ==> !window_holds(id)(#[trigger] v[j]),
            decreases self.windows.len() - i,
        {
            assert(v[i as int] == self.windows@[i as int]@);
            match workspace_holding(&self.windows[i].workspaces, id) {
                Some((k, p, s)) => {
                    proof {
                        lemma_first_where_found(v, window_holds(id), i as int);
                    }
                    return Some((i, k, p, s));
                },
                None => {},
            }
            i = i + 1;
        }
        proof {
            lemma_first_where_absent(v, window_holds(id));
        }
        None
    }

    fn clear_unread_target_if_removed(&mut self, removed: &Vec<SurfaceId>)
        ensures
            final(self)@ == old(self)@.clear_target_if_removed(removed@),
    {
        let hit = match &self.latest_unread_target {
            Some(t) => vec_contains_surface(removed, t.surface_id),
            None => false,
        };
        if hit {
            self.latest_unread_target = newest_target(&self.windows);
        }
    }

    pub fn new(cwd: &str) -> (app: Self)
        ensures
            app@ == new_model_view(cwd@),
    {
        let mut ids = IdGen::new();
        let window_id = ids.next_window();
        let workspace_id = ids.next_workspace();
        let pane_id = ids.next_pane();
        let surface_id = ids.next_surface();
        let title = workspace_title(cwd);
        let surface = terminal_surface(surface_id);
        let mut surfaces: Vec<Surface> = Vec::new();
        surfaces.push(surface);
        let pane = Pane { id: pane_id, cwd: String::from_str(cwd), surfaces, selected_surface: surface_id };
        let mut panes: Vec<Pane> = Vec::new();
        panes.push(pane);
        let workspace = Workspace {
            id: workspace_id,
            title,
            cwd: String::from_str(cwd),
            panes,
            selected_pane: pane_id,
            layout: SplitTree::Leaf(pane_id),
            unread: false,
            latest_notification: None,
        };
        let mut workspaces: Vec<Workspace> = Vec::new();
        workspaces.push(workspace);
        let window = AppWindow { id: window_id, workspaces, selected_workspace: workspace_id };
        let mut windows: Vec<AppWindow> = Vec::new();
        windows.push(window);
        let app = AppModel {
            ids,
            windows,
            selected_window: window_id,
            latest_unread_target: None,
            next_unread_sequence: 1,
        };
        let ghost nm = new_model_view(cwd@);
        assert(app@.windows[0].workspaces[0].panes[0].surfaces =~= nm.windows[0].workspaces[0].panes[0].surfaces);
        assert(app@.windows[0].workspaces[0].panes =~= nm.windows[0].workspaces[0].panes);
        assert(app@.windows[0].workspaces =~= nm.windows[0].workspaces);
        assert(app@.windows =~= nm.windows);
        app
    }

    pub fn create_workspace(&mut self, cwd: &str, title: Option<String>) -> (r: Result<WorkspaceId, ModelError>)
        requires
            old(self).ids@ + 3 <= u64::MAX,
        ensures
            (final(self)@, r) == old(self)@.create_workspace(cwd@, opt_string_view(title)),
    {
        let workspace_id = self.ids.next_workspace();
        let pane_id = self.ids.next_pane();
        let surface_id = self.ids.next_surface();
        let ghost tv = opt_string_view(title);
        let title = match title {
            Some(t) => t,
            None => workspace_title(cwd),
        };
        let mut surfaces: Vec<Surface> = Vec::new();
        surfaces.push(terminal_surface(surface_id));
        let mut panes: Vec<Pane> = Vec::new();
        panes.push(Pane { id: pane_id, cwd: String::from_str(cwd), surfaces, selected_surface: surface_id });
        let workspace = Workspace {
            id: workspace_id,
            title,
            cwd: String::from_str(cwd),
            panes,
            selected_pane: pane_id,
            layout: SplitTree::Leaf(pane_id),
            unread: false,
            latest_notification: None,
        };
        let ghost n = old(self).ids@;
        let ghost nw = new_workspace_view(n, cwd@, match tv { Some(t) => t, None => workspace_title_view(cwd@) });
        assert(workspace@.panes[0].surfaces =~= nw.panes[0].surfaces);
        assert(workspace@.panes =~= nw.panes);
        assert(workspace@ == nw);
        assert(self@ == old(self)@.with_ids((n + 3) as u64));
        let i = self.selected_window_index()?;
        self.windows[i].workspaces.push(workspace);
        self.windows[i].selected_workspace = workspace_id;
        assert(self@.windows[i as int].workspaces =~= old(self)@.create_workspace(cwd@, tv).0.windows[i as int].workspaces);
        assert(self@.windows =~= old(self)@.create_workspace(cwd@, tv).0.windows);
        Ok(workspace_id)
    }

    pub fn close_workspace(&mut self, workspace_id: WorkspaceId) -> (r: Result<Vec<SurfaceId>, ModelError>)
        ensures
            (final(self)@, ids_result_view(r)) == old(self)@.close_workspace(workspace_id),
    {
        let i = self.selected_window_index()?;
        assert(self@.windows[i as int] == self.windows@[i as int]@);
        if self.windows[i].workspaces.len() == 1 {
            return Err(ModelError::CannotCloseLastWorkspace);
        }
        let k = match find_workspace(&self.windows[i].workspaces, workspace_id) {
            Some(k) => k,
            None => return Err(ModelError::UnknownWorkspace(workspace_id)),
        };
        let removed = self.windows[i].workspaces.remove(k);
        let removed_surfaces = workspace_surface_ids(&removed);
        if self.windows[i].selected_workspace == workspace_id {
            let next = if k == 0 { 0 } else { k - 1 };
            self.windows[i].selected_workspace = self.windows[i].workspaces[next].id;
        }
        let ghost mid = old(self)@.set_window(
            i as int,
            WindowView {
                workspaces: old(self)@.windows[i as int].workspaces.remove(k as int),
                selected_workspace: self.windows@[i as int].selected_workspace,
                ..old(self)@.windows[i as int]
            },
        );
        assert(self@.windows[i as int].workspaces =~= old(self)@.windows[i as int].workspaces.remove(k as int));
        assert(self@.windows =~= mid.windows);
        assert(removed@ == old(self)@.windows[i as int].workspaces[k as int]);
        self.clear_unread_target_if_removed(&removed_surfaces);
        Ok(removed_surfaces)
    }
}


impl AppModel {
    pub fn select_pane(&mut self, pane_id: PaneId) -> (r: Result<(), ModelError>)
        ensures
            (final(self)@, r) == old(self)@.select_pane(pane_id),
    {
        let (i, k) = self.selected_workspace_index()?;
        assert(self@.workspace(i as int, k as int) == self.windows@[i as int].workspaces@[k as int]@);
        if find_pane(&self.windows[i].workspaces[k].panes, pane_id).is_none() {
            return Err(ModelError::UnknownPane(pane_id));
        }
        self.windows[i].workspaces[k].selected_pane = pane_id;
        let ghost spec = old(self)@.select_pane(pane_id).0;
        assert(self@.windows[i as int].workspaces =~= spec.windows[i as int].workspaces);
        assert(self@.windows =~= spec.windows);
        Ok(())
    }

    pub fn close_pane(&mut self, pane_id: PaneId) -> (r: Result<Vec<SurfaceId>, ModelError>)
        ensures
            (final(self)@, ids_result_view(r)) == old(self)@.close_pane(pane_id),
    {
        let (i, k) = self.selected_workspace_index()?;
        assert(self@.workspace(i as int, k as int) == self.windows@[i as int].workspaces@[k as int]@);
        if self.windows[i].workspaces[k].panes.len() == 1 {
            return Err(ModelError::CannotCloseLastPane);
        }
        let p = match find_pane(&self.windows[i].workspaces[k].panes, pane_id) {
            Some(p) => p,
            None => return Err(ModelError::UnknownPane(pane_id)),
        };
        let removed_pane = self.windows[i].workspaces[k].panes.remove(p);
        let removed = pane_surface_ids(&removed_pane);
        let remaining = self.windows[i].workspaces[k].panes[0].id;
        self.windows[i].workspaces[k].selected_pane = remaining;
        self.windows[i].workspaces[k].layout = SplitTree::Leaf(remaining);
        let ghost ws_before = self.windows@[i as int].workspaces@[k as int]@;
        assert(ws_before.panes =~= old(self)@.workspace(i as int, k as int).panes.remove(p as int));
        recompute_workspace_unread(&mut self.windows[i].workspaces[k]);
        let ghost spec = old(self)@.set_workspace(
            i as int,
            k as int,
            recompute_workspace(
                WorkspaceView {
                    panes: old(self)@.workspace(i as int, k as int).panes.remove(p as int),
                    selected_pane: remaining,
                    layout: SplitTree::Leaf(remaining),
                    ..old(self)@.workspace(i as int, k as int)
                },
            ),
        );
        assert(self@.windows[i as int].workspaces =~= spec.windows[i as int].workspaces);
        assert(self@.windows =~= spec.windows);
        assert(removed_pane@ == old(self)@.workspace(i as int, k as int).panes[p as int]);
        self.clear_unread_target_if_removed(&removed);
        Ok(removed)
    }

    pub fn split_selected_pane(&mut self, axis: SplitAxis) -> (r: Result<PaneId, ModelError>)
        requires
            old(self)@.split_allocates() ==> old(self).ids@ + 2 <= u64::MAX,
        ensures
            (final(self)@, r) == old(self)@.split_selected_pane(axis),
    {
        let (i, k) = self.selected_workspace_index()?;
        assert(self@.workspace(i as int, k as int) == self.windows@[i as int].workspaces@[k as int]@);
        match self.windows[i].workspaces[k].layout {
            SplitTree::Split { .. } => return Err(ModelError::LayoutAlreadySplit),
            SplitTree::Leaf(_) => {},
        }
        let selected = self.windows[i].workspaces[k].selected_pane;
        let p = match find_pane(&self.windows[i].workspaces[k].panes, selected) {
            Some(p) => p,
            None => return Err(ModelError::UnknownPane(selected)),
        };
        assert(old(self)@.split_allocates());
        let cwd = self.windows[i].workspaces[k].panes[p].cwd.clone();
        let new_pane_id = self.ids.next_pane();
        let surface_id = self.ids.next_surface();
        let mut surfaces: Vec<Surface> = Vec::new();
        surfaces.push(terminal_surface(surface_id));
        let pane = Pane { id: new_pane_id, cwd, surfaces, selected_surface: surface_id };
        self.windows[i].workspaces[k].panes.push(pane);
        self.windows[i].workspaces[k].layout = SplitTree::Split { axis, first: selected, second: new_pane_id };
        self.windows[i].workspaces[k].selected_pane = new_pane_id;
        let ghost spec = old(self)@.split_selected_pane(axis).0;
        assert(pane@.surfaces =~= seq![terminal_surface_view(surface_id)]);
        assert(self@.windows[i as int].workspaces[k as int].panes =~= spec.windows[i as int].workspaces[k as int].panes);
        assert(self@.windows[i as int].workspaces =~= spec.windows[i as int].workspaces);
        assert(self@.windows =~= spec.windows);
        Ok(new_pane_id)
    }

    fn open_surface(&mut self, surface: Surface) -> (r: Result<SurfaceId, ModelError>)
        ensures
            (final(self)@, r) == old(self)@.open_surface(old(self).ids@, surface@),
    {
        let id = surface.id;
        let (i, k, p) = self.selected_pane_index()?;
        self.windows[i].workspaces[k].panes[p].surfaces.push(surface);
        self.windows[i].workspaces[k].panes[p].selected_surface = id;
        let ghost spec = old(self)@.open_surface(old(self).ids@, surface@).0;
        assert(self@.windows[i as int].workspaces[k as int].panes[p as int].surfaces =~= spec.windows[i as int].workspaces[k as int].panes[p as int].surfaces);
        assert(self@.windows[i as int].workspaces[k as int].panes =~= spec.windows[i as int].workspaces[k as int].panes);
        assert(self@.windows[i as int].workspaces =~= spec.windows[i as int].workspaces);
        assert(self@.windows =~= spec.windows);
        Ok(id)
    }

    pub fn open_browser_surface(&mut self, url: String) -> (r: Result<SurfaceId, ModelError>)
        requires
            old(self).ids@ < u64::MAX,
        ensures
            (final(self)@, r) == old(self)@.open_browser_surface(url@),
    {
        let surface_id = self.ids.next_surface();
        let surface = Surface {
            id: surface_id,
            kind: SurfaceKind::Browser,
            title: url,
            unread: false,
            unread_message: None,
            unread_sequence: None,
        };
        self.open_surface(surface)
    }

    pub fn open_terminal_surface(&mut self) -> (r: Result<SurfaceId, ModelError>)
        requires
            old(self).ids@ < u64::MAX,
        ensures
            (final(self)@, r) == old(self)@.open_terminal_surface(),
    {
        let surface_id = self.ids.next_surface();
        self.open_surface(terminal_surface(surface_id))
    }

    pub fn select_surface(&mut self, surface_id: SurfaceId) -> (r: Result<(), ModelError>)
        ensures
            (final(self)@, r) == old(self)@.select_surface(surface_id),
    {
        let (i, k, p) = self.selected_pane_index()?;
        assert(self@.pane(i as int, k as int, p as int) == self.windows@[i as int].workspaces@[k as int].panes@[p as int]@);
        if find_surface(&self.windows[i].workspaces[k].panes[p].surfaces, surface_id).is_none() {
            return Err(ModelError::UnknownSurface(surface_id));
        }
        self.windows[i].workspaces[k].panes[p].selected_surface = surface_id;
        let ghost spec = old(self)@.select_surface(surface_id).0;
        assert(self@.windows[i as int].workspaces[k as int].panes =~= spec.windows[i as int].workspaces[k as int].panes);
        assert(self@.windows[i as int].workspaces =~= spec.windows[i as int].workspaces);
        assert(self@.windows =~= spec.windows);
        Ok(())
    }

    pub fn close_surface(&mut self, surface_id: SurfaceId) -> (r: Result<Vec<SurfaceId>, ModelError>)
        requires
            old(self)@.close_surface_replaces(surface_id) ==> old(self).ids@ < u64::MAX,
        ensures
            (final(self)@, ids_result_view(r)) == old(self)@.close_surface(surface_id),
    {
        let (i, k, p) = self.selected_pane_index()?;
        assert(self@.pane(i as int, k as int, p as int) == self.windows@[i as int].workspaces@[k as int].panes@[p as int]@);
        let s = match find_surface(&self.windows[i].workspaces[k].panes[p].surfaces, surface_id) {
            Some(s) => s,
            None => return Err(ModelError::UnknownSurface(surface_id)),
        };
        let ghost pane0 = old(self)@.pane(i as int, k as int, p as int);
        let ghost rest = pane0.surfaces.remove(s as int);
        self.windows[i].workspaces[k].panes[p].surfaces.remove(s);
        let mut removed: Vec<SurfaceId> = Vec::new();
        removed.push(surface_id);
        assert(self.windows@[i as int].workspaces@[k as int].panes@[p as int]@.surfaces =~= rest);
        if self.windows[i].workspaces[k].panes[p].surfaces.len() == 0 {
            let replacement = self.ids.next_surface();
            self.windows[i].workspaces[k].panes[p].surfaces.push(terminal_surface(replacement));
            self.windows[i].workspaces[k].panes[p].selected_surface = replacement;
            let ghost m = old(self)@.with_ids(replacement.0).set_pane(
                i as int,
                k as int,
                p as int,
                PaneView { surfaces: seq![terminal_surface_view(replacement)], selected_surface: replacement, ..pane0 },
            );
            assert(self@.windows[i as int].workspaces[k as int].panes[p as int].surfaces =~= m.windows[i as int].workspaces[k as int].panes[p as int].surfaces);
            assert(self@.windows[i as int].workspaces[k as int].panes =~= m.windows[i as int].workspaces[k as int].panes);
            assert(self@.windows[i as int].workspaces =~= m.windows[i as int].workspaces);
            assert(self@.windows =~= m.windows);
        } else {
            let next = if s == 0 { 0 } else { s - 1 };
            let next_id = self.windows[i].workspaces[k].panes[p].surfaces[next].id;
            self.windows[i].workspaces[k].panes[p].selected_surface = next_id;
            let ghost m = old(self)@.set_pane(
                i as int,
                k as int,
                p as int,
                PaneView { surfaces: rest, selected_surface: rest[next as int].id, ..pane0 },
            );
            assert(self@.windows[i as int].workspaces[k as int].panes =~= m.windows[i as int].workspaces[k as int].panes);
            assert(self@.windows[i as int].workspaces =~= m.windows[i as int].workspaces);
            assert(self@.windows =~= m.windows);
        }
        assert(removed@ =~= seq![surface_id]);
        self.clear_unread_target_if_removed(&removed);
        let ghost m2 = self@;
        recompute_workspace_unread(&mut self.windows[i].workspaces[k]);
        assert(self@.windows[i as int].workspaces =~= m2.set_workspace(i as int, k as int, recompute_workspace(m2.workspace(i as int, k as int))).windows[i as int].workspaces);
        assert(self@.windows =~= m2.set_workspace(i as int, k as int, recompute_workspace(m2.workspace(i as int, k as int))).windows);
        Ok(removed)
    }

    pub fn mark_surface_unread(&mut self, surface_id: SurfaceId, message: String) -> (r: Result<(), ModelError>)
        requires
            old(self)@.surface_loc(surface_id) is Some ==> old(self).next_unread_sequence < u64::MAX,
        ensures
            (final(self)@, r) == old(self)@.mark_surface_unread(surface_id, message@),
    {
        let (a, b, c, d) = match self.surface_location(surface_id) {
            Some(loc) => loc,
            None => return Err(ModelError::UnknownSurface(surface_id)),
        };
        let sequence = self.next_unread_sequence;
        self.next_unread_sequence = sequence + 1;
        let workspace_id = self.windows[a].workspaces[b].id;
        let pane_id = self.windows[a].workspaces[b].panes[c].id;
        self.windows[a].workspaces[b].panes[c].surfaces[d].unread = true;
        self.windows[a].workspaces[b].panes[c].surfaces[d].unread_message = Some(message.clone());
        self.windows[a].workspaces[b].panes[c].surfaces[d].unread_sequence = Some(sequence);
        self.windows[a].workspaces[b].unread = true;
        self.windows[a].workspaces[b].latest_notification = Some(message.clone());
        self.latest_unread_target = Some(
            UnreadTarget { workspace_id, pane_id, surface_id, message, sequence },
        );
        let ghost spec = old(self)@.mark_surface_unread(surface_id, message@).0;
        assert(old(self)@.workspace(a as int, b as int).id == workspace_id);
        assert(old(self)@.pane(a as int, b as int, c as int).id == pane_id);
        assert(self@.windows[a as int].workspaces[b as int].panes[c as int].surfaces =~= spec.windows[a as int].workspaces[b as int].panes[c as int].surfaces);
        assert(self@.windows[a as int].workspaces[b as int].panes =~= spec.windows[a as int].workspaces[b as int].panes);
        assert(self@.windows[a as int].workspaces =~= spec.windows[a as int].workspaces);
        assert(self@.windows =~= spec.windows);
        Ok(())
    }

    pub fn mark_surface_read(&mut self, surface_id: SurfaceId) -> (r: Result<(), ModelError>)
        ensures
            (final(self)@, r) == old(self)@.mark_surface_read(surface_id),
    {
        let (a, b, c, d) = match self.surface_location(surface_id) {
            Some(loc) => loc,
            None => return Err(ModelError::UnknownSurface(surface_id)),
        };
        self.windows[a].workspaces[b].panes[c].surfaces[d].unread = false;
        self.windows[a].workspaces[b].panes[c].surfaces[d].unread_message = None;
        self.windows[a].workspaces[b].panes[c].surfaces[d].unread_sequence = None;
        let ghost o = old(self)@;
        let ghost m = o.set_surface(
            a as int,
            b as int,
            c as int,
            d as int,
            SurfaceView { unread: false, unread_message: None, unread_sequence: None, ..o.surface(a as int, b as int, c as int, d as int) },
        );
        assert(self@.windows[a as int].workspaces[b as int].panes[c as int].surfaces =~= m.windows[a as int].workspaces[b as int].panes[c as int].surfaces);
        assert(self@.windows[a as int].workspaces[b as int].panes =~= m.windows[a as int].workspaces[b as int].panes);
        assert(self@.windows[a as int].workspaces =~= m.windows[a as int].workspaces);
        assert(self@.windows =~= m.windows);
        recompute_workspace_unread(&mut self.windows[a].workspaces[b]);
        let ghost m2 = m.set_workspace(a as int, b as int, recompute_workspace(m.workspace(a as int, b as int)));
        assert(self@.windows[a as int].workspaces =~= m2.windows[a as int].workspaces);
        assert(self@.windows =~= m2.windows);
        self.latest_unread_target = newest_target(&self.windows);
        Ok(())
    }

    /// Renames a surface, wherever it is.
    pub fn rename_surface(&mut self, surface_id: SurfaceId, title: String) -> (r: Result<(), ModelError>)
        ensures
            (final(self)@, r) == old(self)@.rename_surface(surface_id, title@),
    {
        let (a, b, c, d) = match self.surface_location(surface_id) {
            Some(loc) => loc,
            None => return Err(ModelError::UnknownSurface(surface_id)),
        };
        self.windows[a].workspaces[b].panes[c].surfaces[d].title = title;
        let ghost spec = old(self)@.rename_surface(surface_id, title@).0;
        assert(self@.windows[a as int].workspaces[b as int].panes[c as int].surfaces =~= spec.windows[a as int].workspaces[b as int].panes[c as int].surfaces);
        assert(self@.windows[a as int].workspaces[b as int].panes =~= spec.windows[a as int].workspaces[b as int].panes);
        assert(self@.windows[a as int].workspaces =~= spec.windows[a as int].workspaces);
        assert(self@.windows =~= spec.windows);
        Ok(())
    }
}


impl Pane {
    pub fn surface_mut(&mut self, id: SurfaceId) -> (r: Option<&mut Surface>)
        ensures
            match r {
                Some(s) => sv_ix(old(self)@.surfaces, id) >= 0
                    && *s == old(self).surfaces@[sv_ix(old(self)@.surfaces, id)]
                    && final(self).surfaces@ == old(self).surfaces@.update(sv_ix(old(self)@.surfaces, id), *final(s))
                    && final(self).id == old(self).id && final(self).cwd == old(self).cwd
                    && final(self).selected_surface == old(self).selected_surface,
                None => sv_ix(old(self)@.surfaces, id) == -1 && *final(self) == *old(self),
            },
    {
        match find_surface(&self.surfaces, id) {
            Some(i) => Some(&mut self.surfaces[i]),
            None => None,
        }
    }
}



/// `new` is `old` with the pane at `p` replaced by `pane`.
pub open spec fn pane_list_replaced(old: Workspace, new: Workspace, p: int, pane: Pane) -> bool {
    &&& new.panes@ == old.panes@.update(p, pane)
    &&& new.id == old.id && new.title == old.title && new.cwd == old.cwd
    &&& new.selected_pane == old.selected_pane && new.layout == old.layout
    &&& new.unread == old.unread && new.latest_notification == old.latest_notification
}

pub open spec fn workspace_list_replaced(old: AppWindow, new: AppWindow, k: int, ws: Workspace) -> bool {
    &&& new.workspaces@ == old.workspaces@.update(k, ws)
    &&& new.id == old.id && new.selected_workspace == old.selected_workspace
}

/// `new` is `old` with the window at `i` replaced by `w`.
pub open spec fn window_list_replaced(old: AppModel, new: AppModel, i: int, w: AppWindow) -> bool {
    &&& new.windows@ == old.windows@.update(i, w)
    &&& new.ids == old.ids && new.selected_window == old.selected_window
    &&& new.latest_unread_target == old.latest_unread_target
    &&& new.next_unread_sequence == old.next_unread_sequence
}

impl Workspace {
    pub fn pane_mut(&mut self, id: PaneId) -> (r: Option<&mut Pane>)
        ensures
            match r {
                Some(p) => pv_ix(old(self)@.panes, id) >= 0
                    && *p == old(self).panes@[pv_ix(old(self)@.panes, id)]
                    && pane_list_replaced(*old(self), *final(self), pv_ix(old(self)@.panes, id), *final(p)),
                None => pv_ix(old(self)@.panes, id) == -1 && *final(self) == *old(self),
            },
    {
        match find_pane(&self.panes, id) {
            Some(i) => Some(&mut self.panes[i]),
            None => None,
        }
    }

    pub fn selected_pane_mut(&mut self) -> (r: Option<&mut Pane>)
        ensures
            match r {
                Some(p) => pv_ix(old(self)@.panes, old(self).selected_pane) >= 0
                    && *p == old(self).panes@[pv_ix(old(self)@.panes, old(self).selected_pane)]
                    && pane_list_replaced(*old(self), *final(self), pv_ix(old(self)@.panes, old(self).selected_pane), *final(p)),
                None => pv_ix(old(self)@.panes, old(self).selected_pane) == -1 && *final(self) == *old(self),
            },
    {
        let id = self.selected_pane;
        self.pane_mut(id)
    }
}

impl AppWindow {
    pub fn workspace_mut(&mut self, id: WorkspaceId) -> (r: Option<&mut Workspace>)
        ensures
            match r {
                Some(w) => wsv_ix(old(self)@.workspaces, id) >= 0
                    && *w == old(self).workspaces@[wsv_ix(old(self)@.workspaces, id)]
                    && workspace_list_replaced(*old(self), *final(self), wsv_ix(old(self)@.workspaces, id), *final(w)),
                None => wsv_ix(old(self)@.workspaces, id) == -1 && *final(self) == *old(self),
            },
    {
        match find_workspace(&self.workspaces, id) {
            Some(i) => Some(&mut self.workspaces[i]),
            None => None,
        }
    }

    pub fn selected_workspace_mut(&mut self) -> (r: Option<&mut Workspace>)
        ensures
            match r {
                Some(w) => wsv_ix(old(self)@.workspaces, old(self).selected_workspace) >= 0
                    && *w == old(self).workspaces@[wsv_ix(old(self)@.workspaces, old(self).selected_workspace)]
                    && workspace_list_replaced(
                        *old(self),
                        *final(self),
                        wsv_ix(old(self)@.workspaces, old(self).selected_workspace),
                        *final(w),
                    ),
                None => wsv_ix(old(self)@.workspaces, old(self).selected_workspace) == -1 && *final(self) == *old(self),
            },
    {
        let id = self.selected_workspace;
        self.workspace_mut(id)
    }
}

impl AppModel {
    pub fn selected_window_mut(&mut self) -> (r: Result<&mut AppWindow, ModelError>)
        ensures
            match old(self)@.selected_window_loc() {
                Ok(i) => r matches Ok(w) && *w == old(self).windows@[i]
                    && window_list_replaced(*old(self), *final(self), i, *final(w)),
                Err(e) => r matches Err(e2) && e2 == e && *final(self) == *old(self),
            },
    {
        let i = self.selected_window_index()?;
        Ok(&mut self.windows[i])
    }

    pub fn selected_workspace_mut(&mut self) -> (r: Result<&mut Workspace, ModelError>)
        ensures
            match old(self)@.selected_workspace_loc() {
                Ok((i, k)) => r matches Ok(w) && *w == old(self).windows@[i].workspaces@[k]
                    && window_list_replaced(*old(self), *final(self), i, final(self).windows@[i])
                    && workspace_list_replaced(old(self).windows@[i], final(self).windows@[i], k, *final(w)),
                Err(e) => r matches Err(e2) && e2 == e && *final(self) == *old(self),
            },
    {
        let (i, k) = self.selected_workspace_index()?;
        Ok(&mut self.windows[i].workspaces[k])
    }

    pub fn selected_pane_mut(&mut self) -> (r: Result<&mut Pane, ModelError>)
        ensures
            match old(self)@.selected_pane_loc() {
                Ok((i, k, p)) => r matches Ok(pane) && *pane == old(self).windows@[i].workspaces@[k].panes@[p]
                    && window_list_replaced(*old(self), *final(self), i, final(self).windows@[i])
                    && workspace_list_replaced(old(self).windows@[i], final(self).windows@[i], k, final(self).windows@[i].workspaces@[k])
                    && pane_list_replaced(old(self).windows@[i].workspaces@[k], final(self).windows@[i].workspaces@[k], p, *final(pane)),
                Err(e) => r matches Err(e2) && e2 == e && *final(self) == *old(self),
            },
    {
        let (i, k, p) = self.selected_pane_index()?;
        Ok(&mut self.windows[i].workspaces[k].panes[p])
    }
}

} // verus!
