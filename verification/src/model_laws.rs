use vstd::prelude::*;

use crate::ids::{PaneId, SurfaceId, WorkspaceId};
use crate::model::{ModelError, SplitAxis, SplitTree};
use crate::model_view::{
    new_model_view, pv_ix, sv_ix, wsv_ix, wv_ix, ModelView, PaneView, WindowView, WorkspaceView,
};
use crate::search::lemma_first_where_spec;

verus! {

/// A pane holds at least one surface, its selected surface is one of them, and every id in it
/// has already been handed out (is at most `bound`).
pub open spec fn pane_wf(p: PaneView, bound: u64) -> bool {
    &&& p.surfaces.len() > 0
    &&& sv_ix(p.surfaces, p.selected_surface) >= 0
    &&& p.id.0 <= bound
    &&& forall|s: int| 0 <= s < p.surfaces.len() ==> (#[trigger] p.surfaces[s]).id.0 <= bound
}

/// A layout names panes of the workspace, and a split names two different ones.
pub open spec fn layout_wf(layout: SplitTree, panes: Seq<PaneView>) -> bool {
    match layout {
        SplitTree::Leaf(a) => pv_ix(panes, a) >= 0,
        SplitTree::Split { first, second, .. } => pv_ix(panes, first) >= 0 && pv_ix(panes, second) >= 0
            && first != second,
    }
}

pub open spec fn workspace_wf(ws: WorkspaceView, bound: u64) -> bool {
    &&& ws.panes.len() > 0
    &&& pv_ix(ws.panes, ws.selected_pane) >= 0
    &&& layout_wf(ws.layout, ws.panes)
    &&& ws.id.0 <= bound
    &&& forall|p: int| 0 <= p < ws.panes.len() ==> pane_wf(#[trigger] ws.panes[p], bound)
}

pub open spec fn window_wf(w: WindowView, bound: u64) -> bool {
    &&& w.workspaces.len() > 0
    &&& wsv_ix(w.workspaces, w.selected_workspace) >= 0
    &&& w.id.0 <= bound
    &&& forall|k: int| 0 <= k < w.workspaces.len() ==> workspace_wf(#[trigger] w.workspaces[k], bound)
}

impl ModelView {
    /// The shape every reachable model has: a selected window, and in every window a selected
    /// workspace, in every workspace a selected pane and a layout over its panes, in every pane a
    /// selected surface; nothing is empty, and no id is newer than the id counter.
    pub open spec fn wf(self) -> bool {
        &&& self.windows.len() > 0
        &&& wv_ix(self.windows, self.selected_window) >= 0
        &&& forall|i: int| 0 <= i < self.windows.len() ==> window_wf(#[trigger] self.windows[i], self.next_id)
    }
}

pub(crate) proof fn lemma_pane_wf_mono(p: PaneView, b1: u64, b2: u64)
    requires
        pane_wf(p, b1),
        b1 <= b2,
    ensures
        pane_wf(p, b2),
{
}

pub(crate) proof fn lemma_workspace_wf_mono(ws: WorkspaceView, b1: u64, b2: u64)
    requires
        workspace_wf(ws, b1),
        b1 <= b2,
    ensures
        workspace_wf(ws, b2),
{
    assert forall|p: int| 0 <= p < ws.panes.len() implies pane_wf(#[trigger] ws.panes[p], b2) by {
        lemma_pane_wf_mono(ws.panes[p], b1, b2);
    }
}

pub(crate) proof fn lemma_window_wf_mono(w: WindowView, b1: u64, b2: u64)
    requires
        window_wf(w, b1),
        b1 <= b2,
    ensures
        window_wf(w, b2),
{
    assert forall|k: int| 0 <= k < w.workspaces.len() implies workspace_wf(#[trigger] w.workspaces[k], b2) by {
        lemma_workspace_wf_mono(w.workspaces[k], b1, b2);
    }
}

proof fn lemma_wf_with_ids(m: ModelView, n: u64)
    requires
        m.wf(),
        m.next_id <= n,
    ensures
        m.with_ids(n).wf(),
{
    assert forall|i: int| 0 <= i < m.windows.len() implies window_wf(#[trigger] m.windows[i], n) by {
        lemma_window_wf_mono(m.windows[i], m.next_id, n);
    }
}


pub(crate) proof fn lemma_exists_at<T>(s: Seq<T>, p: spec_fn(T) -> bool, j: int)
    requires
        0 <= j < s.len(),
        p(s[j]),
    ensures
        crate::search::first_where(s, p) >= 0,
{
    lemma_first_where_spec(s, p);
}

pub(crate) proof fn lemma_witness<T>(s: Seq<T>, p: spec_fn(T) -> bool) -> (j: int)
    requires
        crate::search::first_where(s, p) >= 0,
    ensures
        0 <= j < s.len(),
        p(s[j]),
{
    lemma_first_where_spec(s, p);
    crate::search::first_where(s, p)
}

proof fn lemma_set_window_wf(m: ModelView, i: int, w: WindowView)
    requires
        m.wf(),
        0 <= i < m.windows.len(),
        window_wf(w, m.next_id),
        w.id == m.windows[i].id,
    ensures
        m.set_window(i, w).wf(),
{
    let m2 = m.set_window(i, w);
    let j = lemma_witness(m.windows, crate::model_view::wv_is(m.selected_window));
    lemma_exists_at(m2.windows, crate::model_view::wv_is(m.selected_window), j);
}

proof fn lemma_set_workspace_wf(m: ModelView, i: int, k: int, ws: WorkspaceView)
    requires
        m.wf(),
        0 <= i < m.windows.len(),
        0 <= k < m.windows[i].workspaces.len(),
        workspace_wf(ws, m.next_id),
        ws.id == m.windows[i].workspaces[k].id,
    ensures
        m.set_workspace(i, k, ws).wf(),
{
    let w = m.windows[i];
    let w2 = WindowView { workspaces: w.workspaces.update(k, ws), ..w };
    assert(window_wf(w, m.next_id));
    let j = lemma_witness(w.workspaces, crate::model_view::wsv_is(w.selected_workspace));
    lemma_exists_at(w2.workspaces, crate::model_view::wsv_is(w.selected_workspace), j);
    lemma_set_window_wf(m, i, w2);
}

proof fn lemma_set_pane_wf(m: ModelView, i: int, k: int, p: int, pane: PaneView)
    requires
        m.wf(),
        0 <= i < m.windows.len(),
        0 <= k < m.windows[i].workspaces.len(),
        0 <= p < m.windows[i].workspaces[k].panes.len(),
        pane_wf(pane, m.next_id),
        pane.id == m.pane(i, k, p).id,
    ensures
        m.set_pane(i, k, p, pane).wf(),
{
    let ws = m.workspace(i, k);
    assert(window_wf(m.windows[i], m.next_id));
    assert(workspace_wf(ws, m.next_id));
    let ws2 = WorkspaceView { panes: ws.panes.update(p, pane), ..ws };
    let j = lemma_witness(ws.panes, crate::model_view::pv_is(ws.selected_pane));
    lemma_exists_at(ws2.panes, crate::model_view::pv_is(ws.selected_pane), j);
    match ws.layout {
        SplitTree::Leaf(a) => {
            let j = lemma_witness(ws.panes, crate::model_view::pv_is(a));
            lemma_exists_at(ws2.panes, crate::model_view::pv_is(a), j);
        },
        SplitTree::Split { first, second, .. } => {
            let j = lemma_witness(ws.panes, crate::model_view::pv_is(first));
            lemma_exists_at(ws2.panes, crate::model_view::pv_is(first), j);
            let j2 = lemma_witness(ws.panes, crate::model_view::pv_is(second));
            lemma_exists_at(ws2.panes, crate::model_view::pv_is(second), j2);
        },
    }
    lemma_set_workspace_wf(m, i, k, ws2);
}

proof fn lemma_set_surface_wf(m: ModelView, i: int, k: int, p: int, s: int, sv: crate::model_view::SurfaceView)
    requires
        m.wf(),
        0 <= i < m.windows.len(),
        0 <= k < m.windows[i].workspaces.len(),
        0 <= p < m.windows[i].workspaces[k].panes.len(),
        0 <= s < m.pane(i, k, p).surfaces.len(),
        sv.id == m.surface(i, k, p, s).id,
    ensures
        m.set_surface(i, k, p, s, sv).wf(),
{
    let pane = m.pane(i, k, p);
    assert(window_wf(m.windows[i], m.next_id));
    assert(workspace_wf(m.workspace(i, k), m.next_id));
    assert(pane_wf(pane, m.next_id));
    let pane2 = PaneView { surfaces: pane.surfaces.update(s, sv), ..pane };
    let j = lemma_witness(pane.surfaces, crate::model_view::sv_is(pane.selected_surface));
    lemma_exists_at(pane2.surfaces, crate::model_view::sv_is(pane.selected_surface), j);
    assert(pane_wf(pane2, m.next_id));
    lemma_set_pane_wf(m, i, k, p, pane2);
}


pub(crate) proof fn lemma_selected_window_loc(m: ModelView)
    ensures
        m.selected_window_loc() matches Ok(wi) ==> 0 <= wi < m.windows.len(),
{
    lemma_first_where_spec(m.windows, crate::model_view::wv_is(m.selected_window));
}

pub(crate) proof fn lemma_selected_workspace_loc(m: ModelView)
    ensures
        m.selected_workspace_loc() matches Ok((wi, k)) ==> 0 <= wi < m.windows.len() && 0 <= k
            < m.windows[wi].workspaces.len(),
{
    lemma_selected_window_loc(m);
    if let Ok(wi) = m.selected_window_loc() {
        lemma_first_where_spec(
            m.windows[wi].workspaces,
            crate::model_view::wsv_is(m.windows[wi].selected_workspace),
        );
    }
}

pub(crate) proof fn lemma_selected_pane_loc(m: ModelView)
    ensures
        m.selected_pane_loc() matches Ok((wi, k, p)) ==> 0 <= wi < m.windows.len() && 0 <= k
            < m.windows[wi].workspaces.len() && 0 <= p < m.workspace(wi, k).panes.len(),
{
    lemma_selected_workspace_loc(m);
    if let Ok((wi, k)) = m.selected_workspace_loc() {
        lemma_first_where_spec(m.workspace(wi, k).panes, crate::model_view::pv_is(m.workspace(wi, k).selected_pane));
    }
}

pub(crate) proof fn lemma_surface_loc(m: ModelView, id: SurfaceId)
    ensures
        m.surface_loc(id) matches Some((wi, k, p, s)) ==> 0 <= wi < m.windows.len() && 0 <= k
            < m.windows[wi].workspaces.len() && 0 <= p < m.workspace(wi, k).panes.len() && 0 <= s
            < m.pane(wi, k, p).surfaces.len() && m.surface(wi, k, p, s).id == id,
{
    let wi = crate::search::first_where(m.windows, crate::model_view::window_holds(id));
    lemma_first_where_spec(m.windows, crate::model_view::window_holds(id));
    if wi >= 0 {
        let k = crate::search::first_where(m.windows[wi].workspaces, crate::model_view::workspace_holds(id));
        lemma_first_where_spec(m.windows[wi].workspaces, crate::model_view::workspace_holds(id));
        let p = crate::search::first_where(m.workspace(wi, k).panes, crate::model_view::pane_holds(id));
        lemma_first_where_spec(m.workspace(wi, k).panes, crate::model_view::pane_holds(id));
        lemma_first_where_spec(m.pane(wi, k, p).surfaces, crate::model_view::sv_is(id));
    }
}

proof fn lemma_clear_target_wf(m: ModelView, removed: Seq<SurfaceId>)
    requires
        m.wf(),
    ensures
        m.clear_target_if_removed(removed).wf(),
        m.clear_target_if_removed(removed).windows == m.windows,
        m.clear_target_if_removed(removed).next_id == m.next_id,
{
}

/// Selecting a workspace keeps the model well formed.
pub proof fn law_select_workspace_wf(m: ModelView, id: WorkspaceId)
    requires
        m.wf(),
    ensures
        m.select_workspace(id).0.wf(),
{
    lemma_selected_window_loc(m);
    if let Ok(wi) = m.selected_window_loc() {
        if wsv_ix(m.windows[wi].workspaces, id) >= 0 {
            assert(window_wf(m.windows[wi], m.next_id));
            lemma_set_window_wf(m, wi, WindowView { selected_workspace: id, ..m.windows[wi] });
        }
    }
}

/// Renaming a workspace keeps the model well formed.
pub proof fn law_rename_workspace_wf(m: ModelView, id: WorkspaceId, title: Seq<char>)
    requires
        m.wf(),
    ensures
        m.rename_workspace(id, title).0.wf(),
{
    lemma_selected_window_loc(m);
    if let Ok(wi) = m.selected_window_loc() {
        let k = wsv_ix(m.windows[wi].workspaces, id);
        lemma_first_where_spec(m.windows[wi].workspaces, crate::model_view::wsv_is(id));
        if k >= 0 {
            assert(window_wf(m.windows[wi], m.next_id));
            assert(workspace_wf(m.workspace(wi, k), m.next_id));
            lemma_set_workspace_wf(m, wi, k, WorkspaceView { title, ..m.workspace(wi, k) });
        }
    }
}

/// Creating a workspace keeps the model well formed.
pub proof fn law_create_workspace_wf(m: ModelView, cwd: Seq<char>, title: Option<Seq<char>>)
    requires
        m.wf(),
        m.next_id + 3 <= u64::MAX,
    ensures
        m.create_workspace(cwd, title).0.wf(),
{
    let n = m.next_id;
    let m1 = m.with_ids((n + 3) as u64);
    lemma_wf_with_ids(m, (n + 3) as u64);
    lemma_selected_window_loc(m1);
    if let Ok(wi) = m1.selected_window_loc() {
        let t = match title {
            Some(t) => t,
            None => crate::model_view::workspace_title_view(cwd),
        };
        let ws = crate::model_view::new_workspace_view(n, cwd, t);
        reveal_with_fuel(crate::search::first_where, 2);
        assert(pane_wf(ws.panes[0], m1.next_id));
        assert(workspace_wf(ws, m1.next_id));
        let w = m1.windows[wi];
        let w2 = WindowView { workspaces: w.workspaces.push(ws), selected_workspace: ws.id, ..w };
        assert(window_wf(w, m1.next_id));
        lemma_exists_at(w2.workspaces, crate::model_view::wsv_is(ws.id), w.workspaces.len() as int);
        assert forall|k: int| 0 <= k < w2.workspaces.len() implies workspace_wf(#[trigger] w2.workspaces[k], m1.next_id) by {
            if k < w.workspaces.len() {
                assert(w2.workspaces[k] == w.workspaces[k]);
            }
        }
        lemma_set_window_wf(m1, wi, w2);
    }
}

/// Closing a workspace keeps the model well formed.
pub proof fn law_close_workspace_wf(m: ModelView, id: WorkspaceId)
    requires
        m.wf(),
    ensures
        m.close_workspace(id).0.wf(),
{
    lemma_selected_window_loc(m);
    if let Ok(wi) = m.selected_window_loc() {
        let w = m.windows[wi];
        let k = wsv_ix(w.workspaces, id);
        lemma_first_where_spec(w.workspaces, crate::model_view::wsv_is(id));
        if w.workspaces.len() != 1 && k >= 0 {
            assert(window_wf(w, m.next_id));
            let rest = w.workspaces.remove(k);
            let sel = if w.selected_workspace == id {
                rest[if k == 0 {
                    0
                } else {
                    k - 1
                }].id
            } else {
                w.selected_workspace
            };
            if w.selected_workspace == id {
                let ni = if k == 0 {
                    0
                } else {
                    k - 1
                };
                lemma_exists_at(rest, crate::model_view::wsv_is(sel), ni);
            } else {
                let j = lemma_witness(w.workspaces, crate::model_view::wsv_is(w.selected_workspace));
                assert(j != k);
                if j < k {
                    assert(rest[j] == w.workspaces[j]);
                    lemma_exists_at(rest, crate::model_view::wsv_is(sel), j);
                } else {
                    assert(rest[j - 1] == w.workspaces[j]);
                    lemma_exists_at(rest, crate::model_view::wsv_is(sel), j - 1);
                }
            }
            let w2 = WindowView { workspaces: rest, selected_workspace: sel, ..w };
            assert forall|q: int| 0 <= q < rest.len() implies workspace_wf(#[trigger] rest[q], m.next_id) by {
                if q < k {
                    assert(rest[q] == w.workspaces[q]);
                } else {
                    assert(rest[q] == w.workspaces[q + 1]);
                }
            }
            lemma_set_window_wf(m, wi, w2);
            let removed = crate::model_view::panes_surface_ids(w.workspaces[k].panes);
            lemma_clear_target_wf(m.set_window(wi, w2), removed);
        }
    }
}


/// Selecting a pane keeps the model well formed.
pub proof fn law_select_pane_wf(m: ModelView, id: PaneId)
    requires
        m.wf(),
    ensures
        m.select_pane(id).0.wf(),
{
    lemma_selected_workspace_loc(m);
    if let Ok((wi, k)) = m.selected_workspace_loc() {
        if pv_ix(m.workspace(wi, k).panes, id) >= 0 {
            assert(window_wf(m.windows[wi], m.next_id));
            lemma_set_workspace_wf(m, wi, k, WorkspaceView { selected_pane: id, ..m.workspace(wi, k) });
        }
    }
}

/// Closing a pane keeps the model well formed.
pub proof fn law_close_pane_wf(m: ModelView, id: PaneId)
    requires
        m.wf(),
    ensures
        m.close_pane(id).0.wf(),
{
    lemma_selected_workspace_loc(m);
    if let Ok((wi, k)) = m.selected_workspace_loc() {
        let ws = m.workspace(wi, k);
        let p = pv_ix(ws.panes, id);
        lemma_first_where_spec(ws.panes, crate::model_view::pv_is(id));
        if ws.panes.len() != 1 && p >= 0 {
            assert(window_wf(m.windows[wi], m.next_id));
            assert(workspace_wf(ws, m.next_id));
            let rest = ws.panes.remove(p);
            let remaining = rest[0].id;
            lemma_exists_at(rest, crate::model_view::pv_is(remaining), 0);
            let ws1 = WorkspaceView { panes: rest, selected_pane: remaining, layout: SplitTree::Leaf(remaining), ..ws };
            assert forall|q: int| 0 <= q < rest.len() implies pane_wf(#[trigger] rest[q], m.next_id) by {
                if q < p {
                    assert(rest[q] == ws.panes[q]);
                } else {
                    assert(rest[q] == ws.panes[q + 1]);
                }
            }
            let ws2 = crate::model_view::recompute_workspace(ws1);
            assert(workspace_wf(ws2, m.next_id));
            lemma_set_workspace_wf(m, wi, k, ws2);
            let removed = ws.panes[p].surfaces.map_values(|s: crate::model_view::SurfaceView| s.id);
            lemma_clear_target_wf(m.set_workspace(wi, k, ws2), removed);
        }
    }
}

/// Splitting the selected pane keeps the model well formed.
pub proof fn law_split_selected_pane_wf(m: ModelView, axis: SplitAxis)
    requires
        m.wf(),
        m.split_allocates() ==> m.next_id + 2 <= u64::MAX,
    ensures
        m.split_selected_pane(axis).0.wf(),
{
    lemma_selected_workspace_loc(m);
    if let Ok((wi, k)) = m.selected_workspace_loc() {
        let ws = m.workspace(wi, k);
        let sp = ws.selected_pane;
        let p = pv_ix(ws.panes, sp);
        lemma_first_where_spec(ws.panes, crate::model_view::pv_is(sp));
        if !(ws.layout is Split) && p >= 0 {
            let n = m.next_id;
            let m1 = m.with_ids((n + 2) as u64);
            lemma_wf_with_ids(m, (n + 2) as u64);
            assert(window_wf(m1.windows[wi], m1.next_id));
            assert(workspace_wf(ws, m1.next_id));
            let new_id = PaneId((n + 1) as u64);
            let sid = SurfaceId((n + 2) as u64);
            let pane = PaneView {
                id: new_id,
                cwd: ws.panes[p].cwd,
                surfaces: seq![crate::model_view::terminal_surface_view(sid)],
                selected_surface: sid,
            };
            reveal_with_fuel(crate::search::first_where, 2);
            assert(pane_wf(pane, m1.next_id));
            let panes2 = ws.panes.push(pane);
            assert(pane_wf(ws.panes[p], n));
            assert(sp.0 <= n);
            lemma_exists_at(panes2, crate::model_view::pv_is(new_id), ws.panes.len() as int);
            lemma_exists_at(panes2, crate::model_view::pv_is(sp), p);
            let ws2 = WorkspaceView {
                panes: panes2,
                layout: SplitTree::Split { axis, first: sp, second: new_id },
                selected_pane: new_id,
                ..ws
            };
            assert forall|q: int| 0 <= q < panes2.len() implies pane_wf(#[trigger] panes2[q], m1.next_id) by {
                if q < ws.panes.len() {
                    assert(panes2[q] == ws.panes[q]);
                }
            }
            assert(workspace_wf(ws2, m1.next_id));
            lemma_set_workspace_wf(m1, wi, k, ws2);
        }
    }
}

proof fn lemma_open_surface_wf(m: ModelView, n: u64, sv: crate::model_view::SurfaceView)
    requires
        m.wf(),
        m.next_id <= n,
        sv.id.0 <= n,
    ensures
        m.open_surface(n, sv).0.wf(),
{
    let m1 = m.with_ids(n);
    lemma_wf_with_ids(m, n);
    lemma_selected_pane_loc(m1);
    if let Ok((wi, k, p)) = m1.selected_pane_loc() {
        assert(window_wf(m1.windows[wi], n));
        assert(workspace_wf(m1.workspace(wi, k), n));
        let pane = m1.pane(wi, k, p);
        assert(pane_wf(pane, n));
        let pane2 = PaneView { surfaces: pane.surfaces.push(sv), selected_surface: sv.id, ..pane };
        lemma_exists_at(pane2.surfaces, crate::model_view::sv_is(sv.id), pane.surfaces.len() as int);
        assert forall|q: int| 0 <= q < pane2.surfaces.len() implies (#[trigger] pane2.surfaces[q]).id.0 <= n by {
            if q < pane.surfaces.len() {
                assert(pane2.surfaces[q] == pane.surfaces[q]);
            }
        }
        lemma_set_pane_wf(m1, wi, k, p, pane2);
    }
}

/// Opening a browser tab keeps the model well formed.
pub proof fn law_open_browser_surface_wf(m: ModelView, url: Seq<char>)
    requires
        m.wf(),
        m.next_id < u64::MAX,
    ensures
        m.open_browser_surface(url).0.wf(),
{
    let n = (m.next_id + 1) as u64;
    lemma_open_surface_wf(
        m,
        n,
        crate::model_view::SurfaceView {
            id: SurfaceId(n),
            kind: crate::model::SurfaceKind::Browser,
            title: url,
            unread: false,
            unread_message: None,
            unread_sequence: None,
        },
    );
}

/// Opening a terminal tab keeps the model well formed.
pub proof fn law_open_terminal_surface_wf(m: ModelView)
    requires
        m.wf(),
        m.next_id < u64::MAX,
    ensures
        m.open_terminal_surface().0.wf(),
{
    let n = (m.next_id + 1) as u64;
    lemma_open_surface_wf(m, n, crate::model_view::terminal_surface_view(SurfaceId(n)));
}

/// Selecting a surface keeps the model well formed.
pub proof fn law_select_surface_wf(m: ModelView, id: SurfaceId)
    requires
        m.wf(),
    ensures
        m.select_surface(id).0.wf(),
{
    lemma_selected_pane_loc(m);
    if let Ok((wi, k, p)) = m.selected_pane_loc() {
        if sv_ix(m.pane(wi, k, p).surfaces, id) >= 0 {
            assert(window_wf(m.windows[wi], m.next_id));
            assert(workspace_wf(m.workspace(wi, k), m.next_id));
            assert(pane_wf(m.pane(wi, k, p), m.next_id));
            lemma_set_pane_wf(m, wi, k, p, PaneView { selected_surface: id, ..m.pane(wi, k, p) });
        }
    }
}

/// Closing a surface keeps the model well formed; in particular a pane never ends up empty.
pub proof fn law_close_surface_wf(m: ModelView, id: SurfaceId)
    requires
        m.wf(),
        m.close_surface_replaces(id) ==> m.next_id < u64::MAX,
    ensures
        m.close_surface(id).0.wf(),
{
    lemma_selected_pane_loc(m);
    if let Ok((wi, k, p)) = m.selected_pane_loc() {
        let pane = m.pane(wi, k, p);
        let s = sv_ix(pane.surfaces, id);
        lemma_first_where_spec(pane.surfaces, crate::model_view::sv_is(id));
        if s >= 0 {
            assert(window_wf(m.windows[wi], m.next_id));
            assert(workspace_wf(m.workspace(wi, k), m.next_id));
            assert(pane_wf(pane, m.next_id));
            let rest = pane.surfaces.remove(s);
            let m1 = if rest.len() == 0 {
                let n = (m.next_id + 1) as u64;
                let r = SurfaceId(n);
                let mi = m.with_ids(n);
                lemma_wf_with_ids(m, n);
                let pane2 = PaneView { surfaces: seq![crate::model_view::terminal_surface_view(r)], selected_surface: r, ..pane };
                reveal_with_fuel(crate::search::first_where, 2);
                assert(pane_wf(pane2, n));
                lemma_set_pane_wf(mi, wi, k, p, pane2);
                mi.set_pane(wi, k, p, pane2)
            } else {
                let ni = if s == 0 {
                    0
                } else {
                    s - 1
                };
                let pane2 = PaneView { surfaces: rest, selected_surface: rest[ni].id, ..pane };
                lemma_exists_at(rest, crate::model_view::sv_is(rest[ni].id), ni);
                assert forall|q: int| 0 <= q < rest.len() implies (#[trigger] rest[q]).id.0 <= m.next_id by {
                    if q < s {
                        assert(rest[q] == pane.surfaces[q]);
                    } else {
                        assert(rest[q] == pane.surfaces[q + 1]);
                    }
                }
                assert(pane_wf(pane2, m.next_id));
                lemma_set_pane_wf(m, wi, k, p, pane2);
                m.set_pane(wi, k, p, pane2)
            };
            let m2 = m1.clear_target_if_removed(seq![id]);
            lemma_clear_target_wf(m1, seq![id]);
            assert(window_wf(m2.windows[wi], m2.next_id));
            assert(workspace_wf(m2.workspace(wi, k), m2.next_id));
            lemma_set_workspace_wf(m2, wi, k, crate::model_view::recompute_workspace(m2.workspace(wi, k)));
        }
    }
}

/// Marking a surface unread keeps the model well formed.
pub proof fn law_mark_surface_unread_wf(m: ModelView, id: SurfaceId, message: Seq<char>)
    requires
        m.wf(),
    ensures
        m.mark_surface_unread(id, message).0.wf(),
{
    lemma_surface_loc(m, id);
    if let Some((wi, k, p, s)) = m.surface_loc(id) {
        let sv = crate::model_view::SurfaceView {
            unread: true,
            unread_message: Some(message),
            unread_sequence: Some(m.next_unread_sequence),
            ..m.surface(wi, k, p, s)
        };
        lemma_set_surface_wf(m, wi, k, p, s, sv);
        let m1 = m.set_surface(wi, k, p, s, sv);
        assert(window_wf(m1.windows[wi], m1.next_id));
        assert(workspace_wf(m1.workspace(wi, k), m1.next_id));
        lemma_set_workspace_wf(
            m1,
            wi,
            k,
            WorkspaceView { unread: true, latest_notification: Some(message), ..m1.workspace(wi, k) },
        );
    }
}

/// Marking a surface read keeps the model well formed.
pub proof fn law_mark_surface_read_wf(m: ModelView, id: SurfaceId)
    requires
        m.wf(),
    ensures
        m.mark_surface_read(id).0.wf(),
{
    lemma_surface_loc(m, id);
    if let Some((wi, k, p, s)) = m.surface_loc(id) {
        let sv = crate::model_view::SurfaceView {
            unread: false,
            unread_message: None,
            unread_sequence: None,
            ..m.surface(wi, k, p, s)
        };
        lemma_set_surface_wf(m, wi, k, p, s, sv);
        let m1 = m.set_surface(wi, k, p, s, sv);
        assert(window_wf(m1.windows[wi], m1.next_id));
        assert(workspace_wf(m1.workspace(wi, k), m1.next_id));
        lemma_set_workspace_wf(m1, wi, k, crate::model_view::recompute_workspace(m1.workspace(wi, k)));
    }
}

/// Renaming a surface keeps the model well formed.
pub proof fn law_rename_surface_wf(m: ModelView, id: SurfaceId, title: Seq<char>)
    requires
        m.wf(),
    ensures
        m.rename_surface(id, title).0.wf(),
{
    lemma_surface_loc(m, id);
    if let Some((wi, k, p, s)) = m.surface_loc(id) {
        lemma_set_surface_wf(m, wi, k, p, s, crate::model_view::SurfaceView { title, ..m.surface(wi, k, p, s) });
    }
}

/// A freshly started application is well formed.
pub proof fn law_new_model_wf(cwd: Seq<char>)
    ensures
        new_model_view(cwd).wf(),
{
    let m = new_model_view(cwd);
    reveal_with_fuel(crate::search::first_where, 2);
    assert(window_wf(m.windows[0], 4));
}

} // verus!
