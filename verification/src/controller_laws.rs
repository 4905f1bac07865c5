use vstd::prelude::*;

use crate::action::ActionView;
use crate::controller::{
    apply_spec, jump_to_target, panes_specs, remove_all, run_action, spawn_all, spawn_selected, spawn_surface, spec_for,
    surfaces_specs, terminal_specs, workspaces_specs, ControllerView,
};
use crate::registry::EntryView;
use crate::search::first_where;
use crate::ids::{PaneId, SurfaceId, WorkspaceId};
use crate::model_laws::{lemma_selected_pane_loc, lemma_selected_window_loc, lemma_selected_workspace_loc, lemma_surface_loc};
use crate::search::lemma_first_where_spec;
use crate::model::{ModelError, SplitAxis, SplitTree, SurfaceKind};
use crate::model_view::{panes_surface_ids, pv_is, pv_ix, sv_is, sv_ix, terminal_surface_view, wsv_is, wsv_ix, recompute_workspace, ModelView, PaneView, SurfaceView, WindowView, WorkspaceView};
use crate::registry::SpawnSpecView;

verus! {

/// Surface `id` is a terminal of the pane.
pub open spec fn pane_term(p: PaneView, id: SurfaceId) -> bool {
    exists|s: int| 0 <= s < p.surfaces.len() && (#[trigger] p.surfaces[s]).id == id && p.surfaces[s].kind == SurfaceKind::Terminal
}

pub open spec fn ws_term(ws: WorkspaceView, id: SurfaceId) -> bool {
    exists|p: int| 0 <= p < ws.panes.len() && pane_term(#[trigger] ws.panes[p], id)
}

pub open spec fn win_term(w: WindowView, id: SurfaceId) -> bool {
    exists|k: int| 0 <= k < w.workspaces.len() && ws_term(#[trigger] w.workspaces[k], id)
}

/// Surface `id` is a terminal surface somewhere in the windows.
pub open spec fn model_term(wins: Seq<WindowView>, id: SurfaceId) -> bool {
    exists|i: int| 0 <= i < wins.len() && win_term(#[trigger] wins[i], id)
}

pub open spec fn specs_have(s: Seq<SpawnSpecView>, id: SurfaceId) -> bool {
    exists|j: int| 0 <= j < s.len() && (#[trigger] s[j]).surface_id == id
}

proof fn lemma_specs_have_concat(a: Seq<SpawnSpecView>, b: Seq<SpawnSpecView>, id: SurfaceId)
    ensures
        specs_have(a + b, id) <==> specs_have(a, id) || specs_have(b, id),
{
    let c = a + b;
    if specs_have(c, id) {
        let j = choose|j: int| 0 <= j < c.len() && (#[trigger] c[j]).surface_id == id;
        if j < a.len() {
            assert(a[j] == c[j]);
        } else {
            assert(b[j - a.len()] == c[j]);
        }
    }
    if specs_have(a, id) {
        let j = choose|j: int| 0 <= j < a.len() && (#[trigger] a[j]).surface_id == id;
        assert(c[j] == a[j]);
    }
    if specs_have(b, id) {
        let j = choose|j: int| 0 <= j < b.len() && (#[trigger] b[j]).surface_id == id;
        assert(c[a.len() + j] == b[j]);
    }
}

proof fn lemma_surfaces_specs(w: WorkspaceId, pane: PaneView, ss: Seq<SurfaceView>, id: SurfaceId)
    ensures
        specs_have(surfaces_specs(w, pane, ss), id) <==> exists|s: int|
            0 <= s < ss.len() && (#[trigger] ss[s]).id == id && ss[s].kind == SurfaceKind::Terminal,
    decreases ss.len(),
{
    if ss.len() > 0 {
        let t = ss.drop_last();
        lemma_surfaces_specs(w, pane, t, id);
        let prev = surfaces_specs(w, pane, t);
        if ss.last().kind == SurfaceKind::Terminal {
            let sp = crate::controller::spec_of(w, pane, ss.last());
            assert(surfaces_specs(w, pane, ss) == prev.push(sp));
            lemma_specs_have_concat(prev, seq![sp], id);
            assert(prev.push(sp) =~= prev + seq![sp]);
            if specs_have(seq![sp], id) {
                assert(ss[ss.len() - 1] == ss.last());
            }
            if ss.last().id == id {
                assert(seq![sp][0] == sp);
            }
        }
        if exists|s: int| 0 <= s < ss.len() && (#[trigger] ss[s]).id == id && ss[s].kind == SurfaceKind::Terminal {
            let s = choose|s: int| 0 <= s < ss.len() && (#[trigger] ss[s]).id == id && ss[s].kind == SurfaceKind::Terminal;
            if s < ss.len() - 1 {
                assert(t[s] == ss[s]);
            } else {
                assert(ss[s] == ss.last());
                assert(seq![crate::controller::spec_of(w, pane, ss.last())][0].surface_id == id);
            }
        }
        if exists|s: int| 0 <= s < t.len() && (#[trigger] t[s]).id == id && t[s].kind == SurfaceKind::Terminal {
            let s = choose|s: int| 0 <= s < t.len() && (#[trigger] t[s]).id == id && t[s].kind == SurfaceKind::Terminal;
            assert(ss[s] == t[s]);
        }
    }
}

proof fn lemma_panes_specs(w: WorkspaceId, ps: Seq<PaneView>, id: SurfaceId)
    ensures
        specs_have(panes_specs(w, ps), id) <==> exists|p: int| 0 <= p < ps.len() && pane_term(#[trigger] ps[p], id),
    decreases ps.len(),
{
    if ps.len() > 0 {
        let t = ps.drop_last();
        lemma_panes_specs(w, t, id);
        let last = ps.last();
        lemma_surfaces_specs(w, last, last.surfaces, id);
        lemma_specs_have_concat(panes_specs(w, t), surfaces_specs(w, last, last.surfaces), id);
        if exists|p: int| 0 <= p < ps.len() && pane_term(#[trigger] ps[p], id) {
            let p = choose|p: int| 0 <= p < ps.len() && pane_term(#[trigger] ps[p], id);
            if p < ps.len() - 1 {
                assert(t[p] == ps[p]);
            } else {
                assert(ps[p] == last);
            }
        }
        if exists|p: int| 0 <= p < t.len() && pane_term(#[trigger] t[p], id) {
            let p = choose|p: int| 0 <= p < t.len() && pane_term(#[trigger] t[p], id);
            assert(ps[p] == t[p]);
        }
        if pane_term(last, id) {
            assert(ps[ps.len() - 1] == last);
        }
    }
}

proof fn lemma_workspaces_specs(wss: Seq<WorkspaceView>, id: SurfaceId)
    ensures
        specs_have(workspaces_specs(wss), id) <==> exists|k: int| 0 <= k < wss.len() && ws_term(#[trigger] wss[k], id),
    decreases wss.len(),
{
    if wss.len() > 0 {
        let t = wss.drop_last();
        lemma_workspaces_specs(t, id);
        let last = wss.last();
        lemma_panes_specs(last.id, last.panes, id);
        lemma_specs_have_concat(workspaces_specs(t), panes_specs(last.id, last.panes), id);
        if exists|k: int| 0 <= k < wss.len() && ws_term(#[trigger] wss[k], id) {
            let k = choose|k: int| 0 <= k < wss.len() && ws_term(#[trigger] wss[k], id);
            if k < wss.len() - 1 {
                assert(t[k] == wss[k]);
            } else {
                assert(wss[k] == last);
            }
        }
        if exists|k: int| 0 <= k < t.len() && ws_term(#[trigger] t[k], id) {
            let k = choose|k: int| 0 <= k < t.len() && ws_term(#[trigger] t[k], id);
            assert(wss[k] == t[k]);
        }
        if ws_term(last, id) {
            assert(wss[wss.len() - 1] == last);
        }
    }
}

/// A surface id has a terminal to start exactly when it is a terminal surface of the windows.
pub proof fn lemma_terminal_specs(wins: Seq<WindowView>, id: SurfaceId)
    ensures
        specs_have(terminal_specs(wins), id) <==> model_term(wins, id),
    decreases wins.len(),
{
    if wins.len() > 0 {
        let t = wins.drop_last();
        lemma_terminal_specs(t, id);
        let last = wins.last();
        lemma_workspaces_specs(last.workspaces, id);
        lemma_specs_have_concat(terminal_specs(t), workspaces_specs(last.workspaces), id);
        if model_term(wins, id) {
            let i = choose|i: int| 0 <= i < wins.len() && win_term(#[trigger] wins[i], id);
            if i < wins.len() - 1 {
                assert(t[i] == wins[i]);
            } else {
                assert(wins[i] == last);
            }
        }
        if model_term(t, id) {
            let i = choose|i: int| 0 <= i < t.len() && win_term(#[trigger] t[i], id);
            assert(wins[i] == t[i]);
        }
        if win_term(last, id) {
            assert(wins[wins.len() - 1] == last);
        }
    }
}

/// Every terminal surface of `o` whose id is not in `r` is one of `n`.
pub open spec fn covers_pane(n: PaneView, o: PaneView, r: Seq<SurfaceId>) -> bool {
    forall|id: SurfaceId| #[trigger] pane_term(o, id) && !r.contains(id) ==> pane_term(n, id)
}

pub open spec fn covers_ws(n: WorkspaceView, o: WorkspaceView, r: Seq<SurfaceId>) -> bool {
    forall|id: SurfaceId| #[trigger] ws_term(o, id) && !r.contains(id) ==> ws_term(n, id)
}

pub open spec fn covers_win(n: WindowView, o: WindowView, r: Seq<SurfaceId>) -> bool {
    forall|id: SurfaceId| #[trigger] win_term(o, id) && !r.contains(id) ==> win_term(n, id)
}

pub open spec fn covers_model(n: Seq<WindowView>, o: Seq<WindowView>, r: Seq<SurfaceId>) -> bool {
    forall|id: SurfaceId| #[trigger] model_term(o, id) && !r.contains(id) ==> model_term(n, id)
}

pub(crate) proof fn lemma_covers_model_trans(a: Seq<WindowView>, b: Seq<WindowView>, c: Seq<WindowView>, r: Seq<SurfaceId>)
    requires
        covers_model(a, b, r),
        covers_model(b, c, r),
    ensures
        covers_model(a, c, r),
{
}

pub(crate) proof fn lemma_covers_pane_same(n: PaneView, o: PaneView, r: Seq<SurfaceId>)
    requires
        n.surfaces.len() == o.surfaces.len(),
        forall|s: int| 0 <= s < o.surfaces.len() ==> (#[trigger] n.surfaces[s]).id == o.surfaces[s].id
            && n.surfaces[s].kind == o.surfaces[s].kind,
    ensures
        covers_pane(n, o, r),
{
    assert forall|id: SurfaceId| #[trigger] pane_term(o, id) && !r.contains(id) implies pane_term(n, id) by {
        let s = choose|s: int| 0 <= s < o.surfaces.len() && (#[trigger] o.surfaces[s]).id == id && o.surfaces[s].kind == SurfaceKind::Terminal;
        assert(n.surfaces[s].id == id);
    }
}

proof fn lemma_covers_pane_push(n: PaneView, o: PaneView, x: SurfaceView, r: Seq<SurfaceId>)
    requires
        n.surfaces == o.surfaces.push(x),
    ensures
        covers_pane(n, o, r),
{
    assert forall|id: SurfaceId| #[trigger] pane_term(o, id) && !r.contains(id) implies pane_term(n, id) by {
        let s = choose|s: int| 0 <= s < o.surfaces.len() && (#[trigger] o.surfaces[s]).id == id && o.surfaces[s].kind == SurfaceKind::Terminal;
        assert(n.surfaces[s] == o.surfaces[s]);
    }
}

proof fn lemma_covers_pane_remove(n: PaneView, o: PaneView, k: int, r: Seq<SurfaceId>)
    requires
        0 <= k < o.surfaces.len(),
        n.surfaces == o.surfaces.remove(k),
        r.contains(o.surfaces[k].id),
    ensures
        covers_pane(n, o, r),
{
    assert forall|id: SurfaceId| #[trigger] pane_term(o, id) && !r.contains(id) implies pane_term(n, id) by {
        let s = choose|s: int| 0 <= s < o.surfaces.len() && (#[trigger] o.surfaces[s]).id == id && o.surfaces[s].kind == SurfaceKind::Terminal;
        if s < k {
            assert(n.surfaces[s] == o.surfaces[s]);
        } else {
            assert(s != k);
            assert(n.surfaces[s - 1] == o.surfaces[s]);
        }
    }
}

proof fn lemma_covers_ws_update(n: WorkspaceView, o: WorkspaceView, p: int, np: PaneView, r: Seq<SurfaceId>)
    requires
        0 <= p < o.panes.len(),
        n.panes == o.panes.update(p, np),
        covers_pane(np, o.panes[p], r),
    ensures
        covers_ws(n, o, r),
{
    assert forall|id: SurfaceId| #[trigger] ws_term(o, id) && !r.contains(id) implies ws_term(n, id) by {
        let q = choose|q: int| 0 <= q < o.panes.len() && pane_term(#[trigger] o.panes[q], id);
        if q == p {
            assert(pane_term(n.panes[q], id));
        } else {
            assert(n.panes[q] == o.panes[q]);
        }
    }
}

proof fn lemma_covers_ws_push(n: WorkspaceView, o: WorkspaceView, x: PaneView, r: Seq<SurfaceId>)
    requires
        n.panes == o.panes.push(x),
    ensures
        covers_ws(n, o, r),
{
    assert forall|id: SurfaceId| #[trigger] ws_term(o, id) && !r.contains(id) implies ws_term(n, id) by {
        let q = choose|q: int| 0 <= q < o.panes.len() && pane_term(#[trigger] o.panes[q], id);
        assert(n.panes[q] == o.panes[q]);
    }
}

/// The surface ids of a pane, in order.
pub open spec fn pane_ids(p: PaneView) -> Seq<SurfaceId> {
    p.surfaces.map_values(|s: SurfaceView| s.id)
}

proof fn lemma_pane_term_in_ids(p: PaneView, id: SurfaceId)
    requires
        pane_term(p, id),
    ensures
        pane_ids(p).contains(id),
{
    let s = choose|s: int| 0 <= s < p.surfaces.len() && (#[trigger] p.surfaces[s]).id == id && p.surfaces[s].kind == SurfaceKind::Terminal;
    assert(pane_ids(p)[s] == id);
}

proof fn lemma_covers_ws_remove(n: WorkspaceView, o: WorkspaceView, p: int, r: Seq<SurfaceId>)
    requires
        0 <= p < o.panes.len(),
        n.panes == o.panes.remove(p),
        r == pane_ids(o.panes[p]),
    ensures
        covers_ws(n, o, r),
{
    assert forall|id: SurfaceId| #[trigger] ws_term(o, id) && !r.contains(id) implies ws_term(n, id) by {
        let q = choose|q: int| 0 <= q < o.panes.len() && pane_term(#[trigger] o.panes[q], id);
        if q == p {
            lemma_pane_term_in_ids(o.panes[q], id);
        } else if q < p {
            assert(n.panes[q] == o.panes[q]);
        } else {
            assert(n.panes[q - 1] == o.panes[q]);
        }
    }
}

proof fn lemma_covers_win_update(n: WindowView, o: WindowView, k: int, nws: WorkspaceView, r: Seq<SurfaceId>)
    requires
        0 <= k < o.workspaces.len(),
        n.workspaces == o.workspaces.update(k, nws),
        covers_ws(nws, o.workspaces[k], r),
    ensures
        covers_win(n, o, r),
{
    assert forall|id: SurfaceId| #[trigger] win_term(o, id) && !r.contains(id) implies win_term(n, id) by {
        let q = choose|q: int| 0 <= q < o.workspaces.len() && ws_term(#[trigger] o.workspaces[q], id);
        if q == k {
            assert(ws_term(n.workspaces[q], id));
        } else {
            assert(n.workspaces[q] == o.workspaces[q]);
        }
    }
}

proof fn lemma_covers_win_push(n: WindowView, o: WindowView, x: WorkspaceView, r: Seq<SurfaceId>)
    requires
        n.workspaces == o.workspaces.push(x),
    ensures
        covers_win(n, o, r),
{
    assert forall|id: SurfaceId| #[trigger] win_term(o, id) && !r.contains(id) implies win_term(n, id) by {
        let q = choose|q: int| 0 <= q < o.workspaces.len() && ws_term(#[trigger] o.workspaces[q], id);
        assert(n.workspaces[q] == o.workspaces[q]);
    }
}

proof fn lemma_panes_surface_ids_hold(ps: Seq<PaneView>, id: SurfaceId)
    requires
        exists|p: int| 0 <= p < ps.len() && pane_term(#[trigger] ps[p], id),
    ensures
        crate::model_view::panes_surface_ids(ps).contains(id),
    decreases ps.len(),
{
    let t = ps.drop_last();
    let q = choose|q: int| 0 <= q < ps.len() && pane_term(#[trigger] ps[q], id);
    let prev = crate::model_view::panes_surface_ids(t);
    let last = pane_ids(ps.last());
    assert(crate::model_view::panes_surface_ids(ps) == prev + last);
    if q < ps.len() - 1 {
        assert(t[q] == ps[q]);
        lemma_panes_surface_ids_hold(t, id);
        let j = choose|j: int| 0 <= j < prev.len() && prev[j] == id;
        assert((prev + last)[j] == id);
    } else {
        assert(ps[q] == ps.last());
        lemma_pane_term_in_ids(ps.last(), id);
        let j = choose|j: int| 0 <= j < last.len() && last[j] == id;
        assert((prev + last)[prev.len() + j] == id);
    }
}

proof fn lemma_covers_win_remove(n: WindowView, o: WindowView, k: int, r: Seq<SurfaceId>)
    requires
        0 <= k < o.workspaces.len(),
        n.workspaces == o.workspaces.remove(k),
        r == crate::model_view::panes_surface_ids(o.workspaces[k].panes),
    ensures
        covers_win(n, o, r),
{
    assert forall|id: SurfaceId| #[trigger] win_term(o, id) && !r.contains(id) implies win_term(n, id) by {
        let q = choose|q: int| 0 <= q < o.workspaces.len() && ws_term(#[trigger] o.workspaces[q], id);
        if q == k {
            lemma_panes_surface_ids_hold(o.workspaces[q].panes, id);
        } else if q < k {
            assert(n.workspaces[q] == o.workspaces[q]);
        } else {
            assert(n.workspaces[q - 1] == o.workspaces[q]);
        }
    }
}

pub(crate) proof fn lemma_covers_model_update(o: Seq<WindowView>, i: int, w: WindowView, r: Seq<SurfaceId>)
    requires
        0 <= i < o.len(),
        covers_win(w, o[i], r),
    ensures
        covers_model(o.update(i, w), o, r),
{
    let n = o.update(i, w);
    assert forall|id: SurfaceId| #[trigger] model_term(o, id) && !r.contains(id) implies model_term(n, id) by {
        let q = choose|q: int| 0 <= q < o.len() && win_term(#[trigger] o[q], id);
        if q == i {
            assert(win_term(n[q], id));
        } else {
            assert(n[q] == o[q]);
        }
    }
}

pub(crate) proof fn lemma_covers_set_workspace(m: ModelView, i: int, k: int, ws: WorkspaceView, r: Seq<SurfaceId>)
    requires
        0 <= i < m.windows.len(),
        0 <= k < m.windows[i].workspaces.len(),
        covers_ws(ws, m.workspace(i, k), r),
    ensures
        covers_model(m.set_workspace(i, k, ws).windows, m.windows, r),
{
    let w = m.windows[i];
    let w2 = WindowView { workspaces: w.workspaces.update(k, ws), ..w };
    lemma_covers_win_update(w2, w, k, ws, r);
    lemma_covers_model_update(m.windows, i, w2, r);
}

pub(crate) proof fn lemma_covers_set_pane(m: ModelView, i: int, k: int, p: int, pane: PaneView, r: Seq<SurfaceId>)
    requires
        0 <= i < m.windows.len(),
        0 <= k < m.windows[i].workspaces.len(),
        0 <= p < m.workspace(i, k).panes.len(),
        covers_pane(pane, m.pane(i, k, p), r),
    ensures
        covers_model(m.set_pane(i, k, p, pane).windows, m.windows, r),
{
    let ws = m.workspace(i, k);
    let ws2 = WorkspaceView { panes: ws.panes.update(p, pane), ..ws };
    lemma_covers_ws_update(ws2, ws, p, pane, r);
    lemma_covers_set_workspace(m, i, k, ws2, r);
}

pub(crate) proof fn lemma_covers_set_surface(m: ModelView, i: int, k: int, p: int, s: int, sv: SurfaceView, r: Seq<SurfaceId>)
    requires
        0 <= i < m.windows.len(),
        0 <= k < m.windows[i].workspaces.len(),
        0 <= p < m.workspace(i, k).panes.len(),
        0 <= s < m.pane(i, k, p).surfaces.len(),
        sv.id == m.surface(i, k, p, s).id,
        sv.kind == m.surface(i, k, p, s).kind,
    ensures
        covers_model(m.set_surface(i, k, p, s, sv).windows, m.windows, r),
{
    let pane = m.pane(i, k, p);
    let pane2 = PaneView { surfaces: pane.surfaces.update(s, sv), ..pane };
    lemma_covers_pane_same(pane2, pane, r);
    lemma_covers_set_pane(m, i, k, p, pane2, r);
}

pub(crate) proof fn lemma_covers_recompute(m: ModelView, i: int, k: int, r: Seq<SurfaceId>)
    requires
        0 <= i < m.windows.len(),
        0 <= k < m.windows[i].workspaces.len(),
    ensures
        covers_model(m.set_workspace(i, k, recompute_workspace(m.workspace(i, k))).windows, m.windows, r),
{
    let ws = m.workspace(i, k);
    let ws2 = recompute_workspace(ws);
    assert(ws2.panes == ws.panes);
    lemma_covers_ws_same(ws2, ws, r);
    lemma_covers_set_workspace(m, i, k, ws2, r);
}

pub(crate) proof fn lemma_covers_ws_same(n: WorkspaceView, o: WorkspaceView, r: Seq<SurfaceId>)
    requires
        n.panes == o.panes,
    ensures
        covers_ws(n, o, r),
{
    assert forall|id: SurfaceId| #[trigger] ws_term(o, id) && !r.contains(id) implies ws_term(n, id) by {
        let q = choose|q: int| 0 <= q < o.panes.len() && pane_term(#[trigger] o.panes[q], id);
        assert(n.panes[q] == o.panes[q]);
    }
}

pub(crate) proof fn lemma_covers_win_same(n: WindowView, o: WindowView, r: Seq<SurfaceId>)
    requires
        n.workspaces == o.workspaces,
    ensures
        covers_win(n, o, r),
{
    assert forall|id: SurfaceId| #[trigger] win_term(o, id) && !r.contains(id) implies win_term(n, id) by {
        let q = choose|q: int| 0 <= q < o.workspaces.len() && ws_term(#[trigger] o.workspaces[q], id);
        assert(n.workspaces[q] == o.workspaces[q]);
    }
}

/// The ids an operation's result says it removed, or none.
pub open spec fn removed_ids(r: Result<Seq<SurfaceId>, ModelError>) -> Seq<SurfaceId> {
    match r {
        Ok(ids) => ids,
        Err(_) => Seq::empty(),
    }
}

proof fn lemma_covers_select_workspace(m: ModelView, id: WorkspaceId)
    ensures
        covers_model(m.select_workspace(id).0.windows, m.windows, Seq::empty()),
{
    lemma_selected_window_loc(m);
    if let Ok(wi) = m.selected_window_loc() {
        let w = m.windows[wi];
        lemma_covers_win_same(WindowView { selected_workspace: id, ..w }, w, Seq::empty());
        lemma_covers_model_update(m.windows, wi, WindowView { selected_workspace: id, ..w }, Seq::empty());
    }
}

proof fn lemma_covers_rename_workspace(m: ModelView, id: WorkspaceId, title: Seq<char>)
    ensures
        covers_model(m.rename_workspace(id, title).0.windows, m.windows, Seq::empty()),
{
    lemma_selected_window_loc(m);
    if let Ok(wi) = m.selected_window_loc() {
        let k = wsv_ix(m.windows[wi].workspaces, id);
        lemma_first_where_spec(m.windows[wi].workspaces, wsv_is(id));
        if k >= 0 {
            lemma_covers_ws_same(WorkspaceView { title, ..m.workspace(wi, k) }, m.workspace(wi, k), Seq::empty());
            lemma_covers_set_workspace(m, wi, k, WorkspaceView { title, ..m.workspace(wi, k) }, Seq::empty());
        }
    }
}

proof fn lemma_covers_close_workspace(m: ModelView, id: WorkspaceId)
    ensures
        covers_model(m.close_workspace(id).0.windows, m.windows, removed_ids(m.close_workspace(id).1)),
{
    lemma_selected_window_loc(m);
    if let Ok(wi) = m.selected_window_loc() {
        let w = m.windows[wi];
        let k = wsv_ix(w.workspaces, id);
        lemma_first_where_spec(w.workspaces, wsv_is(id));
        if w.workspaces.len() != 1 && k >= 0 {
            let removed = panes_surface_ids(w.workspaces[k].panes);
            let rest = w.workspaces.remove(k);
            let r = m.close_workspace(id);
            let sel = if w.selected_workspace == id {
                rest[if k == 0 { 0 } else { k - 1 }].id
            } else {
                w.selected_workspace
            };
            let w2 = WindowView { workspaces: rest, selected_workspace: sel, ..w };
            lemma_covers_win_remove(w2, w, k, removed);
            lemma_covers_model_update(m.windows, wi, w2, removed);
            assert(r.0.windows == m.set_window(wi, w2).windows);
        }
    }
}

proof fn lemma_covers_select_pane(m: ModelView, id: PaneId)
    ensures
        covers_model(m.select_pane(id).0.windows, m.windows, Seq::empty()),
{
    lemma_selected_workspace_loc(m);
    if let Ok((wi, k)) = m.selected_workspace_loc() {
        lemma_covers_ws_same(WorkspaceView { selected_pane: id, ..m.workspace(wi, k) }, m.workspace(wi, k), Seq::empty());
        lemma_covers_set_workspace(m, wi, k, WorkspaceView { selected_pane: id, ..m.workspace(wi, k) }, Seq::empty());
    }
}

proof fn lemma_covers_close_pane(m: ModelView, id: PaneId)
    ensures
        covers_model(m.close_pane(id).0.windows, m.windows, removed_ids(m.close_pane(id).1)),
{
    lemma_selected_workspace_loc(m);
    if let Ok((wi, k)) = m.selected_workspace_loc() {
        let ws = m.workspace(wi, k);
        let p = pv_ix(ws.panes, id);
        lemma_first_where_spec(ws.panes, pv_is(id));
        if ws.panes.len() != 1 && p >= 0 {
            let removed = ws.panes[p].surfaces.map_values(|s: SurfaceView| s.id);
            assert(removed =~= pane_ids(ws.panes[p]));
            let rest = ws.panes.remove(p);
            let remaining = rest[0].id;
            let ws2 = recompute_workspace(
                WorkspaceView { panes: rest, selected_pane: remaining, layout: SplitTree::Leaf(remaining), ..ws },
            );
            lemma_covers_ws_remove(ws2, ws, p, removed);
            lemma_covers_set_workspace(m, wi, k, ws2, removed);
        }
    }
}

proof fn lemma_covers_split(m: ModelView, axis: SplitAxis)
    ensures
        covers_model(m.split_selected_pane(axis).0.windows, m.windows, Seq::empty()),
{
    lemma_selected_workspace_loc(m);
    if let Ok((wi, k)) = m.selected_workspace_loc() {
        let ws = m.workspace(wi, k);
        let sp = ws.selected_pane;
        let p = pv_ix(ws.panes, sp);
        if !(ws.layout is Split) && p >= 0 {
            let r = m.split_selected_pane(axis);
            let m1 = m.with_ids((m.next_id + 2) as u64);
            let ws2 = r.0.workspace(wi, k);
            assert(ws2.panes == ws.panes.push(ws2.panes.last()));
            lemma_covers_ws_push(ws2, ws, ws2.panes.last(), Seq::empty());
            lemma_covers_set_workspace(m1, wi, k, ws2, Seq::empty());
            assert(r.0 == m1.set_workspace(wi, k, ws2));
        }
    }
}

proof fn lemma_covers_open_terminal(m: ModelView)
    ensures
        covers_model(m.open_terminal_surface().0.windows, m.windows, Seq::empty()),
{
    let m1 = m.with_ids((m.next_id + 1) as u64);
    lemma_selected_pane_loc(m1);
    if let Ok((wi, k, p)) = m1.selected_pane_loc() {
        let pane = m1.pane(wi, k, p);
        let x = terminal_surface_view(SurfaceId((m.next_id + 1) as u64));
        let pane2 = PaneView { surfaces: pane.surfaces.push(x), selected_surface: x.id, ..pane };
        lemma_covers_pane_push(pane2, pane, x, Seq::empty());
        lemma_covers_set_pane(m1, wi, k, p, pane2, Seq::empty());
    }
}

proof fn lemma_covers_select_surface(m: ModelView, id: SurfaceId)
    ensures
        covers_model(m.select_surface(id).0.windows, m.windows, Seq::empty()),
{
    lemma_selected_pane_loc(m);
    if let Ok((wi, k, p)) = m.selected_pane_loc() {
        let pane = m.pane(wi, k, p);
        let pane2 = PaneView { selected_surface: id, ..pane };
        lemma_covers_pane_same(pane2, pane, Seq::empty());
        lemma_covers_set_pane(m, wi, k, p, pane2, Seq::empty());
    }
}

proof fn lemma_covers_close_surface(m: ModelView, id: SurfaceId)
    ensures
        covers_model(m.close_surface(id).0.windows, m.windows, removed_ids(m.close_surface(id).1)),
{
    lemma_selected_pane_loc(m);
    if let Ok((wi, k, p)) = m.selected_pane_loc() {
        let pane = m.pane(wi, k, p);
        let s = sv_ix(pane.surfaces, id);
        lemma_first_where_spec(pane.surfaces, sv_is(id));
        if s >= 0 {
            let removed = seq![id];
            assert(removed[0] == id);
            assert(removed.contains(id));
            let rest = pane.surfaces.remove(s);
            let m1 = if rest.len() == 0 {
                let rid = SurfaceId((m.next_id + 1) as u64);
                let pane2 = PaneView { surfaces: seq![terminal_surface_view(rid)], selected_surface: rid, ..pane };
                let mm = m.with_ids((m.next_id + 1) as u64);
                assert forall|x: SurfaceId| #[trigger] pane_term(pane, x) && !removed.contains(x) implies pane_term(pane2, x) by {
                    let j = choose|j: int| 0 <= j < pane.surfaces.len() && (#[trigger] pane.surfaces[j]).id == x && pane.surfaces[j].kind == SurfaceKind::Terminal;
                    assert(pane.surfaces.len() == 1);
                    assert(j == s);
                }
                lemma_covers_set_pane(mm, wi, k, p, pane2, removed);
                mm.set_pane(wi, k, p, pane2)
            } else {
                let pane2 = PaneView {
                    surfaces: rest,
                    selected_surface: rest[if s == 0 { 0 } else { s - 1 }].id,
                    ..pane
                };
                lemma_covers_pane_remove(pane2, pane, s, removed);
                lemma_covers_set_pane(m, wi, k, p, pane2, removed);
                m.set_pane(wi, k, p, pane2)
            };
            let m2 = m1.clear_target_if_removed(removed);
            assert(m2.windows == m1.windows);
            lemma_covers_recompute(m2, wi, k, removed);
            lemma_covers_model_trans(
                m2.set_workspace(wi, k, recompute_workspace(m2.workspace(wi, k))).windows,
                m2.windows,
                m.windows,
                removed,
            );
        }
    }
}

proof fn lemma_covers_mark_surface_read(m: ModelView, id: SurfaceId)
    ensures
        covers_model(m.mark_surface_read(id).0.windows, m.windows, Seq::empty()),
{
    lemma_surface_loc(m, id);
    if let Some((wi, k, p, s)) = m.surface_loc(id) {
        let sv = SurfaceView { unread: false, unread_message: None, unread_sequence: None, ..m.surface(wi, k, p, s) };
        lemma_covers_set_surface(m, wi, k, p, s, sv, Seq::empty());
        let m1 = m.set_surface(wi, k, p, s, sv);
        lemma_covers_recompute(m1, wi, k, Seq::empty());
        lemma_covers_model_trans(
            m1.set_workspace(wi, k, recompute_workspace(m1.workspace(wi, k))).windows,
            m1.windows,
            m.windows,
            Seq::empty(),
        );
    }
}

proof fn lemma_covers_rename_surface(m: ModelView, id: SurfaceId, title: Seq<char>)
    ensures
        covers_model(m.rename_surface(id, title).0.windows, m.windows, Seq::empty()),
{
    lemma_surface_loc(m, id);
    if let Some((wi, k, p, s)) = m.surface_loc(id) {
        lemma_covers_set_surface(m, wi, k, p, s, SurfaceView { title, ..m.surface(wi, k, p, s) }, Seq::empty());
    }
}

proof fn lemma_covers_create_workspace(m: ModelView, cwd: Seq<char>, title: Option<Seq<char>>)
    ensures
        covers_model(m.create_workspace(cwd, title).0.windows, m.windows, Seq::empty()),
{
    let n = m.next_id;
    let m1 = m.with_ids((n + 3) as u64);
    lemma_selected_window_loc(m1);
    if let Ok(wi) = m1.selected_window_loc() {
        let r = m.create_workspace(cwd, title);
        let w = m1.windows[wi];
        let w2 = r.0.windows[wi];
        assert(w2.workspaces == w.workspaces.push(w2.workspaces.last()));
        lemma_covers_win_push(w2, w, w2.workspaces.last(), Seq::empty());
        lemma_covers_model_update(m1.windows, wi, w2, Seq::empty());
        assert(r.0.windows == m1.windows.update(wi, w2));
    }
}

proof fn lemma_covers_jump(m: ModelView)
    ensures
        covers_model(jump_to_target(m).0.windows, m.windows, Seq::empty()),
{
    if let Some(t) = m.latest_unread_target {
        let (m1, r1) = m.select_workspace(t.workspace_id);
        lemma_covers_select_workspace(m, t.workspace_id);
        let (m2, r2) = m1.select_pane(t.pane_id);
        lemma_covers_select_pane(m1, t.pane_id);
        let (m3, r3) = m2.select_surface(t.surface_id);
        lemma_covers_select_surface(m2, t.surface_id);
        let (m4, r4) = m3.mark_surface_read(t.surface_id);
        lemma_covers_mark_surface_read(m3, t.surface_id);
        lemma_covers_model_trans(m2.windows, m1.windows, m.windows, Seq::empty());
        lemma_covers_model_trans(m3.windows, m2.windows, m.windows, Seq::empty());
        lemma_covers_model_trans(m4.windows, m3.windows, m.windows, Seq::empty());
    }
}

/// Every registered terminal belongs to a terminal surface of the windows.
pub open spec fn terminals_within(reg: Map<u64, EntryView>, wins: Seq<WindowView>) -> bool {
    forall|x: u64| #[trigger] reg.dom().contains(x) ==> model_term(wins, SurfaceId(x))
}

pub(crate) proof fn lemma_remove_all_dom(reg: Map<u64, EntryView>, ids: Seq<SurfaceId>, x: u64)
    ensures
        remove_all(reg, ids).dom().contains(x) <==> reg.dom().contains(x) && !ids.contains(SurfaceId(x)),
    decreases ids.len(),
{
    if ids.len() > 0 {
        let t = ids.drop_last();
        lemma_remove_all_dom(reg, t, x);
        if t.contains(SurfaceId(x)) {
            let j = choose|j: int| 0 <= j < t.len() && t[j] == SurfaceId(x);
            assert(ids[j] == t[j]);
        }
        if ids.contains(SurfaceId(x)) {
            let j = choose|j: int| 0 <= j < ids.len() && ids[j] == SurfaceId(x);
            if j < ids.len() - 1 {
                assert(t[j] == ids[j]);
            }
        }
    }
}

proof fn lemma_within_covers(reg: Map<u64, EntryView>, o: Seq<WindowView>, n: Seq<WindowView>, r: Seq<SurfaceId>)
    requires
        terminals_within(reg, o),
        covers_model(n, o, r),
    ensures
        terminals_within(remove_all(reg, r), n),
{
    assert forall|x: u64| #[trigger] remove_all(reg, r).dom().contains(x) implies model_term(n, SurfaceId(x)) by {
        lemma_remove_all_dom(reg, r, x);
    }
}

proof fn lemma_within_keep(reg: Map<u64, EntryView>, o: Seq<WindowView>, n: Seq<WindowView>)
    requires
        terminals_within(reg, o),
        covers_model(n, o, Seq::empty()),
    ensures
        terminals_within(reg, n),
{
    assert forall|x: u64| #[trigger] reg.dom().contains(x) implies model_term(n, SurfaceId(x)) by {
        assert(!Seq::<SurfaceId>::empty().contains(SurfaceId(x)));
    }
}

proof fn lemma_within_spawn_surface(m: ModelView, reg: Map<u64, EntryView>, id: SurfaceId, sp: Seq<SurfaceId>)
    requires
        terminals_within(reg, m.windows),
    ensures
        terminals_within(spawn_surface(m, reg, id, sp).0, m.windows),
{
    let specs = terminal_specs(m.windows);
    let i = first_where(specs, spec_for(id));
    lemma_first_where_spec(specs, spec_for(id));
    if i >= 0 && !reg.dom().contains(id.0) {
        assert(specs[i].surface_id == id);
        assert(specs_have(specs, id));
        lemma_terminal_specs(m.windows, id);
    }
}

proof fn lemma_within_spawn_selected(m: ModelView, reg: Map<u64, EntryView>, sp: Seq<SurfaceId>)
    requires
        terminals_within(reg, m.windows),
    ensures
        terminals_within(spawn_selected(m, reg, sp).0, m.windows),
{
    if let Ok((wi, k, p)) = m.selected_pane_loc() {
        let pane = m.pane(wi, k, p);
        lemma_within_spawn_surface(m, reg, pane.selected_surface, sp);
    }
}

/// What `run_action` does to the windows covers the old windows up to the surfaces it
/// reports closed, and the terminals it leaves all belong to surfaces of the new windows.
proof fn lemma_run_action_within(m: ModelView, reg: Map<u64, EntryView>, a: ActionView)
    requires
        terminals_within(reg, m.windows),
    ensures
        terminals_within(run_action(m, reg, a).1, run_action(m, reg, a).0.windows),
{
    match a {
        ActionView::NewWorkspace { cwd, title } => {
            let (m1, r) = m.create_workspace(cwd, title);
            lemma_covers_create_workspace(m, cwd, title);
            lemma_within_keep(reg, m.windows, m1.windows);
            lemma_within_spawn_selected(m1, reg, Seq::empty());
        },
        ActionView::SelectWorkspace(id) => {
            lemma_covers_select_workspace(m, id);
            lemma_within_keep(reg, m.windows, m.select_workspace(id).0.windows);
        },
        ActionView::RenameWorkspace { workspace_id, title } => {
            lemma_covers_rename_workspace(m, workspace_id, title);
            lemma_within_keep(reg, m.windows, m.rename_workspace(workspace_id, title).0.windows);
        },
        ActionView::RenameSurface { surface_id, title } => {
            lemma_covers_rename_surface(m, surface_id, title);
            lemma_within_keep(reg, m.windows, m.rename_surface(surface_id, title).0.windows);
        },
        ActionView::CloseWorkspace(id) => {
            let (m1, r) = m.close_workspace(id);
            lemma_covers_close_workspace(m, id);
            lemma_within_covers(reg, m.windows, m1.windows, removed_ids(r));
            if r is Err {
                lemma_within_keep(reg, m.windows, m1.windows);
            }
        },
        ActionView::SplitPane(axis) => {
            let (m1, r) = m.split_selected_pane(axis);
            lemma_covers_split(m, axis);
            lemma_within_keep(reg, m.windows, m1.windows);
            lemma_within_spawn_selected(m1, reg, Seq::empty());
        },
        ActionView::ClosePane(id) => {
            let (m1, r) = m.close_pane(id);
            lemma_covers_close_pane(m, id);
            lemma_within_covers(reg, m.windows, m1.windows, removed_ids(r));
            if r is Err {
                lemma_within_keep(reg, m.windows, m1.windows);
            }
        },
        ActionView::SelectPane(id) => {
            lemma_covers_select_pane(m, id);
            lemma_within_keep(reg, m.windows, m.select_pane(id).0.windows);
        },
        ActionView::NewTerminalTab => {
            let (m1, r) = m.open_terminal_surface();
            lemma_covers_open_terminal(m);
            lemma_within_keep(reg, m.windows, m1.windows);
            if let Ok(sid) = r {
                lemma_within_spawn_surface(m1, reg, sid, Seq::empty());
            }
        },
        ActionView::SelectSurface(id) => {
            let (m1, r1) = m.select_surface(id);
            lemma_covers_select_surface(m, id);
            lemma_within_keep(reg, m.windows, m1.windows);
            lemma_covers_mark_surface_read(m1, id);
            lemma_within_keep(reg, m1.windows, m1.mark_surface_read(id).0.windows);
        },
        ActionView::CloseSurface(id) => {
            let (m1, r) = m.close_surface(id);
            lemma_covers_close_surface(m, id);
            lemma_within_covers(reg, m.windows, m1.windows, removed_ids(r));
            if let Ok(removed) = r {
                lemma_within_spawn_selected(m1, remove_all(reg, removed), Seq::empty());
            } else {
                lemma_within_keep(reg, m.windows, m1.windows);
            }
        },
        ActionView::JumpLatestUnread => {
            lemma_covers_jump(m);
            lemma_within_keep(reg, m.windows, jump_to_target(m).0.windows);
        },
        ActionView::MarkSurfaceRead(id) => {
            lemma_covers_mark_surface_read(m, id);
            lemma_within_keep(reg, m.windows, m.mark_surface_read(id).0.windows);
        },
        ActionView::SaveSessionNow => {},
    }
}

/// No action leaves a terminal whose surface is gone: when every registered terminal belongs
/// to a terminal surface of the model before an action, the same holds after it, whether the
/// action succeeds or fails part way.
pub proof fn law_apply_keeps_terminals_within_surfaces(c: ControllerView, a: ActionView)
    requires
        terminals_within(c.terminals, c.model.windows),
    ensures
        terminals_within(apply_spec(c, a).0.terminals, apply_spec(c, a).0.model.windows),
{
    lemma_run_action_within(c.model, c.terminals, a);
}

proof fn lemma_spawn_all_dom(reg: Map<u64, EntryView>, specs: Seq<SpawnSpecView>, x: u64)
    requires
        spawn_all(reg, specs).1 is Ok,
    ensures
        spawn_all(reg, specs).0.dom().contains(x) <==> reg.dom().contains(x) || specs_have(specs, SurfaceId(x)),
    decreases specs.len(),
{
    if specs.len() > 0 {
        let t = specs.drop_last();
        lemma_spawn_all_dom(reg, t, x);
        lemma_specs_have_concat(t, seq![specs.last()], SurfaceId(x));
        assert(t + seq![specs.last()] =~= specs);
        if specs_have(seq![specs.last()], SurfaceId(x)) {
            assert(seq![specs.last()][0] == specs.last());
        }
        if specs.last().surface_id == SurfaceId(x) {
            assert(seq![specs.last()][0].surface_id == SurfaceId(x));
        }
    }
}

/// A controller that starts has exactly one terminal for each terminal surface of its model.
pub proof fn law_new_controller_terminals(m: ModelView)
    requires
        spawn_all(Map::empty(), terminal_specs(m.windows)).1 is Ok,
    ensures
        forall|x: u64| #[trigger] spawn_all(Map::empty(), terminal_specs(m.windows)).0.dom().contains(x)
            <==> model_term(m.windows, SurfaceId(x)),
{
    assert forall|x: u64| #[trigger] spawn_all(Map::empty(), terminal_specs(m.windows)).0.dom().contains(x)
        <==> model_term(m.windows, SurfaceId(x)) by {
        lemma_spawn_all_dom(Map::empty(), terminal_specs(m.windows), x);
        lemma_terminal_specs(m.windows, SurfaceId(x));
    }
}

} // verus!
