use vstd::prelude::*;

use crate::controller_laws::{
    lemma_covers_model_trans, lemma_covers_model_update, lemma_covers_pane_same, lemma_covers_set_pane,
    lemma_covers_set_workspace, lemma_covers_win_same, lemma_covers_ws_same, covers_model, covers_pane, covers_win, covers_ws, model_term, pane_term, win_term, ws_term};
use crate::action::ActionView;
use crate::controller::{apply_spec, ids_suffice, remove_all, run_action, ControllerView, jump_to_target, spawn_selected, spawn_surface, spec_for, terminal_specs};
use crate::controller_laws::lemma_terminal_specs;
use crate::registry::EntryView;
use crate::controller_laws::{lemma_remove_all_dom, removed_ids};
use crate::ids::{PaneId, SurfaceId, WorkspaceId};
use crate::model_laws::{
    law_close_pane_wf, law_close_surface_wf, law_close_workspace_wf, law_create_workspace_wf, law_mark_surface_read_wf,
    law_open_terminal_surface_wf, law_rename_surface_wf, law_rename_workspace_wf, law_select_pane_wf,
    law_select_surface_wf, law_select_workspace_wf, law_split_selected_pane_wf, pane_wf, window_wf, workspace_wf, lemma_selected_pane_loc, lemma_selected_window_loc, lemma_selected_workspace_loc, lemma_surface_loc};
use crate::model::{ModelError, SplitAxis, SplitTree, SurfaceKind};
use crate::model_view::{wv_is, panes_surface_ids, pv_is, pv_ix, sv_is, sv_ix, terminal_surface_view, new_model_view, wsv_is, wsv_ix, recompute_workspace, ModelView, PaneView, SurfaceView, WindowView, WorkspaceView};
use crate::search::{first_where, lemma_first_where_spec};

verus! {

pub(crate) proof fn lemma_first_where_update<T>(s: Seq<T>, i: int, x: T, p: spec_fn(T) -> bool)
    requires
        0 <= i < s.len(),
        p(x) == p(s[i]),
    ensures
        first_where(s.update(i, x), p) == first_where(s, p),
{
    let t = s.update(i, x);
    lemma_first_where_spec(s, p);
    lemma_first_where_spec(t, p);
    assert forall|j: int| 0 <= j < s.len() implies p(#[trigger] t[j]) == p(s[j]) by {
        if j != i {
            assert(t[j] == s[j]);
        }
    }
    let a = first_where(s, p);
    let b = first_where(t, p);
    if a >= 0 {
        assert(p(t[a]));
    }
    if b >= 0 {
        assert(p(s[b]));
    }
}

proof fn lemma_first_where_push<T>(s: Seq<T>, x: T, p: spec_fn(T) -> bool)
    requires
        forall|j: int| 0 <= j < s.len() ==> !p(#[trigger] s[j]),
        p(x),
    ensures
        first_where(s.push(x), p) == s.len(),
{
    let t = s.push(x);
    lemma_first_where_spec(t, p);
    assert forall|j: int| 0 <= j < s.len() implies !p(#[trigger] t[j]) by {
        assert(t[j] == s[j]);
    }
    assert(p(t[s.len() as int]));
}

/// Every terminal of `o` but those in `r` is one of `n`: the pane `o` holds the surfaces of
/// `n` and one more, whose id is in `r`.
proof fn lemma_covers_pane_pop(n: PaneView, o: PaneView, x: SurfaceView, r: Seq<SurfaceId>)
    requires
        o.surfaces == n.surfaces.push(x),
        r.contains(x.id),
    ensures
        covers_pane(n, o, r),
{
    assert forall|id: SurfaceId| #[trigger] pane_term(o, id) && !r.contains(id) implies pane_term(n, id) by {
        let s = choose|s: int| 0 <= s < o.surfaces.len() && (#[trigger] o.surfaces[s]).id == id && o.surfaces[s].kind == SurfaceKind::Terminal;
        if s < n.surfaces.len() {
            assert(o.surfaces[s] == n.surfaces[s]);
        }
    }
}

/// The surfaces left after a removal are all among the surfaces before it.
proof fn lemma_covers_pane_unremove(n: PaneView, o: PaneView, k: int, r: Seq<SurfaceId>)
    requires
        0 <= k < n.surfaces.len(),
        o.surfaces == n.surfaces.remove(k),
    ensures
        covers_pane(n, o, r),
{
    assert forall|id: SurfaceId| #[trigger] pane_term(o, id) && !r.contains(id) implies pane_term(n, id) by {
        let s = choose|s: int| 0 <= s < o.surfaces.len() && (#[trigger] o.surfaces[s]).id == id && o.surfaces[s].kind == SurfaceKind::Terminal;
        if s < k {
            assert(o.surfaces[s] == n.surfaces[s]);
        } else {
            assert(o.surfaces[s] == n.surfaces[s + 1]);
        }
    }
}

proof fn lemma_covers_ws_pop(n: WorkspaceView, o: WorkspaceView, x: PaneView, r: Seq<SurfaceId>)
    requires
        o.panes == n.panes.push(x),
        forall|id: SurfaceId| pane_term(x, id) ==> r.contains(id),
    ensures
        covers_ws(n, o, r),
{
    assert forall|id: SurfaceId| #[trigger] ws_term(o, id) && !r.contains(id) implies ws_term(n, id) by {
        let q = choose|q: int| 0 <= q < o.panes.len() && pane_term(#[trigger] o.panes[q], id);
        if q < n.panes.len() {
            assert(o.panes[q] == n.panes[q]);
        } else {
            assert(o.panes[q] == x);
        }
    }
}

proof fn lemma_covers_ws_unremove(n: WorkspaceView, o: WorkspaceView, k: int, r: Seq<SurfaceId>)
    requires
        0 <= k < n.panes.len(),
        o.panes == n.panes.remove(k),
    ensures
        covers_ws(n, o, r),
{
    assert forall|id: SurfaceId| #[trigger] ws_term(o, id) && !r.contains(id) implies ws_term(n, id) by {
        let q = choose|q: int| 0 <= q < o.panes.len() && pane_term(#[trigger] o.panes[q], id);
        if q < k {
            assert(o.panes[q] == n.panes[q]);
        } else {
            assert(o.panes[q] == n.panes[q + 1]);
        }
    }
}

proof fn lemma_covers_win_pop(n: WindowView, o: WindowView, x: WorkspaceView, r: Seq<SurfaceId>)
    requires
        o.workspaces == n.workspaces.push(x),
        forall|id: SurfaceId| ws_term(x, id) ==> r.contains(id),
    ensures
        covers_win(n, o, r),
{
    assert forall|id: SurfaceId| #[trigger] win_term(o, id) && !r.contains(id) implies win_term(n, id) by {
        let q = choose|q: int| 0 <= q < o.workspaces.len() && ws_term(#[trigger] o.workspaces[q], id);
        if q < n.workspaces.len() {
            assert(o.workspaces[q] == n.workspaces[q]);
        } else {
            assert(o.workspaces[q] == x);
        }
    }
}

proof fn lemma_covers_win_unremove(n: WindowView, o: WindowView, k: int, r: Seq<SurfaceId>)
    requires
        0 <= k < n.workspaces.len(),
        o.workspaces == n.workspaces.remove(k),
    ensures
        covers_win(n, o, r),
{
    assert forall|id: SurfaceId| #[trigger] win_term(o, id) && !r.contains(id) implies win_term(n, id) by {
        let q = choose|q: int| 0 <= q < o.workspaces.len() && ws_term(#[trigger] o.workspaces[q], id);
        if q < k {
            assert(o.workspaces[q] == n.workspaces[q]);
        } else {
            assert(o.workspaces[q] == n.workspaces[q + 1]);
        }
    }
}

proof fn lemma_back_set_window(m: ModelView, i: int, w: WindowView, r: Seq<SurfaceId>)
    requires
        0 <= i < m.windows.len(),
        covers_win(m.windows[i], w, r),
    ensures
        covers_model(m.windows, m.set_window(i, w).windows, r),
{
    let m2 = m.set_window(i, w);
    lemma_covers_model_update(m2.windows, i, m.windows[i], r);
    assert(m2.windows.update(i, m.windows[i]) =~= m.windows);
}

proof fn lemma_back_set_workspace(m: ModelView, i: int, k: int, ws: WorkspaceView, r: Seq<SurfaceId>)
    requires
        0 <= i < m.windows.len(),
        0 <= k < m.windows[i].workspaces.len(),
        covers_ws(m.workspace(i, k), ws, r),
    ensures
        covers_model(m.windows, m.set_workspace(i, k, ws).windows, r),
{
    let m2 = m.set_workspace(i, k, ws);
    lemma_covers_set_workspace(m2, i, k, m.workspace(i, k), r);
    let m3 = m2.set_workspace(i, k, m.workspace(i, k));
    assert(m3.windows[i].workspaces =~= m.windows[i].workspaces);
    assert(m3.windows =~= m.windows);
}

proof fn lemma_back_set_pane(m: ModelView, i: int, k: int, p: int, pane: PaneView, r: Seq<SurfaceId>)
    requires
        0 <= i < m.windows.len(),
        0 <= k < m.windows[i].workspaces.len(),
        0 <= p < m.workspace(i, k).panes.len(),
        covers_pane(m.pane(i, k, p), pane, r),
    ensures
        covers_model(m.windows, m.set_pane(i, k, p, pane).windows, r),
{
    let m2 = m.set_pane(i, k, p, pane);
    lemma_covers_set_pane(m2, i, k, p, m.pane(i, k, p), r);
    let m3 = m2.set_pane(i, k, p, m.pane(i, k, p));
    assert(m3.windows[i].workspaces[k].panes =~= m.windows[i].workspaces[k].panes);
    assert(m3.windows[i].workspaces =~= m.windows[i].workspaces);
    assert(m3.windows =~= m.windows);
}

proof fn lemma_back_set_surface(m: ModelView, i: int, k: int, p: int, s: int, sv: SurfaceView, r: Seq<SurfaceId>)
    requires
        0 <= i < m.windows.len(),
        0 <= k < m.windows[i].workspaces.len(),
        0 <= p < m.workspace(i, k).panes.len(),
        0 <= s < m.pane(i, k, p).surfaces.len(),
        sv.id == m.surface(i, k, p, s).id,
        sv.kind == m.surface(i, k, p, s).kind,
    ensures
        covers_model(m.windows, m.set_surface(i, k, p, s, sv).windows, r),
{
    let pane = m.pane(i, k, p);
    let pane2 = PaneView { surfaces: pane.surfaces.update(s, sv), ..pane };
    lemma_covers_pane_same(pane, pane2, r);
    lemma_back_set_pane(m, i, k, p, pane2, r);
}

proof fn lemma_back_recompute(m: ModelView, i: int, k: int, r: Seq<SurfaceId>)
    requires
        0 <= i < m.windows.len(),
        0 <= k < m.windows[i].workspaces.len(),
    ensures
        covers_model(m.windows, m.set_workspace(i, k, recompute_workspace(m.workspace(i, k))).windows, r),
{
    let ws = m.workspace(i, k);
    lemma_covers_ws_same(ws, recompute_workspace(ws), r);
    lemma_back_set_workspace(m, i, k, recompute_workspace(ws), r);
}

proof fn lemma_back_select_workspace(m: ModelView, id: WorkspaceId)
    ensures
        covers_model(m.windows, m.select_workspace(id).0.windows, Seq::empty()),
{
    lemma_selected_window_loc(m);
    if let Ok(wi) = m.selected_window_loc() {
        let w = m.windows[wi];
        lemma_covers_win_same(w, WindowView { selected_workspace: id, ..w }, Seq::empty());
        lemma_back_set_window(m, wi, WindowView { selected_workspace: id, ..w }, Seq::empty());
    }
}

proof fn lemma_back_rename_workspace(m: ModelView, id: WorkspaceId, title: Seq<char>)
    ensures
        covers_model(m.windows, m.rename_workspace(id, title).0.windows, Seq::empty()),
{
    lemma_selected_window_loc(m);
    if let Ok(wi) = m.selected_window_loc() {
        let k = wsv_ix(m.windows[wi].workspaces, id);
        lemma_first_where_spec(m.windows[wi].workspaces, wsv_is(id));
        if k >= 0 {
            let ws2 = WorkspaceView { title, ..m.workspace(wi, k) };
            lemma_covers_ws_same(m.workspace(wi, k), ws2, Seq::empty());
            lemma_back_set_workspace(m, wi, k, ws2, Seq::empty());
        }
    }
}

proof fn lemma_back_select_pane(m: ModelView, id: PaneId)
    ensures
        covers_model(m.windows, m.select_pane(id).0.windows, Seq::empty()),
{
    lemma_selected_workspace_loc(m);
    if let Ok((wi, k)) = m.selected_workspace_loc() {
        let ws2 = WorkspaceView { selected_pane: id, ..m.workspace(wi, k) };
        lemma_covers_ws_same(m.workspace(wi, k), ws2, Seq::empty());
        lemma_back_set_workspace(m, wi, k, ws2, Seq::empty());
    }
}

proof fn lemma_back_select_surface(m: ModelView, id: SurfaceId)
    ensures
        covers_model(m.windows, m.select_surface(id).0.windows, Seq::empty()),
{
    lemma_selected_pane_loc(m);
    if let Ok((wi, k, p)) = m.selected_pane_loc() {
        let pane = m.pane(wi, k, p);
        let pane2 = PaneView { selected_surface: id, ..pane };
        lemma_covers_pane_same(pane, pane2, Seq::empty());
        lemma_back_set_pane(m, wi, k, p, pane2, Seq::empty());
    }
}

proof fn lemma_back_mark_surface_read(m: ModelView, id: SurfaceId)
    ensures
        covers_model(m.windows, m.mark_surface_read(id).0.windows, Seq::empty()),
{
    lemma_surface_loc(m, id);
    if let Some((wi, k, p, s)) = m.surface_loc(id) {
        let sv = SurfaceView { unread: false, unread_message: None, unread_sequence: None, ..m.surface(wi, k, p, s) };
        lemma_back_set_surface(m, wi, k, p, s, sv, Seq::empty());
        let m1 = m.set_surface(wi, k, p, s, sv);
        lemma_back_recompute(m1, wi, k, Seq::empty());
        lemma_covers_model_trans(
            m.windows,
            m1.windows,
            m1.set_workspace(wi, k, recompute_workspace(m1.workspace(wi, k))).windows,
            Seq::empty(),
        );
    }
}

proof fn lemma_back_rename_surface(m: ModelView, id: SurfaceId, title: Seq<char>)
    ensures
        covers_model(m.windows, m.rename_surface(id, title).0.windows, Seq::empty()),
{
    lemma_surface_loc(m, id);
    if let Some((wi, k, p, s)) = m.surface_loc(id) {
        lemma_back_set_surface(m, wi, k, p, s, SurfaceView { title, ..m.surface(wi, k, p, s) }, Seq::empty());
    }
}

proof fn lemma_back_jump(m: ModelView)
    ensures
        covers_model(m.windows, jump_to_target(m).0.windows, Seq::empty()),
{
    if let Some(t) = m.latest_unread_target {
        let (m1, r1) = m.select_workspace(t.workspace_id);
        lemma_back_select_workspace(m, t.workspace_id);
        let (m2, r2) = m1.select_pane(t.pane_id);
        lemma_back_select_pane(m1, t.pane_id);
        let (m3, r3) = m2.select_surface(t.surface_id);
        lemma_back_select_surface(m2, t.surface_id);
        let (m4, r4) = m3.mark_surface_read(t.surface_id);
        lemma_back_mark_surface_read(m3, t.surface_id);
        lemma_covers_model_trans(m.windows, m1.windows, m2.windows, Seq::empty());
        lemma_covers_model_trans(m.windows, m2.windows, m3.windows, Seq::empty());
        lemma_covers_model_trans(m.windows, m3.windows, m4.windows, Seq::empty());
    }
}

proof fn lemma_back_create_workspace(m: ModelView, cwd: Seq<char>, title: Option<Seq<char>>)
    ensures
        covers_model(m.windows, m.create_workspace(cwd, title).0.windows, seq![SurfaceId((m.next_id + 3) as u64)]),
{
    let n = m.next_id;
    let f = SurfaceId((n + 3) as u64);
    let r = seq![f];
    assert(r[0] == f);
    let m1 = m.with_ids((n + 3) as u64);
    lemma_selected_window_loc(m1);
    if let Ok(wi) = m1.selected_window_loc() {
        let res = m.create_workspace(cwd, title);
        let w = m1.windows[wi];
        let w2 = res.0.windows[wi];
        let x = w2.workspaces.last();
        assert(w2.workspaces == w.workspaces.push(x));
        assert forall|id: SurfaceId| ws_term(x, id) implies r.contains(id) by {
            let q = choose|q: int| 0 <= q < x.panes.len() && pane_term(#[trigger] x.panes[q], id);
            let s = choose|s: int| 0 <= s < x.panes[q].surfaces.len() && (#[trigger] x.panes[q].surfaces[s]).id == id
                && x.panes[q].surfaces[s].kind == SurfaceKind::Terminal;
            assert(id == f);
        }
        lemma_covers_win_pop(w, w2, x, r);
        lemma_back_set_window(m1, wi, w2, r);
        assert(res.0.windows == m1.set_window(wi, w2).windows);
    }
}

proof fn lemma_back_split(m: ModelView, axis: SplitAxis)
    ensures
        covers_model(m.windows, m.split_selected_pane(axis).0.windows, seq![SurfaceId((m.next_id + 2) as u64)]),
{
    let f = SurfaceId((m.next_id + 2) as u64);
    let r = seq![f];
    assert(r[0] == f);
    lemma_selected_workspace_loc(m);
    if let Ok((wi, k)) = m.selected_workspace_loc() {
        let ws = m.workspace(wi, k);
        let p = pv_ix(ws.panes, ws.selected_pane);
        if !(ws.layout is Split) && p >= 0 {
            let res = m.split_selected_pane(axis);
            let m1 = m.with_ids((m.next_id + 2) as u64);
            let ws2 = res.0.workspace(wi, k);
            let x = ws2.panes.last();
            assert(ws2.panes == ws.panes.push(x));
            assert forall|id: SurfaceId| pane_term(x, id) implies r.contains(id) by {
                let s = choose|s: int| 0 <= s < x.surfaces.len() && (#[trigger] x.surfaces[s]).id == id && x.surfaces[s].kind
                    == SurfaceKind::Terminal;
                assert(id == f);
            }
            lemma_covers_ws_pop(ws, ws2, x, r);
            lemma_back_set_workspace(m1, wi, k, ws2, r);
            assert(res.0 == m1.set_workspace(wi, k, ws2));
        }
    }
}

proof fn lemma_back_open_terminal(m: ModelView)
    ensures
        covers_model(m.windows, m.open_terminal_surface().0.windows, seq![SurfaceId((m.next_id + 1) as u64)]),
{
    let f = SurfaceId((m.next_id + 1) as u64);
    let r = seq![f];
    assert(r[0] == f);
    let m1 = m.with_ids((m.next_id + 1) as u64);
    lemma_selected_pane_loc(m1);
    if let Ok((wi, k, p)) = m1.selected_pane_loc() {
        let pane = m1.pane(wi, k, p);
        let x = terminal_surface_view(f);
        let pane2 = PaneView { surfaces: pane.surfaces.push(x), selected_surface: x.id, ..pane };
        lemma_covers_pane_pop(pane, pane2, x, r);
        lemma_back_set_pane(m1, wi, k, p, pane2, r);
    }
}

proof fn lemma_back_close_workspace(m: ModelView, id: WorkspaceId)
    ensures
        covers_model(m.windows, m.close_workspace(id).0.windows, Seq::empty()),
{
    lemma_selected_window_loc(m);
    if let Ok(wi) = m.selected_window_loc() {
        let w = m.windows[wi];
        let k = wsv_ix(w.workspaces, id);
        lemma_first_where_spec(w.workspaces, wsv_is(id));
        if w.workspaces.len() != 1 && k >= 0 {
            let rest = w.workspaces.remove(k);
            let res = m.close_workspace(id);
            let sel = if w.selected_workspace == id {
                rest[if k == 0 { 0 } else { k - 1 }].id
            } else {
                w.selected_workspace
            };
            let w2 = WindowView { workspaces: rest, selected_workspace: sel, ..w };
            lemma_covers_win_unremove(w, w2, k, Seq::empty());
            lemma_back_set_window(m, wi, w2, Seq::empty());
            assert(res.0.windows == m.set_window(wi, w2).windows);
        }
    }
}

proof fn lemma_back_close_pane(m: ModelView, id: PaneId)
    ensures
        covers_model(m.windows, m.close_pane(id).0.windows, Seq::empty()),
{
    lemma_selected_workspace_loc(m);
    if let Ok((wi, k)) = m.selected_workspace_loc() {
        let ws = m.workspace(wi, k);
        let p = pv_ix(ws.panes, id);
        lemma_first_where_spec(ws.panes, pv_is(id));
        if ws.panes.len() != 1 && p >= 0 {
            let removed = ws.panes[p].surfaces.map_values(|s: SurfaceView| s.id);
            let rest = ws.panes.remove(p);
            let remaining = rest[0].id;
            let ws2 = recompute_workspace(
                WorkspaceView { panes: rest, selected_pane: remaining, layout: SplitTree::Leaf(remaining), ..ws },
            );
            lemma_covers_ws_unremove(ws, ws2, p, Seq::empty());
            lemma_back_set_workspace(m, wi, k, ws2, Seq::empty());
        }
    }
}

/// Whether `close_surface` puts a new terminal in place of the last surface of the pane.
pub open spec fn close_adds(m: ModelView, id: SurfaceId) -> Seq<SurfaceId> {
    if m.close_surface_replaces(id) {
        seq![SurfaceId((m.next_id + 1) as u64)]
    } else {
        Seq::empty()
    }
}

proof fn lemma_back_close_surface(m: ModelView, id: SurfaceId)
    ensures
        covers_model(m.windows, m.close_surface(id).0.windows, close_adds(m, id)),
{
    let r = close_adds(m, id);
    lemma_selected_pane_loc(m);
    if let Ok((wi, k, p)) = m.selected_pane_loc() {
        let pane = m.pane(wi, k, p);
        let s = sv_ix(pane.surfaces, id);
        lemma_first_where_spec(pane.surfaces, sv_is(id));
        if s >= 0 {
            let removed = seq![id];
            let rest = pane.surfaces.remove(s);
            let m1 = if rest.len() == 0 {
                let rid = SurfaceId((m.next_id + 1) as u64);
                assert(r[0] == rid);
                let pane2 = PaneView { surfaces: seq![terminal_surface_view(rid)], selected_surface: rid, ..pane };
                let mm = m.with_ids((m.next_id + 1) as u64);
                assert forall|x: SurfaceId| #[trigger] pane_term(pane2, x) && !r.contains(x) implies pane_term(pane, x) by {
                    assert(pane2.surfaces[0].id == rid);
                }
                lemma_back_set_pane(mm, wi, k, p, pane2, r);
                mm.set_pane(wi, k, p, pane2)
            } else {
                let pane2 = PaneView {
                    surfaces: rest,
                    selected_surface: rest[if s == 0 { 0 } else { s - 1 }].id,
                    ..pane
                };
                lemma_covers_pane_unremove(pane, pane2, s, r);
                lemma_back_set_pane(m, wi, k, p, pane2, r);
                m.set_pane(wi, k, p, pane2)
            };
            let m2 = m1.clear_target_if_removed(removed);
            assert(m2.windows == m1.windows);
            lemma_back_recompute(m2, wi, k, r);
            lemma_covers_model_trans(
                m.windows,
                m2.windows,
                m2.set_workspace(wi, k, recompute_workspace(m2.workspace(wi, k))).windows,
                r,
            );
        }
    }
}

pub open spec fn valid_pos(m: ModelView, i: int, k: int, p: int, s: int) -> bool {
    &&& 0 <= i < m.windows.len()
    &&& 0 <= k < m.windows[i].workspaces.len()
    &&& 0 <= p < m.workspace(i, k).panes.len()
    &&& 0 <= s < m.pane(i, k, p).surfaces.len()
}

pub type Pos = (int, int, int, int);

pub open spec fn pos_valid(m: ModelView, q: Pos) -> bool {
    valid_pos(m, q.0, q.1, q.2, q.3)
}

pub open spec fn pos_id(m: ModelView, q: Pos) -> SurfaceId {
    m.surface(q.0, q.1, q.2, q.3).id
}

/// No two surfaces of the model share an id.
pub open spec fn unique_surface_ids(m: ModelView) -> bool {
    forall|a: Pos, b: Pos|
        pos_valid(m, a) && pos_valid(m, b) && #[trigger] pos_id(m, a) == #[trigger] pos_id(m, b) ==> a == b
}

pub(crate) proof fn lemma_unique_pos(m: ModelView, i1: int, k1: int, p1: int, s1: int, i2: int, k2: int, p2: int, s2: int)
    requires
        unique_surface_ids(m),
        valid_pos(m, i1, k1, p1, s1),
        valid_pos(m, i2, k2, p2, s2),
        m.surface(i1, k1, p1, s1).id == m.surface(i2, k2, p2, s2).id,
    ensures
        i1 == i2 && k1 == k2 && p1 == p2 && s1 == s2,
{
    let a = (i1, k1, p1, s1);
    let b = (i2, k2, p2, s2);
    assert(pos_id(m, a) == pos_id(m, b));
}

/// A terminal of window `i` sits at some position of it.
proof fn lemma_win_term_pos(m: ModelView, i: int, id: SurfaceId) -> (r: (int, int, int))
    requires
        0 <= i < m.windows.len(),
        win_term(m.windows[i], id),
    ensures
        valid_pos(m, i, r.0, r.1, r.2),
        m.surface(i, r.0, r.1, r.2).id == id,
{
    let w = m.windows[i];
    let k = choose|k: int| 0 <= k < w.workspaces.len() && ws_term(#[trigger] w.workspaces[k], id);
    let ws = w.workspaces[k];
    let p = choose|p: int| 0 <= p < ws.panes.len() && pane_term(#[trigger] ws.panes[p], id);
    let pane = ws.panes[p];
    let s = choose|s: int| 0 <= s < pane.surfaces.len() && (#[trigger] pane.surfaces[s]).id == id && pane.surfaces[s].kind
        == SurfaceKind::Terminal;
    (k, p, s)
}

proof fn lemma_ws_term_pos(m: ModelView, i: int, k: int, id: SurfaceId) -> (r: (int, int))
    requires
        0 <= i < m.windows.len(),
        0 <= k < m.windows[i].workspaces.len(),
        ws_term(m.workspace(i, k), id),
    ensures
        valid_pos(m, i, k, r.0, r.1),
        m.surface(i, k, r.0, r.1).id == id,
{
    let ws = m.workspace(i, k);
    let p = choose|p: int| 0 <= p < ws.panes.len() && pane_term(#[trigger] ws.panes[p], id);
    let pane = ws.panes[p];
    let s = choose|s: int| 0 <= s < pane.surfaces.len() && (#[trigger] pane.surfaces[s]).id == id && pane.surfaces[s].kind
        == SurfaceKind::Terminal;
    (p, s)
}

proof fn lemma_pane_term_pos(m: ModelView, i: int, k: int, p: int, id: SurfaceId) -> (s: int)
    requires
        0 <= i < m.windows.len(),
        0 <= k < m.windows[i].workspaces.len(),
        0 <= p < m.workspace(i, k).panes.len(),
        pane_term(m.pane(i, k, p), id),
    ensures
        valid_pos(m, i, k, p, s),
        m.surface(i, k, p, s).id == id,
{
    let pane = m.pane(i, k, p);
    choose|s: int| 0 <= s < pane.surfaces.len() && (#[trigger] pane.surfaces[s]).id == id && pane.surfaces[s].kind
        == SurfaceKind::Terminal
}

pub(crate) proof fn lemma_panes_surface_ids_pos(ps: Seq<PaneView>, x: SurfaceId) -> (r: (int, int))
    requires
        panes_surface_ids(ps).contains(x),
    ensures
        0 <= r.0 < ps.len(),
        0 <= r.1 < ps[r.0].surfaces.len(),
        ps[r.0].surfaces[r.1].id == x,
    decreases ps.len(),
{
    let t = ps.drop_last();
    let prev = panes_surface_ids(t);
    let last = ps.last().surfaces.map_values(|s: SurfaceView| s.id);
    assert(panes_surface_ids(ps) == prev + last);
    let j = choose|j: int| 0 <= j < (prev + last).len() && (prev + last)[j] == x;
    if j < prev.len() {
        assert(prev[j] == x);
        let (p, s) = lemma_panes_surface_ids_pos(t, x);
        assert(t[p] == ps[p]);
        (p, s)
    } else {
        let s = j - prev.len();
        assert(last[s] == x);
        (ps.len() - 1, s)
    }
}

/// A terminal after window `i` is replaced by `w` is a terminal of `w`, or one of another
/// window of the model, at the position returned.
proof fn lemma_term_after_set_window(m: ModelView, i: int, w: WindowView, x: SurfaceId) -> (r: Option<(int, int, int, int)>)
    requires
        0 <= i < m.windows.len(),
        model_term(m.set_window(i, w).windows, x),
    ensures
        match r {
            Some(q) => valid_pos(m, q.0, q.1, q.2, q.3) && q.0 != i && m.surface(q.0, q.1, q.2, q.3).id == x,
            None => win_term(w, x),
        },
{
    let n = m.set_window(i, w).windows;
    let i2 = choose|i2: int| 0 <= i2 < n.len() && win_term(#[trigger] n[i2], x);
    if i2 == i {
        None
    } else {
        assert(n[i2] == m.windows[i2]);
        let (k, p, s) = lemma_win_term_pos(m, i2, x);
        Some((i2, k, p, s))
    }
}

proof fn lemma_term_after_set_workspace(m: ModelView, i: int, k: int, ws: WorkspaceView, x: SurfaceId) -> (r: Option<
    (int, int, int, int),
>)
    requires
        0 <= i < m.windows.len(),
        0 <= k < m.windows[i].workspaces.len(),
        model_term(m.set_workspace(i, k, ws).windows, x),
    ensures
        match r {
            Some(q) => valid_pos(m, q.0, q.1, q.2, q.3) && (q.0 != i || q.1 != k) && m.surface(q.0, q.1, q.2, q.3).id == x,
            None => ws_term(ws, x),
        },
{
    let w = m.windows[i];
    let w2 = WindowView { workspaces: w.workspaces.update(k, ws), ..w };
    match lemma_term_after_set_window(m, i, w2, x) {
        Some(q) => Some(q),
        None => {
            let k2 = choose|k2: int| 0 <= k2 < w2.workspaces.len() && ws_term(#[trigger] w2.workspaces[k2], x);
            if k2 == k {
                None
            } else {
                assert(w2.workspaces[k2] == m.workspace(i, k2));
                let (p, s) = lemma_ws_term_pos(m, i, k2, x);
                Some((i, k2, p, s))
            }
        },
    }
}

proof fn lemma_term_after_set_pane(m: ModelView, i: int, k: int, p: int, pane: PaneView, x: SurfaceId) -> (r: Option<
    (int, int, int, int),
>)
    requires
        0 <= i < m.windows.len(),
        0 <= k < m.windows[i].workspaces.len(),
        0 <= p < m.workspace(i, k).panes.len(),
        model_term(m.set_pane(i, k, p, pane).windows, x),
    ensures
        match r {
            Some(q) => valid_pos(m, q.0, q.1, q.2, q.3) && (q.0 != i || q.1 != k || q.2 != p) && m.surface(
                q.0,
                q.1,
                q.2,
                q.3,
            ).id == x,
            None => pane_term(pane, x),
        },
{
    let ws = m.workspace(i, k);
    let ws2 = WorkspaceView { panes: ws.panes.update(p, pane), ..ws };
    match lemma_term_after_set_workspace(m, i, k, ws2, x) {
        Some(q) => Some(q),
        None => {
            let p2 = choose|p2: int| 0 <= p2 < ws2.panes.len() && pane_term(#[trigger] ws2.panes[p2], x);
            if p2 == p {
                None
            } else {
                assert(ws2.panes[p2] == m.pane(i, k, p2));
                let s = lemma_pane_term_pos(m, i, k, p2, x);
                Some((i, k, p2, s))
            }
        },
    }
}

proof fn lemma_close_workspace_avoids(m: ModelView, id: WorkspaceId, x: SurfaceId)
    requires
        unique_surface_ids(m),
        model_term(m.close_workspace(id).0.windows, x),
    ensures
        !removed_ids(m.close_workspace(id).1).contains(x),
{
    lemma_selected_window_loc(m);
    if let Ok(wi) = m.selected_window_loc() {
        let w = m.windows[wi];
        let k = wsv_ix(w.workspaces, id);
        lemma_first_where_spec(w.workspaces, wsv_is(id));
        if w.workspaces.len() != 1 && k >= 0 {
            let removed = panes_surface_ids(w.workspaces[k].panes);
            let rest = w.workspaces.remove(k);
            let sel = if w.selected_workspace == id {
                rest[if k == 0 { 0 } else { k - 1 }].id
            } else {
                w.selected_workspace
            };
            let w2 = WindowView { workspaces: rest, selected_workspace: sel, ..w };
            assert(m.close_workspace(id).0.windows == m.set_window(wi, w2).windows);
            if removed.contains(x) {
                let (p2, s2) = lemma_panes_surface_ids_pos(w.workspaces[k].panes, x);
                match lemma_term_after_set_window(m, wi, w2, x) {
                    Some(q) => {
                        lemma_unique_pos(m, q.0, q.1, q.2, q.3, wi, k, p2, s2);
                    },
                    None => {
                        let k2 = choose|k2: int| 0 <= k2 < rest.len() && ws_term(#[trigger] rest[k2], x);
                        let k3 = if k2 < k { k2 } else { k2 + 1 };
                        assert(rest[k2] == m.workspace(wi, k3));
                        let (p1, s1) = lemma_ws_term_pos(m, wi, k3, x);
                        lemma_unique_pos(m, wi, k3, p1, s1, wi, k, p2, s2);
                    },
                }
            }
        }
    }
}

proof fn lemma_close_pane_avoids(m: ModelView, id: PaneId, x: SurfaceId)
    requires
        unique_surface_ids(m),
        model_term(m.close_pane(id).0.windows, x),
    ensures
        !removed_ids(m.close_pane(id).1).contains(x),
{
    lemma_selected_workspace_loc(m);
    if let Ok((wi, k)) = m.selected_workspace_loc() {
        let ws = m.workspace(wi, k);
        let p = pv_ix(ws.panes, id);
        lemma_first_where_spec(ws.panes, pv_is(id));
        if ws.panes.len() != 1 && p >= 0 {
            let removed = ws.panes[p].surfaces.map_values(|s: SurfaceView| s.id);
            let rest = ws.panes.remove(p);
            let remaining = rest[0].id;
            let ws2 = recompute_workspace(
                WorkspaceView { panes: rest, selected_pane: remaining, layout: SplitTree::Leaf(remaining), ..ws },
            );
            assert(m.close_pane(id).0.windows == m.set_workspace(wi, k, ws2).windows);
            if removed.contains(x) {
                let j = choose|j: int| 0 <= j < removed.len() && removed[j] == x;
                assert(m.surface(wi, k, p, j).id == x);
                match lemma_term_after_set_workspace(m, wi, k, ws2, x) {
                    Some(q) => {
                        lemma_unique_pos(m, q.0, q.1, q.2, q.3, wi, k, p, j);
                    },
                    None => {
                        let p2 = choose|p2: int| 0 <= p2 < rest.len() && pane_term(#[trigger] rest[p2], x);
                        let p3 = if p2 < p { p2 } else { p2 + 1 };
                        assert(rest[p2] == m.pane(wi, k, p3));
                        let s1 = lemma_pane_term_pos(m, wi, k, p3, x);
                        lemma_unique_pos(m, wi, k, p3, s1, wi, k, p, j);
                    },
                }
            }
        }
    }
}

proof fn lemma_close_surface_avoids(m: ModelView, id: SurfaceId, x: SurfaceId)
    requires
        unique_surface_ids(m),
        model_term(m.close_surface(id).0.windows, x),
        !close_adds(m, id).contains(x),
    ensures
        !removed_ids(m.close_surface(id).1).contains(x),
{
    lemma_selected_pane_loc(m);
    if let Ok((wi, k, p)) = m.selected_pane_loc() {
        let pane = m.pane(wi, k, p);
        let s = sv_ix(pane.surfaces, id);
        lemma_first_where_spec(pane.surfaces, sv_is(id));
        if s >= 0 {
            let removed = seq![id];
            let rest = pane.surfaces.remove(s);
            let mm = if rest.len() == 0 { m.with_ids((m.next_id + 1) as u64) } else { m };
            let rid = SurfaceId((m.next_id + 1) as u64);
            let pane2 = if rest.len() == 0 {
                PaneView { surfaces: seq![terminal_surface_view(rid)], selected_surface: rid, ..pane }
            } else {
                PaneView { surfaces: rest, selected_surface: rest[if s == 0 { 0 } else { s - 1 }].id, ..pane }
            };
            let m1 = mm.set_pane(wi, k, p, pane2);
            let m2 = m1.clear_target_if_removed(removed);
            let m3 = m2.set_workspace(wi, k, recompute_workspace(m2.workspace(wi, k)));
            assert(m.close_surface(id).0 == m3);
            lemma_back_recompute(m2, wi, k, Seq::empty());
            assert(!Seq::<SurfaceId>::empty().contains(x));
            assert(model_term(m1.windows, x));
            if x == id {
                assert(m.surface(wi, k, p, s).id == id);
                match lemma_term_after_set_pane(mm, wi, k, p, pane2, x) {
                    Some(q) => {
                        lemma_unique_pos(m, q.0, q.1, q.2, q.3, wi, k, p, s);
                    },
                    None => {
                        if rest.len() == 0 {
                            let j = choose|j: int| 0 <= j < pane2.surfaces.len() && (#[trigger] pane2.surfaces[j]).id == x
                                && pane2.surfaces[j].kind == SurfaceKind::Terminal;
                            assert(close_adds(m, id)[0] == rid);
                            assert(false);
                        } else {
                            let j = choose|j: int| 0 <= j < rest.len() && (#[trigger] rest[j]).id == x
                                && rest[j].kind == SurfaceKind::Terminal;
                            let j2 = if j < s { j } else { j + 1 };
                            assert(rest[j] == m.surface(wi, k, p, j2));
                            lemma_unique_pos(m, wi, k, p, j2, wi, k, p, s);
                        }
                    },
                }
            }
        }
    }
}

pub(crate) proof fn lemma_term_at(m: ModelView, i: int, k: int, p: int, s: int)
    requires
        valid_pos(m, i, k, p, s),
        m.surface(i, k, p, s).kind == SurfaceKind::Terminal,
    ensures
        model_term(m.windows, m.surface(i, k, p, s).id),
{
    let id = m.surface(i, k, p, s).id;
    assert(pane_term(m.pane(i, k, p), id));
    assert(ws_term(m.workspace(i, k), id));
    assert(win_term(m.windows[i], id));
}

pub(crate) proof fn lemma_spawn_surface_adds(m: ModelView, reg: Map<u64, EntryView>, id: SurfaceId, sp: Seq<SurfaceId>)
    requires
        model_term(m.windows, id),
    ensures
        spawn_surface(m, reg, id, sp).0.dom().contains(id.0),
        forall|x: u64| reg.dom().contains(x) ==> #[trigger] spawn_surface(m, reg, id, sp).0.dom().contains(x),
{
    lemma_terminal_specs(m.windows, id);
    let specs = terminal_specs(m.windows);
    let j = choose|j: int| 0 <= j < specs.len() && (#[trigger] specs[j]).surface_id == id;
    lemma_first_where_spec(specs, spec_for(id));
    assert(spec_for(id)(specs[j]));
}

proof fn lemma_spawn_surface_keeps(m: ModelView, reg: Map<u64, EntryView>, id: SurfaceId, sp: Seq<SurfaceId>)
    ensures
        forall|x: u64| reg.dom().contains(x) ==> #[trigger] spawn_surface(m, reg, id, sp).0.dom().contains(x),
{
}

proof fn lemma_spawn_selected_keeps(m: ModelView, reg: Map<u64, EntryView>, sp: Seq<SurfaceId>)
    ensures
        forall|x: u64| reg.dom().contains(x) ==> #[trigger] spawn_selected(m, reg, sp).0.dom().contains(x),
{
    if let Ok((wi, k, p)) = m.selected_pane_loc() {
        lemma_spawn_surface_keeps(m, reg, m.pane(wi, k, p).selected_surface, sp);
    }
}

/// When the selected pane's selected surface is a terminal, `spawn_selected` registers it.
proof fn lemma_spawn_selected_adds(m: ModelView, reg: Map<u64, EntryView>, sp: Seq<SurfaceId>, i: int, k: int, p: int, s: int)
    requires
        m.selected_pane_loc() == Ok::<(int, int, int), ModelError>((i, k, p)),
        valid_pos(m, i, k, p, s),
        sv_ix(m.pane(i, k, p).surfaces, m.pane(i, k, p).selected_surface) == s,
        m.surface(i, k, p, s).kind == SurfaceKind::Terminal,
    ensures
        spawn_selected(m, reg, sp).0.dom().contains(m.pane(i, k, p).selected_surface.0),
{
    let pane = m.pane(i, k, p);
    lemma_first_where_spec(pane.surfaces, sv_is(pane.selected_surface));
    assert(pane.surfaces[s].id == pane.selected_surface);
    lemma_term_at(m, i, k, p, s);
    lemma_spawn_surface_adds(m, reg, pane.selected_surface, sp);
}

pub(crate) proof fn lemma_create_spawns(m: ModelView, cwd: Seq<char>, title: Option<Seq<char>>, reg: Map<u64, EntryView>)
    requires
        m.wf(),
        m.next_id + 3 <= u64::MAX,
        m.create_workspace(cwd, title).1 is Ok,
    ensures
        spawn_selected(m.create_workspace(cwd, title).0, reg, Seq::empty()).0.dom().contains((m.next_id + 3) as u64),
{
    let n = m.next_id;
    let m1 = m.with_ids((n + 3) as u64);
    lemma_selected_window_loc(m1);
    let wi = m1.selected_window_loc().unwrap();
    let res = m.create_workspace(cwd, title);
    let m2 = res.0;
    let w = m1.windows[wi];
    let w2 = m2.windows[wi];
    assert(m2.windows == m1.windows.update(wi, w2));
    lemma_first_where_update(m1.windows, wi, w2, wv_is(m.selected_window));
    assert(m2.selected_window_loc() == Ok::<int, ModelError>(wi));
    let len = w.workspaces.len() as int;
    let nws = w2.workspaces.last();
    assert(w2.workspaces == w.workspaces.push(nws));
    assert(window_wf(m.windows[wi], n));
    assert forall|j: int| 0 <= j < w.workspaces.len() implies !wsv_is(WorkspaceId((n + 1) as u64))(#[trigger] w.workspaces[j]) by {
        assert(workspace_wf(w.workspaces[j], n));
    }
    lemma_first_where_push(w.workspaces, nws, wsv_is(WorkspaceId((n + 1) as u64)));
    assert(m2.selected_workspace_loc() == Ok::<(int, int), ModelError>((wi, len)));
    assert(m2.workspace(wi, len) == nws);
    assert(pv_is(PaneId((n + 2) as u64))(nws.panes[0]));
    lemma_first_where_spec(nws.panes, pv_is(PaneId((n + 2) as u64)));
    assert(m2.selected_pane_loc() == Ok::<(int, int, int), ModelError>((wi, len, 0)));
    let pane = m2.pane(wi, len, 0);
    assert(sv_is(SurfaceId((n + 3) as u64))(pane.surfaces[0]));
    lemma_first_where_spec(pane.surfaces, sv_is(pane.selected_surface));
    lemma_spawn_selected_adds(m2, reg, Seq::empty(), wi, len, 0, 0);
}

pub(crate) proof fn lemma_split_spawns(m: ModelView, axis: SplitAxis, reg: Map<u64, EntryView>)
    requires
        m.wf(),
        m.next_id + 2 <= u64::MAX,
        m.split_selected_pane(axis).1 is Ok,
    ensures
        spawn_selected(m.split_selected_pane(axis).0, reg, Seq::empty()).0.dom().contains((m.next_id + 2) as u64),
{
    let n = m.next_id;
    lemma_selected_workspace_loc(m);
    let (wi, k) = m.selected_workspace_loc().unwrap();
    let ws = m.workspace(wi, k);
    let m1 = m.with_ids((n + 2) as u64);
    let res = m.split_selected_pane(axis);
    let m2 = res.0;
    let ws2 = m2.workspace(wi, k);
    let w = m.windows[wi];
    let w2 = m2.windows[wi];
    assert(m2.windows == m.windows.update(wi, w2));
    assert(w2.workspaces == w.workspaces.update(k, ws2));
    lemma_first_where_update(m.windows, wi, w2, wv_is(m.selected_window));
    lemma_first_where_update(w.workspaces, k, ws2, wsv_is(w.selected_workspace));
    assert(m2.selected_workspace_loc() == Ok::<(int, int), ModelError>((wi, k)));
    let np = ws2.panes.last();
    assert(ws2.panes == ws.panes.push(np));
    assert(window_wf(m.windows[wi], n));
    assert(workspace_wf(ws, n));
    assert forall|j: int| 0 <= j < ws.panes.len() implies !pv_is(PaneId((n + 1) as u64))(#[trigger] ws.panes[j]) by {
        assert(pane_wf(ws.panes[j], n));
    }
    lemma_first_where_push(ws.panes, np, pv_is(PaneId((n + 1) as u64)));
    let len = ws.panes.len() as int;
    assert(m2.selected_pane_loc() == Ok::<(int, int, int), ModelError>((wi, k, len)));
    let pane = m2.pane(wi, k, len);
    assert(pane == np);
    assert(sv_is(SurfaceId((n + 2) as u64))(pane.surfaces[0]));
    lemma_first_where_spec(pane.surfaces, sv_is(pane.selected_surface));
    lemma_spawn_selected_adds(m2, reg, Seq::empty(), wi, k, len, 0);
}

pub(crate) proof fn lemma_open_terminal_term(m: ModelView)
    requires
        m.open_terminal_surface().1 is Ok,
    ensures
        model_term(m.open_terminal_surface().0.windows, SurfaceId((m.next_id + 1) as u64)),
{
    let m1 = m.with_ids((m.next_id + 1) as u64);
    lemma_selected_pane_loc(m1);
    let (wi, k, p) = m1.selected_pane_loc().unwrap();
    let m2 = m.open_terminal_surface().0;
    let last = m1.pane(wi, k, p).surfaces.len() as int;
    assert(m2.surface(wi, k, p, last).id == SurfaceId((m.next_id + 1) as u64));
    lemma_term_at(m2, wi, k, p, last);
}

pub(crate) proof fn lemma_close_surface_spawns(m: ModelView, id: SurfaceId, reg: Map<u64, EntryView>)
    requires
        m.close_surface_replaces(id),
    ensures
        spawn_selected(m.close_surface(id).0, reg, Seq::empty()).0.dom().contains((m.next_id + 1) as u64),
{
    lemma_selected_pane_loc(m);
    let (wi, k, p) = m.selected_pane_loc().unwrap();
    let pane = m.pane(wi, k, p);
    let s = sv_ix(pane.surfaces, id);
    lemma_first_where_spec(pane.surfaces, sv_is(id));
    let rid = SurfaceId((m.next_id + 1) as u64);
    let pane2 = PaneView { surfaces: seq![terminal_surface_view(rid)], selected_surface: rid, ..pane };
    let mm = m.with_ids((m.next_id + 1) as u64);
    let m1 = mm.set_pane(wi, k, p, pane2);
    let m2 = m1.clear_target_if_removed(seq![id]);
    let ws1 = m2.workspace(wi, k);
    let m3 = m2.set_workspace(wi, k, recompute_workspace(ws1));
    assert(m.close_surface(id).0 == m3);
    let w = m.windows[wi];
    let ws = m.workspace(wi, k);
    let ws_a = WorkspaceView { panes: ws.panes.update(p, pane2), ..ws };
    let w_a = WindowView { workspaces: w.workspaces.update(k, ws_a), ..w };
    assert(m1.windows == m.windows.update(wi, w_a));
    lemma_first_where_update(m.windows, wi, w_a, wv_is(m.selected_window));
    lemma_first_where_update(w.workspaces, k, ws_a, wsv_is(w.selected_workspace));
    lemma_first_where_update(ws.panes, p, pane2, pv_is(ws.selected_pane));
    assert(ws1 == ws_a);
    let ws_b = recompute_workspace(ws1);
    let w_b = WindowView { workspaces: w_a.workspaces.update(k, ws_b), ..w_a };
    assert(m3.windows == m1.windows.update(wi, w_b));
    lemma_first_where_update(m1.windows, wi, w_b, wv_is(m.selected_window));
    lemma_first_where_update(w_a.workspaces, k, ws_b, wsv_is(w.selected_workspace));
    assert(m3.selected_pane_loc() == Ok::<(int, int, int), ModelError>((wi, k, p)));
    assert(m3.pane(wi, k, p) == pane2);
    assert(sv_is(rid)(pane2.surfaces[0]));
    lemma_first_where_spec(pane2.surfaces, sv_is(rid));
    lemma_spawn_selected_adds(m3, reg, Seq::empty(), wi, k, p, 0);
}

/// Every terminal surface of the windows has its terminal registered.
pub open spec fn every_terminal_registered(reg: Map<u64, EntryView>, wins: Seq<WindowView>) -> bool {
    forall|x: SurfaceId| #[trigger] model_term(wins, x) ==> reg.dom().contains(x.0)
}

proof fn lemma_registered_keep(reg: Map<u64, EntryView>, o: Seq<WindowView>, n: Seq<WindowView>)
    requires
        every_terminal_registered(reg, o),
        covers_model(o, n, Seq::empty()),
    ensures
        every_terminal_registered(reg, n),
{
    assert forall|x: SurfaceId| #[trigger] model_term(n, x) implies reg.dom().contains(x.0) by {
        assert(!Seq::<SurfaceId>::empty().contains(x));
    }
}

proof fn lemma_run_action_registered(m: ModelView, reg: Map<u64, EntryView>, a: ActionView)
    requires
        m.wf(),
        unique_surface_ids(m),
        ids_suffice(m, a),
        every_terminal_registered(reg, m.windows),
    ensures
        every_terminal_registered(run_action(m, reg, a).1, run_action(m, reg, a).0.windows),
{
    let empty = Seq::<SurfaceId>::empty();
    match a {
        ActionView::NewWorkspace { cwd, title } => {
            let (m1, r) = m.create_workspace(cwd, title);
            if r is Ok {
                let f = SurfaceId((m.next_id + 3) as u64);
                lemma_back_create_workspace(m, cwd, title);
                let reg2 = spawn_selected(m1, reg, empty).0;
                lemma_spawn_selected_keeps(m1, reg, empty);
                lemma_create_spawns(m, cwd, title, reg);
                assert forall|x: SurfaceId| #[trigger] model_term(m1.windows, x) implies reg2.dom().contains(x.0) by {
                    if x != f {
                        assert(seq![f][0] == f);
                        assert(!seq![f].contains(x));
                    }
                }
            }
        },
        ActionView::SelectWorkspace(id) => {
            lemma_back_select_workspace(m, id);
            lemma_registered_keep(reg, m.windows, m.select_workspace(id).0.windows);
        },
        ActionView::RenameWorkspace { workspace_id, title } => {
            lemma_back_rename_workspace(m, workspace_id, title);
            lemma_registered_keep(reg, m.windows, m.rename_workspace(workspace_id, title).0.windows);
        },
        ActionView::RenameSurface { surface_id, title } => {
            lemma_back_rename_surface(m, surface_id, title);
            lemma_registered_keep(reg, m.windows, m.rename_surface(surface_id, title).0.windows);
        },
        ActionView::CloseWorkspace(id) => {
            let (m1, r) = m.close_workspace(id);
            lemma_back_close_workspace(m, id);
            let reg2 = remove_all(reg, removed_ids(r));
            assert forall|x: SurfaceId| #[trigger] model_term(m1.windows, x) implies reg2.dom().contains(x.0) by {
                assert(!empty.contains(x));
                lemma_close_workspace_avoids(m, id, x);
                lemma_remove_all_dom(reg, removed_ids(r), x.0);
            }
        },
        ActionView::SplitPane(axis) => {
            let (m1, r) = m.split_selected_pane(axis);
            if r is Ok {
                let f = SurfaceId((m.next_id + 2) as u64);
                lemma_back_split(m, axis);
                let reg2 = spawn_selected(m1, reg, empty).0;
                lemma_spawn_selected_keeps(m1, reg, empty);
                lemma_split_spawns(m, axis, reg);
                assert forall|x: SurfaceId| #[trigger] model_term(m1.windows, x) implies reg2.dom().contains(x.0) by {
                    if x != f {
                        assert(seq![f][0] == f);
                        assert(!seq![f].contains(x));
                    }
                }
            }
        },
        ActionView::ClosePane(id) => {
            let (m1, r) = m.close_pane(id);
            lemma_back_close_pane(m, id);
            let reg2 = remove_all(reg, removed_ids(r));
            assert forall|x: SurfaceId| #[trigger] model_term(m1.windows, x) implies reg2.dom().contains(x.0) by {
                assert(!empty.contains(x));
                lemma_close_pane_avoids(m, id, x);
                lemma_remove_all_dom(reg, removed_ids(r), x.0);
            }
        },
        ActionView::SelectPane(id) => {
            lemma_back_select_pane(m, id);
            lemma_registered_keep(reg, m.windows, m.select_pane(id).0.windows);
        },
        ActionView::NewTerminalTab => {
            let (m1, r) = m.open_terminal_surface();
            if let Ok(sid) = r {
                let f = SurfaceId((m.next_id + 1) as u64);
                lemma_back_open_terminal(m);
                lemma_open_terminal_term(m);
                let reg2 = spawn_surface(m1, reg, sid, empty).0;
                lemma_spawn_surface_adds(m1, reg, sid, empty);
                assert forall|x: SurfaceId| #[trigger] model_term(m1.windows, x) implies reg2.dom().contains(x.0) by {
                    if x != f {
                        assert(seq![f][0] == f);
                        assert(!seq![f].contains(x));
                    }
                }
            }
        },
        ActionView::SelectSurface(id) => {
            let (m1, r1) = m.select_surface(id);
            lemma_back_select_surface(m, id);
            lemma_registered_keep(reg, m.windows, m1.windows);
            lemma_back_mark_surface_read(m1, id);
            lemma_registered_keep(reg, m1.windows, m1.mark_surface_read(id).0.windows);
        },
        ActionView::CloseSurface(id) => {
            let (m1, r) = m.close_surface(id);
            if let Ok(removed) = r {
                lemma_back_close_surface(m, id);
                let reg1 = remove_all(reg, removed);
                let reg2 = spawn_selected(m1, reg1, empty).0;
                lemma_spawn_selected_keeps(m1, reg1, empty);
                if m.close_surface_replaces(id) {
                    lemma_close_surface_spawns(m, id, reg1);
                }
                assert forall|x: SurfaceId| #[trigger] model_term(m1.windows, x) implies reg2.dom().contains(x.0) by {
                    if close_adds(m, id).contains(x) {
                        assert(close_adds(m, id)[0] == SurfaceId((m.next_id + 1) as u64));
                    } else {
                        lemma_close_surface_avoids(m, id, x);
                        lemma_remove_all_dom(reg, removed, x.0);
                    }
                }
            }
        },
        ActionView::JumpLatestUnread => {
            lemma_back_jump(m);
            lemma_registered_keep(reg, m.windows, jump_to_target(m).0.windows);
        },
        ActionView::MarkSurfaceRead(id) => {
            lemma_back_mark_surface_read(m, id);
            lemma_registered_keep(reg, m.windows, m.mark_surface_read(id).0.windows);
        },
        ActionView::SaveSessionNow => {},
    }
}

/// No action leaves a terminal surface without its terminal: in a well-formed model whose
/// surface ids are all different, when every terminal surface has a registered terminal before
/// an action, the same holds after it, whether the action succeeds or fails part way.
pub proof fn law_apply_registers_every_terminal_surface(c: ControllerView, a: ActionView)
    requires
        c.model.wf(),
        unique_surface_ids(c.model),
        ids_suffice(c.model, a),
        every_terminal_registered(c.terminals, c.model.windows),
    ensures
        every_terminal_registered(apply_spec(c, a).0.terminals, apply_spec(c, a).0.model.windows),
{
    lemma_run_action_registered(c.model, c.terminals, a);
}

/// Every action keeps the model well formed, whether it succeeds or fails part way.
pub proof fn law_apply_keeps_model_wf(c: ControllerView, a: ActionView)
    requires
        c.model.wf(),
        ids_suffice(c.model, a),
    ensures
        apply_spec(c, a).0.model.wf(),
{
    let m = c.model;
    match a {
        ActionView::NewWorkspace { cwd, title } => law_create_workspace_wf(m, cwd, title),
        ActionView::SelectWorkspace(id) => law_select_workspace_wf(m, id),
        ActionView::RenameWorkspace { workspace_id, title } => law_rename_workspace_wf(m, workspace_id, title),
        ActionView::RenameSurface { surface_id, title } => law_rename_surface_wf(m, surface_id, title),
        ActionView::CloseWorkspace(id) => law_close_workspace_wf(m, id),
        ActionView::SplitPane(axis) => {
            assert(m.split_allocates() == (m.split_selected_pane(axis).1 is Ok));
            law_split_selected_pane_wf(m, axis);
        },
        ActionView::ClosePane(id) => law_close_pane_wf(m, id),
        ActionView::SelectPane(id) => law_select_pane_wf(m, id),
        ActionView::NewTerminalTab => law_open_terminal_surface_wf(m),
        ActionView::SelectSurface(id) => {
            law_select_surface_wf(m, id);
            law_mark_surface_read_wf(m.select_surface(id).0, id);
        },
        ActionView::CloseSurface(id) => law_close_surface_wf(m, id),
        ActionView::JumpLatestUnread => {
            if let Some(t) = m.latest_unread_target {
                law_select_workspace_wf(m, t.workspace_id);
                let m1 = m.select_workspace(t.workspace_id).0;
                law_select_pane_wf(m1, t.pane_id);
                let m2 = m1.select_pane(t.pane_id).0;
                law_select_surface_wf(m2, t.surface_id);
                let m3 = m2.select_surface(t.surface_id).0;
                law_mark_surface_read_wf(m3, t.surface_id);
            }
        },
        ActionView::MarkSurfaceRead(id) => law_mark_surface_read_wf(m, id),
        ActionView::SaveSessionNow => {},
    }
}

pub(crate) proof fn lemma_wf_id_bound(m: ModelView, q: Pos)
    requires
        m.wf(),
        pos_valid(m, q),
    ensures
        pos_id(m, q).0 <= m.next_id,
{
    assert(window_wf(m.windows[q.0], m.next_id));
    assert(workspace_wf(m.workspace(q.0, q.1), m.next_id));
    assert(pane_wf(m.pane(q.0, q.1, q.2), m.next_id));
}

/// Ids stay different when every surface of `m2` but possibly one is a surface of `m` with
/// the same id, no two of them the same one, and the one left has an id newer than `m` gave out.
proof fn lemma_unique_by_map(m: ModelView, m2: ModelView, f: spec_fn(Pos) -> Pos, fresh: Option<Pos>)
    requires
        unique_surface_ids(m),
        m.wf(),
        forall|q: Pos| #[trigger] pos_valid(m2, q) && fresh != Some(q) ==> pos_valid(m, f(q)) && pos_id(m, f(q)) == pos_id(m2, q),
        forall|q1: Pos, q2: Pos|
            #![trigger f(q1), f(q2)]
            pos_valid(m2, q1) && pos_valid(m2, q2) && fresh != Some(q1) && fresh != Some(q2) && f(q1) == f(q2) ==> q1 == q2,
        fresh matches Some(q) ==> pos_valid(m2, q) && pos_id(m2, q).0 > m.next_id,
    ensures
        unique_surface_ids(m2),
{
    assert forall|a: Pos, b: Pos|
        pos_valid(m2, a) && pos_valid(m2, b) && #[trigger] pos_id(m2, a) == #[trigger] pos_id(m2, b) implies a == b by {
        if fresh != Some(a) && fresh != Some(b) {
            assert(pos_id(m, f(a)) == pos_id(m, f(b)));
            assert(f(a) == f(b));
        } else if fresh == Some(a) && fresh != Some(b) {
            lemma_wf_id_bound(m, f(b));
        } else if fresh != Some(a) && fresh == Some(b) {
            lemma_wf_id_bound(m, f(a));
        }
    }
}

/// Every surface of `m2` is the surface of `m` at the same place, with the same id.
pub open spec fn same_places(m: ModelView, m2: ModelView) -> bool {
    forall|q: Pos| #[trigger] pos_valid(m2, q) ==> pos_valid(m, q) && pos_id(m, q) == pos_id(m2, q)
}

proof fn lemma_same_places_unique(m: ModelView, m2: ModelView)
    requires
        unique_surface_ids(m),
        same_places(m, m2),
    ensures
        unique_surface_ids(m2),
{
    assert forall|a: Pos, b: Pos|
        pos_valid(m2, a) && pos_valid(m2, b) && #[trigger] pos_id(m2, a) == #[trigger] pos_id(m2, b) implies a == b by {
        assert(pos_id(m, a) == pos_id(m, b));
    }
}

proof fn lemma_same_places_trans(a: ModelView, b: ModelView, c: ModelView)
    requires
        same_places(a, b),
        same_places(b, c),
    ensures
        same_places(a, c),
{
    assert forall|q: Pos| #[trigger] pos_valid(c, q) implies pos_valid(a, q) && pos_id(a, q) == pos_id(c, q) by {
        assert(pos_valid(b, q));
    }
}

proof fn lemma_same_places_set_window(m: ModelView, i: int, w: WindowView)
    requires
        0 <= i < m.windows.len(),
        w.workspaces == m.windows[i].workspaces,
    ensures
        same_places(m, m.set_window(i, w)),
{
    let m2 = m.set_window(i, w);
    assert forall|q: Pos| #[trigger] pos_valid(m2, q) implies pos_valid(m, q) && pos_id(m, q) == pos_id(m2, q) by {
        if q.0 != i {
            assert(m2.windows[q.0] == m.windows[q.0]);
        }
    }
}

proof fn lemma_same_places_set_workspace(m: ModelView, i: int, k: int, ws: WorkspaceView)
    requires
        0 <= i < m.windows.len(),
        0 <= k < m.windows[i].workspaces.len(),
        ws.panes == m.workspace(i, k).panes,
    ensures
        same_places(m, m.set_workspace(i, k, ws)),
{
    let m2 = m.set_workspace(i, k, ws);
    assert forall|q: Pos| #[trigger] pos_valid(m2, q) implies pos_valid(m, q) && pos_id(m, q) == pos_id(m2, q) by {
        if q.0 != i {
            assert(m2.windows[q.0] == m.windows[q.0]);
        } else if q.1 != k {
            assert(m2.workspace(q.0, q.1) == m.workspace(q.0, q.1));
        }
    }
}

proof fn lemma_same_places_set_pane(m: ModelView, i: int, k: int, p: int, pane: PaneView)
    requires
        0 <= i < m.windows.len(),
        0 <= k < m.windows[i].workspaces.len(),
        0 <= p < m.workspace(i, k).panes.len(),
        pane.surfaces.len() == m.pane(i, k, p).surfaces.len(),
        forall|s: int| 0 <= s < pane.surfaces.len() ==> (#[trigger] pane.surfaces[s]).id == m.pane(i, k, p).surfaces[s].id,
    ensures
        same_places(m, m.set_pane(i, k, p, pane)),
{
    let m2 = m.set_pane(i, k, p, pane);
    assert forall|q: Pos| #[trigger] pos_valid(m2, q) implies pos_valid(m, q) && pos_id(m, q) == pos_id(m2, q) by {
        if q.0 != i {
            assert(m2.windows[q.0] == m.windows[q.0]);
        } else if q.1 != k {
            assert(m2.workspace(q.0, q.1) == m.workspace(q.0, q.1));
        } else if q.2 != p {
            assert(m2.pane(q.0, q.1, q.2) == m.pane(q.0, q.1, q.2));
        } else {
            assert(m2.pane(q.0, q.1, q.2) == pane);
        }
    }
}

proof fn lemma_same_places_refl(m: ModelView, m2: ModelView)
    requires
        m2.windows == m.windows,
    ensures
        same_places(m, m2),
{
}

proof fn lemma_places_select_workspace(m: ModelView, id: WorkspaceId)
    ensures
        same_places(m, m.select_workspace(id).0),
{
    lemma_selected_window_loc(m);
    if let Ok(wi) = m.selected_window_loc() {
        if wsv_ix(m.windows[wi].workspaces, id) >= 0 {
            lemma_same_places_set_window(m, wi, WindowView { selected_workspace: id, ..m.windows[wi] });
        }
    }
}

proof fn lemma_places_rename_workspace(m: ModelView, id: WorkspaceId, title: Seq<char>)
    ensures
        same_places(m, m.rename_workspace(id, title).0),
{
    lemma_selected_window_loc(m);
    if let Ok(wi) = m.selected_window_loc() {
        let k = wsv_ix(m.windows[wi].workspaces, id);
        lemma_first_where_spec(m.windows[wi].workspaces, wsv_is(id));
        if k >= 0 {
            lemma_same_places_set_workspace(m, wi, k, WorkspaceView { title, ..m.workspace(wi, k) });
        }
    }
}

proof fn lemma_places_select_pane(m: ModelView, id: PaneId)
    ensures
        same_places(m, m.select_pane(id).0),
{
    lemma_selected_workspace_loc(m);
    if let Ok((wi, k)) = m.selected_workspace_loc() {
        if pv_ix(m.workspace(wi, k).panes, id) >= 0 {
            lemma_same_places_set_workspace(m, wi, k, WorkspaceView { selected_pane: id, ..m.workspace(wi, k) });
        }
    }
}

proof fn lemma_places_select_surface(m: ModelView, id: SurfaceId)
    ensures
        same_places(m, m.select_surface(id).0),
{
    lemma_selected_pane_loc(m);
    if let Ok((wi, k, p)) = m.selected_pane_loc() {
        if sv_ix(m.pane(wi, k, p).surfaces, id) >= 0 {
            lemma_same_places_set_pane(m, wi, k, p, PaneView { selected_surface: id, ..m.pane(wi, k, p) });
        }
    }
}

proof fn lemma_places_set_surface(m: ModelView, i: int, k: int, p: int, s: int, sv: SurfaceView)
    requires
        valid_pos(m, i, k, p, s),
        sv.id == m.surface(i, k, p, s).id,
    ensures
        same_places(m, m.set_surface(i, k, p, s, sv)),
{
    let pane = m.pane(i, k, p);
    let pane2 = PaneView { surfaces: pane.surfaces.update(s, sv), ..pane };
    assert forall|j: int| 0 <= j < pane2.surfaces.len() implies (#[trigger] pane2.surfaces[j]).id == pane.surfaces[j].id by {
        if j != s {
            assert(pane2.surfaces[j] == pane.surfaces[j]);
        }
    }
    lemma_same_places_set_pane(m, i, k, p, pane2);
}

proof fn lemma_places_recompute(m: ModelView, i: int, k: int)
    requires
        0 <= i < m.windows.len(),
        0 <= k < m.windows[i].workspaces.len(),
    ensures
        same_places(m, m.set_workspace(i, k, recompute_workspace(m.workspace(i, k)))),
{
    lemma_same_places_set_workspace(m, i, k, recompute_workspace(m.workspace(i, k)));
}

proof fn lemma_places_mark_surface_read(m: ModelView, id: SurfaceId)
    ensures
        same_places(m, m.mark_surface_read(id).0),
{
    lemma_surface_loc(m, id);
    if let Some((wi, k, p, s)) = m.surface_loc(id) {
        let sv = SurfaceView { unread: false, unread_message: None, unread_sequence: None, ..m.surface(wi, k, p, s) };
        lemma_places_set_surface(m, wi, k, p, s, sv);
        let m1 = m.set_surface(wi, k, p, s, sv);
        lemma_places_recompute(m1, wi, k);
        lemma_same_places_trans(m, m1, m1.set_workspace(wi, k, recompute_workspace(m1.workspace(wi, k))));
    }
}

proof fn lemma_places_rename_surface(m: ModelView, id: SurfaceId, title: Seq<char>)
    ensures
        same_places(m, m.rename_surface(id, title).0),
{
    lemma_surface_loc(m, id);
    if let Some((wi, k, p, s)) = m.surface_loc(id) {
        lemma_places_set_surface(m, wi, k, p, s, SurfaceView { title, ..m.surface(wi, k, p, s) });
    }
}

proof fn lemma_places_jump(m: ModelView)
    ensures
        same_places(m, jump_to_target(m).0),
{
    if let Some(t) = m.latest_unread_target {
        let m1 = m.select_workspace(t.workspace_id).0;
        lemma_places_select_workspace(m, t.workspace_id);
        let m2 = m1.select_pane(t.pane_id).0;
        lemma_places_select_pane(m1, t.pane_id);
        let m3 = m2.select_surface(t.surface_id).0;
        lemma_places_select_surface(m2, t.surface_id);
        let m4 = m3.mark_surface_read(t.surface_id).0;
        lemma_places_mark_surface_read(m3, t.surface_id);
        lemma_same_places_trans(m, m1, m2);
        lemma_same_places_trans(m, m2, m3);
        lemma_same_places_trans(m, m3, m4);
    }
}

proof fn lemma_unique_create_workspace(m: ModelView, cwd: Seq<char>, title: Option<Seq<char>>)
    requires
        m.wf(),
        unique_surface_ids(m),
        m.next_id + 3 <= u64::MAX,
    ensures
        unique_surface_ids(m.create_workspace(cwd, title).0),
{
    let n = m.next_id;
    let m1 = m.with_ids((n + 3) as u64);
    let m2 = m.create_workspace(cwd, title).0;
    lemma_selected_window_loc(m1);
    if let Ok(wi) = m1.selected_window_loc() {
        let w = m.windows[wi];
        let len = w.workspaces.len() as int;
        let fresh = (wi, len, 0int, 0int);
        let f = |q: Pos| q;
        assert forall|q: Pos| #[trigger] pos_valid(m2, q) && Some(fresh) != Some(q) implies pos_valid(m, f(q)) && pos_id(
            m,
            f(q),
        ) == pos_id(m2, q) by {
            if q.0 != wi {
                assert(m2.windows[q.0] == m.windows[q.0]);
            } else if q.1 < len {
                assert(m2.workspace(q.0, q.1) == m.workspace(q.0, q.1));
            } else {
                assert(q.2 == 0 && q.3 == 0);
            }
        }
        assert(pos_id(m2, fresh).0 == n + 3);
        lemma_unique_by_map(m, m2, f, Some(fresh));
    } else {
        lemma_same_places_refl(m, m2);
        lemma_same_places_unique(m, m2);
    }
}

proof fn lemma_unique_split(m: ModelView, axis: SplitAxis)
    requires
        m.wf(),
        unique_surface_ids(m),
        m.split_allocates() ==> m.next_id + 2 <= u64::MAX,
    ensures
        unique_surface_ids(m.split_selected_pane(axis).0),
{
    let n = m.next_id;
    let m2 = m.split_selected_pane(axis).0;
    lemma_selected_workspace_loc(m);
    if m.split_selected_pane(axis).1 is Ok {
        assert(m.split_allocates() == (m.split_selected_pane(axis).1 is Ok));
        let (wi, k) = m.selected_workspace_loc().unwrap();
        let ws = m.workspace(wi, k);
        let len = ws.panes.len() as int;
        let fresh = (wi, k, len, 0int);
        let f = |q: Pos| q;
        assert forall|q: Pos| #[trigger] pos_valid(m2, q) && Some(fresh) != Some(q) implies pos_valid(m, f(q)) && pos_id(
            m,
            f(q),
        ) == pos_id(m2, q) by {
            if q.0 != wi {
                assert(m2.windows[q.0] == m.windows[q.0]);
            } else if q.1 != k {
                assert(m2.workspace(q.0, q.1) == m.workspace(q.0, q.1));
            } else if q.2 < len {
                assert(m2.pane(q.0, q.1, q.2) == m.pane(q.0, q.1, q.2));
            } else {
                assert(q.3 == 0);
            }
        }
        assert(pos_id(m2, fresh).0 == n + 2);
        lemma_unique_by_map(m, m2, f, Some(fresh));
    } else {
        lemma_same_places_refl(m, m2);
        lemma_same_places_unique(m, m2);
    }
}

proof fn lemma_unique_open_terminal(m: ModelView)
    requires
        m.wf(),
        unique_surface_ids(m),
        m.next_id < u64::MAX,
    ensures
        unique_surface_ids(m.open_terminal_surface().0),
{
    let n = m.next_id;
    let m1 = m.with_ids((n + 1) as u64);
    let m2 = m.open_terminal_surface().0;
    lemma_selected_pane_loc(m1);
    if let Ok((wi, k, p)) = m1.selected_pane_loc() {
        let len = m.pane(wi, k, p).surfaces.len() as int;
        let fresh = (wi, k, p, len);
        let f = |q: Pos| q;
        assert forall|q: Pos| #[trigger] pos_valid(m2, q) && Some(fresh) != Some(q) implies pos_valid(m, f(q)) && pos_id(
            m,
            f(q),
        ) == pos_id(m2, q) by {
            if q.0 != wi {
                assert(m2.windows[q.0] == m.windows[q.0]);
            } else if q.1 != k {
                assert(m2.workspace(q.0, q.1) == m.workspace(q.0, q.1));
            } else if q.2 != p {
                assert(m2.pane(q.0, q.1, q.2) == m.pane(q.0, q.1, q.2));
            } else {
                assert(m2.surface(q.0, q.1, q.2, q.3) == m.surface(q.0, q.1, q.2, q.3));
            }
        }
        assert(pos_id(m2, fresh).0 == n + 1);
        lemma_unique_by_map(m, m2, f, Some(fresh));
    } else {
        lemma_same_places_refl(m, m2);
        lemma_same_places_unique(m, m2);
    }
}

proof fn lemma_unique_close_workspace(m: ModelView, id: WorkspaceId)
    requires
        m.wf(),
        unique_surface_ids(m),
    ensures
        unique_surface_ids(m.close_workspace(id).0),
{
    let m2 = m.close_workspace(id).0;
    lemma_selected_window_loc(m);
    if m.close_workspace(id).1 is Ok {
        let wi = m.selected_window_loc().unwrap();
        let w = m.windows[wi];
        let k = wsv_ix(w.workspaces, id);
        lemma_first_where_spec(w.workspaces, wsv_is(id));
        let f = |q: Pos| if q.0 == wi && q.1 >= k { (q.0, q.1 + 1, q.2, q.3) } else { q };
        assert forall|q: Pos| #[trigger] pos_valid(m2, q) && None::<Pos> != Some(q) implies pos_valid(m, f(q)) && pos_id(
            m,
            f(q),
        ) == pos_id(m2, q) by {
            if q.0 != wi {
                assert(m2.windows[q.0] == m.windows[q.0]);
            } else if q.1 < k {
                assert(m2.workspace(q.0, q.1) == m.workspace(q.0, q.1));
            } else {
                assert(m2.workspace(q.0, q.1) == m.workspace(q.0, q.1 + 1));
            }
        }
        lemma_unique_by_map(m, m2, f, None);
    } else {
        lemma_same_places_refl(m, m2);
        lemma_same_places_unique(m, m2);
    }
}

proof fn lemma_unique_close_pane(m: ModelView, id: PaneId)
    requires
        m.wf(),
        unique_surface_ids(m),
    ensures
        unique_surface_ids(m.close_pane(id).0),
{
    let m2 = m.close_pane(id).0;
    lemma_selected_workspace_loc(m);
    if m.close_pane(id).1 is Ok {
        let (wi, k) = m.selected_workspace_loc().unwrap();
        let ws = m.workspace(wi, k);
        let p = pv_ix(ws.panes, id);
        lemma_first_where_spec(ws.panes, pv_is(id));
        let f = |q: Pos| if q.0 == wi && q.1 == k && q.2 >= p { (q.0, q.1, q.2 + 1, q.3) } else { q };
        assert forall|q: Pos| #[trigger] pos_valid(m2, q) && None::<Pos> != Some(q) implies pos_valid(m, f(q)) && pos_id(
            m,
            f(q),
        ) == pos_id(m2, q) by {
            if q.0 != wi {
                assert(m2.windows[q.0] == m.windows[q.0]);
            } else if q.1 != k {
                assert(m2.workspace(q.0, q.1) == m.workspace(q.0, q.1));
            } else if q.2 < p {
                assert(m2.pane(q.0, q.1, q.2) == m.pane(q.0, q.1, q.2));
            } else {
                assert(m2.pane(q.0, q.1, q.2) == m.pane(q.0, q.1, q.2 + 1));
            }
        }
        lemma_unique_by_map(m, m2, f, None);
    } else {
        lemma_same_places_refl(m, m2);
        lemma_same_places_unique(m, m2);
    }
}

proof fn lemma_unique_close_surface(m: ModelView, id: SurfaceId)
    requires
        m.wf(),
        unique_surface_ids(m),
        m.close_surface_replaces(id) ==> m.next_id < u64::MAX,
    ensures
        unique_surface_ids(m.close_surface(id).0),
{
    let m4 = m.close_surface(id).0;
    lemma_selected_pane_loc(m);
    if m.close_surface(id).1 is Ok {
        let (wi, k, p) = m.selected_pane_loc().unwrap();
        let pane = m.pane(wi, k, p);
        let s = sv_ix(pane.surfaces, id);
        lemma_first_where_spec(pane.surfaces, sv_is(id));
        let rest = pane.surfaces.remove(s);
        let rid = SurfaceId((m.next_id + 1) as u64);
        let mm = if rest.len() == 0 { m.with_ids((m.next_id + 1) as u64) } else { m };
        let pane2 = if rest.len() == 0 {
            PaneView { surfaces: seq![terminal_surface_view(rid)], selected_surface: rid, ..pane }
        } else {
            PaneView { surfaces: rest, selected_surface: rest[if s == 0 { 0 } else { s - 1 }].id, ..pane }
        };
        let m1 = mm.set_pane(wi, k, p, pane2);
        let m2 = m1.clear_target_if_removed(seq![id]);
        let m3 = m2.set_workspace(wi, k, recompute_workspace(m2.workspace(wi, k)));
        assert(m4 == m3);
        if rest.len() == 0 {
            let fresh = (wi, k, p, 0int);
            let f = |q: Pos| q;
            assert forall|q: Pos| #[trigger] pos_valid(m1, q) && Some(fresh) != Some(q) implies pos_valid(m, f(q)) && pos_id(
                m,
                f(q),
            ) == pos_id(m1, q) by {
                if q.0 != wi {
                    assert(m1.windows[q.0] == m.windows[q.0]);
                } else if q.1 != k {
                    assert(m1.workspace(q.0, q.1) == m.workspace(q.0, q.1));
                } else if q.2 != p {
                    assert(m1.pane(q.0, q.1, q.2) == m.pane(q.0, q.1, q.2));
                }
            }
            assert(pos_id(m1, fresh) == rid);
            lemma_unique_by_map(m, m1, f, Some(fresh));
        } else {
            let f = |q: Pos| if q.0 == wi && q.1 == k && q.2 == p && q.3 >= s { (q.0, q.1, q.2, q.3 + 1) } else { q };
            assert forall|q: Pos| #[trigger] pos_valid(m1, q) && None::<Pos> != Some(q) implies pos_valid(m, f(q)) && pos_id(
                m,
                f(q),
            ) == pos_id(m1, q) by {
                if q.0 != wi {
                    assert(m1.windows[q.0] == m.windows[q.0]);
                } else if q.1 != k {
                    assert(m1.workspace(q.0, q.1) == m.workspace(q.0, q.1));
                } else if q.2 != p {
                    assert(m1.pane(q.0, q.1, q.2) == m.pane(q.0, q.1, q.2));
                } else if q.3 < s {
                    assert(m1.surface(q.0, q.1, q.2, q.3) == m.surface(q.0, q.1, q.2, q.3));
                } else {
                    assert(m1.surface(q.0, q.1, q.2, q.3) == m.surface(q.0, q.1, q.2, q.3 + 1));
                }
            }
            lemma_unique_by_map(m, m1, f, None);
        }
        lemma_same_places_refl(m1, m2);
        lemma_places_recompute(m2, wi, k);
        lemma_same_places_trans(m1, m2, m3);
        lemma_same_places_unique(m1, m3);
    } else {
        lemma_same_places_refl(m, m4);
        lemma_same_places_unique(m, m4);
    }
}

/// No action gives two surfaces the same id: in a well-formed model whose surface ids are all
/// different, they are still all different after any action, whether it succeeds or fails part way.
pub proof fn law_apply_keeps_surface_ids_unique(c: ControllerView, a: ActionView)
    requires
        c.model.wf(),
        unique_surface_ids(c.model),
        ids_suffice(c.model, a),
    ensures
        unique_surface_ids(apply_spec(c, a).0.model),
{
    let m = c.model;
    match a {
        ActionView::NewWorkspace { cwd, title } => lemma_unique_create_workspace(m, cwd, title),
        ActionView::SelectWorkspace(id) => {
            lemma_places_select_workspace(m, id);
            lemma_same_places_unique(m, m.select_workspace(id).0);
        },
        ActionView::RenameWorkspace { workspace_id, title } => {
            lemma_places_rename_workspace(m, workspace_id, title);
            lemma_same_places_unique(m, m.rename_workspace(workspace_id, title).0);
        },
        ActionView::RenameSurface { surface_id, title } => {
            lemma_places_rename_surface(m, surface_id, title);
            lemma_same_places_unique(m, m.rename_surface(surface_id, title).0);
        },
        ActionView::CloseWorkspace(id) => lemma_unique_close_workspace(m, id),
        ActionView::SplitPane(axis) => lemma_unique_split(m, axis),
        ActionView::ClosePane(id) => lemma_unique_close_pane(m, id),
        ActionView::SelectPane(id) => {
            lemma_places_select_pane(m, id);
            lemma_same_places_unique(m, m.select_pane(id).0);
        },
        ActionView::NewTerminalTab => lemma_unique_open_terminal(m),
        ActionView::SelectSurface(id) => {
            let m1 = m.select_surface(id).0;
            lemma_places_select_surface(m, id);
            lemma_places_mark_surface_read(m1, id);
            lemma_same_places_trans(m, m1, m1.mark_surface_read(id).0);
            lemma_same_places_unique(m, m1);
            lemma_same_places_unique(m, m1.mark_surface_read(id).0);
        },
        ActionView::CloseSurface(id) => lemma_unique_close_surface(m, id),
        ActionView::JumpLatestUnread => {
            lemma_places_jump(m);
            lemma_same_places_unique(m, jump_to_target(m).0);
        },
        ActionView::MarkSurfaceRead(id) => {
            lemma_places_mark_surface_read(m, id);
            lemma_same_places_unique(m, m.mark_surface_read(id).0);
        },
        ActionView::SaveSessionNow => {},
    }
}

/// A freshly started application has no two surfaces with one id.
pub proof fn law_new_model_unique_surface_ids(cwd: Seq<char>)
    ensures
        unique_surface_ids(new_model_view(cwd)),
{
    let m = new_model_view(cwd);
    assert forall|a: Pos, b: Pos|
        pos_valid(m, a) && pos_valid(m, b) && #[trigger] pos_id(m, a) == #[trigger] pos_id(m, b) implies a == b by {
        assert(a == (0int, 0int, 0int, 0int));
        assert(b == (0int, 0int, 0int, 0int));
    }
}

} // verus!
