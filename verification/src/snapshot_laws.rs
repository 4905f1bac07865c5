use vstd::prelude::*;

use crate::ids::{PaneId, SurfaceId};
use crate::model::SplitTree;
use crate::model_laws::{layout_wf, lemma_exists_at, lemma_pane_wf_mono, lemma_window_wf_mono, lemma_workspace_wf_mono, pane_wf, window_wf, workspace_wf};
use crate::search::{first_where, lemma_first_where_spec};
use crate::unread_laws::{lemma_max_window_seq_upper, lemma_summary_current_recompute, window_unread_ok, workspace_unread_ok};
use crate::model_view::{new_model_view, recompute_workspace, newest_unread_target, ModelView, wsv_is, wv_is, pv_is, pv_ix, sv_is, sv_ix, terminal_surface_view, PaneView, SurfaceView, WindowView, WorkspaceView};
use crate::snapshot_view::{
    is_terminal, max_pane_ids, max_surface_ids, max_u64, max_window_ids, max_workspace_ids, layout_max, restore_pane_list,
    restore_surfaces, sat_inc, selected_terminal_is, distinct_pane, pane_id_is_not, reconcile_layout,
    restore_workspace, restore_workspace_list, restore_window, restore_window_list, pane_list_error,
    pane_has_no_surface, first_workspace_error, first_window_error, snapshot_of, SnapshotView,
};

verus! {

pub open spec fn surfaces_bounded(ss: Seq<SurfaceView>, b: u64) -> bool {
    forall|i: int| 0 <= i < ss.len() ==> (#[trigger] ss[i]).id.0 <= b
}

pub open spec fn panes_bounded(ps: Seq<PaneView>, b: u64) -> bool {
    forall|i: int| 0 <= i < ps.len() ==> (#[trigger] ps[i]).id.0 <= b && surfaces_bounded(ps[i].surfaces, b)
}

pub open spec fn workspaces_bounded(wss: Seq<WorkspaceView>, b: u64) -> bool {
    forall|k: int| 0 <= k < wss.len() ==> (#[trigger] wss[k]).id.0 <= b && panes_bounded(wss[k].panes, b)
}

pub open spec fn windows_bounded(ws: Seq<WindowView>, b: u64) -> bool {
    forall|i: int| 0 <= i < ws.len() ==> (#[trigger] ws[i]).id.0 <= b && workspaces_bounded(ws[i].workspaces, b)
}

proof fn lemma_max_surface_ids(acc: u64, ss: Seq<SurfaceView>)
    ensures
        acc <= max_surface_ids(acc, ss),
        surfaces_bounded(ss, max_surface_ids(acc, ss)),
    decreases ss.len(),
{
    if ss.len() > 0 {
        lemma_max_surface_ids(acc, ss.drop_last());
        let r = max_surface_ids(acc, ss);
        assert forall|i: int| 0 <= i < ss.len() implies (#[trigger] ss[i]).id.0 <= r by {
            if i < ss.len() - 1 {
                assert(ss.drop_last()[i] == ss[i]);
            }
        }
    }
}

proof fn lemma_surfaces_bounded_mono(ss: Seq<SurfaceView>, a: u64, b: u64)
    requires
        surfaces_bounded(ss, a),
        a <= b,
    ensures
        surfaces_bounded(ss, b),
{
}

proof fn lemma_max_pane_ids(acc: u64, ps: Seq<PaneView>)
    ensures
        acc <= max_pane_ids(acc, ps),
        panes_bounded(ps, max_pane_ids(acc, ps)),
    decreases ps.len(),
{
    if ps.len() > 0 {
        let t = ps.drop_last();
        lemma_max_pane_ids(acc, t);
        let p = ps.last();
        let a1 = max_u64(max_u64(max_pane_ids(acc, t), p.id.0), p.selected_surface.0);
        lemma_max_surface_ids(a1, p.surfaces);
        let r = max_pane_ids(acc, ps);
        assert forall|i: int| 0 <= i < ps.len() implies (#[trigger] ps[i]).id.0 <= r && surfaces_bounded(
            ps[i].surfaces,
            r,
        ) by {
            if i < ps.len() - 1 {
                assert(t[i] == ps[i]);
                lemma_surfaces_bounded_mono(ps[i].surfaces, max_pane_ids(acc, t), r);
            }
        }
    }
}

proof fn lemma_panes_bounded_mono(ps: Seq<PaneView>, a: u64, b: u64)
    requires
        panes_bounded(ps, a),
        a <= b,
    ensures
        panes_bounded(ps, b),
{
    assert forall|i: int| 0 <= i < ps.len() implies (#[trigger] ps[i]).id.0 <= b && surfaces_bounded(ps[i].surfaces, b) by {
        lemma_surfaces_bounded_mono(ps[i].surfaces, a, b);
    }
}

proof fn lemma_max_workspace_ids(acc: u64, wss: Seq<WorkspaceView>)
    ensures
        acc <= max_workspace_ids(acc, wss),
        workspaces_bounded(wss, max_workspace_ids(acc, wss)),
    decreases wss.len(),
{
    if wss.len() > 0 {
        let t = wss.drop_last();
        lemma_max_workspace_ids(acc, t);
        let w = wss.last();
        let a1 = max_u64(max_u64(max_u64(max_workspace_ids(acc, t), w.id.0), w.selected_pane.0), layout_max(w.layout));
        lemma_max_pane_ids(a1, w.panes);
        let r = max_workspace_ids(acc, wss);
        assert forall|k: int| 0 <= k < wss.len() implies (#[trigger] wss[k]).id.0 <= r && panes_bounded(
            wss[k].panes,
            r,
        ) by {
            if k < wss.len() - 1 {
                assert(t[k] == wss[k]);
                lemma_panes_bounded_mono(wss[k].panes, max_workspace_ids(acc, t), r);
            }
        }
    }
}

proof fn lemma_workspaces_bounded_mono(wss: Seq<WorkspaceView>, a: u64, b: u64)
    requires
        workspaces_bounded(wss, a),
        a <= b,
    ensures
        workspaces_bounded(wss, b),
{
    assert forall|k: int| 0 <= k < wss.len() implies (#[trigger] wss[k]).id.0 <= b && panes_bounded(wss[k].panes, b) by {
        lemma_panes_bounded_mono(wss[k].panes, a, b);
    }
}

proof fn lemma_max_window_ids(acc: u64, ws: Seq<WindowView>)
    ensures
        acc <= max_window_ids(acc, ws),
        windows_bounded(ws, max_window_ids(acc, ws)),
    decreases ws.len(),
{
    if ws.len() > 0 {
        let t = ws.drop_last();
        lemma_max_window_ids(acc, t);
        let w = ws.last();
        let a1 = max_u64(max_u64(max_window_ids(acc, t), w.id.0), w.selected_workspace.0);
        lemma_max_workspace_ids(a1, w.workspaces);
        let r = max_window_ids(acc, ws);
        assert forall|i: int| 0 <= i < ws.len() implies (#[trigger] ws[i]).id.0 <= r && workspaces_bounded(
            ws[i].workspaces,
            r,
        ) by {
            if i < ws.len() - 1 {
                assert(t[i] == ws[i]);
                lemma_workspaces_bounded_mono(ws[i].workspaces, max_window_ids(acc, t), r);
            }
        }
    }
}

proof fn lemma_restore_surfaces(ss: Seq<SurfaceView>, sel: SurfaceId, m: u64)
    requires
        ss.len() > 0,
        surfaces_bounded(ss, m),
    ensures
        ({
            let (ss2, sel2, m2) = restore_surfaces(ss, sel, m);
            &&& ss2.len() > 0
            &&& sv_ix(ss2, sel2) >= 0
            &&& surfaces_bounded(ss2, m2)
            &&& m <= m2
        }),
{
    lemma_first_where_spec(ss, selected_terminal_is(sel));
    lemma_first_where_spec(ss, is_terminal());
    if first_where(ss, selected_terminal_is(sel)) >= 0 {
        let i = first_where(ss, selected_terminal_is(sel));
        lemma_exists_at(ss, sv_is(sel), i);
    } else if first_where(ss, is_terminal()) >= 0 {
        let i = first_where(ss, is_terminal());
        lemma_exists_at(ss, sv_is(ss[i].id), i);
    } else {
        let n = sat_inc(m);
        let ss2 = ss.push(terminal_surface_view(SurfaceId(n)));
        lemma_exists_at(ss2, sv_is(SurfaceId(n)), ss.len() as int);
        assert forall|i: int| 0 <= i < ss2.len() implies (#[trigger] ss2[i]).id.0 <= n by {
            if i < ss.len() {
                assert(ss2[i] == ss[i]);
            }
        }
    }
}

pub open spec fn surfaces_nonempty(ps: Seq<PaneView>) -> bool {
    forall|i: int| 0 <= i < ps.len() ==> (#[trigger] ps[i]).surfaces.len() > 0
}

proof fn lemma_restore_pane_list(ps: Seq<PaneView>, m: u64)
    requires
        surfaces_nonempty(ps),
        panes_bounded(ps, m),
    ensures
        ({
            let (ps2, m2) = restore_pane_list(ps, m);
            &&& ps2.len() == ps.len()
            &&& m <= m2
            &&& forall|i: int| 0 <= i < ps.len() ==> (#[trigger] ps2[i]).id == ps[i].id
            &&& forall|i: int| 0 <= i < ps.len() ==> pane_wf(#[trigger] ps2[i], m2)
        }),
    decreases ps.len(),
{
    if ps.len() > 0 {
        let t = ps.drop_last();
        assert(surfaces_nonempty(t)) by {
            assert forall|i: int| 0 <= i < t.len() implies (#[trigger] t[i]).surfaces.len() > 0 by {
                assert(t[i] == ps[i]);
            }
        }
        assert(panes_bounded(t, m)) by {
            assert forall|i: int| 0 <= i < t.len() implies (#[trigger] t[i]).id.0 <= m && surfaces_bounded(t[i].surfaces, m) by {
                assert(t[i] == ps[i]);
            }
        }
        lemma_restore_pane_list(t, m);
        let (prev, m1) = restore_pane_list(t, m);
        let p = ps.last();
        assert(ps[ps.len() - 1] == p);
        lemma_surfaces_bounded_mono(p.surfaces, m, m1);
        lemma_restore_surfaces(p.surfaces, p.selected_surface, m1);
        let (ss2, sel2, m2) = restore_surfaces(p.surfaces, p.selected_surface, m1);
        let ps2 = prev.push(PaneView { surfaces: ss2, selected_surface: sel2, ..p });
        assert forall|i: int| 0 <= i < ps.len() implies pane_wf(#[trigger] ps2[i], m2) && ps2[i].id == ps[i].id by {
            if i < ps.len() - 1 {
                assert(ps2[i] == prev[i]);
                assert(t[i] == ps[i]);
                lemma_pane_wf_mono(prev[i], m1, m2);
            } else {
                assert(ps2[i] == PaneView { surfaces: ss2, selected_surface: sel2, ..p });
            }
        }
    }
}

proof fn lemma_distinct_pane(panes: Seq<PaneView>, x: PaneId)
    ensures
        distinct_pane(panes, x) matches Some(a) ==> a != x && pv_ix(panes, a) >= 0,
{
    lemma_first_where_spec(panes, pane_id_is_not(x));
    let i = first_where(panes, pane_id_is_not(x));
    if i >= 0 {
        lemma_exists_at(panes, pv_is(panes[i].id), i);
    }
}

proof fn lemma_reconcile_layout(layout: SplitTree, panes: Seq<PaneView>)
    requires
        panes.len() > 0,
    ensures
        layout_wf(reconcile_layout(layout, panes), panes),
{
    lemma_exists_at(panes, pv_is(panes[0].id), 0);
    match layout {
        SplitTree::Leaf(_) => {},
        SplitTree::Split { first, second, .. } => {
            let first_valid = panes[0].id;
            let f = if pv_ix(panes, first) >= 0 { first } else { first_valid };
            let s = if pv_ix(panes, second) >= 0 { second } else { first_valid };
            lemma_distinct_pane(panes, f);
            lemma_distinct_pane(panes, s);
        },
    }
}

proof fn lemma_restore_workspace(ws: WorkspaceView, m: u64)
    requires
        ws.panes.len() > 0,
        surfaces_nonempty(ws.panes),
        ws.id.0 <= m,
        panes_bounded(ws.panes, m),
    ensures
        workspace_wf(restore_workspace(ws, m).0, restore_workspace(ws, m).1),
        m <= restore_workspace(ws, m).1,
        restore_workspace(ws, m).0.id == ws.id,
{
    lemma_restore_pane_list(ws.panes, m);
    let (panes, m2) = restore_pane_list(ws.panes, m);
    lemma_exists_at(panes, pv_is(panes[0].id), 0);
    lemma_reconcile_layout(ws.layout, panes);
    let w2 = restore_workspace(ws, m).0;
    assert(w2.panes == panes);
    assert forall|p: int| 0 <= p < w2.panes.len() implies pane_wf(#[trigger] w2.panes[p], m2) by {
        assert(w2.panes[p] == panes[p]);
    }
}

pub open spec fn workspaces_restorable(wss: Seq<WorkspaceView>) -> bool {
    forall|k: int| 0 <= k < wss.len() ==> (#[trigger] wss[k]).panes.len() > 0 && surfaces_nonempty(wss[k].panes)
}

proof fn lemma_restore_workspace_list(wss: Seq<WorkspaceView>, m: u64)
    requires
        workspaces_restorable(wss),
        workspaces_bounded(wss, m),
    ensures
        ({
            let (w2, m2) = restore_workspace_list(wss, m);
            &&& w2.len() == wss.len()
            &&& m <= m2
            &&& forall|k: int| 0 <= k < wss.len() ==> (#[trigger] w2[k]).id == wss[k].id
            &&& forall|k: int| 0 <= k < wss.len() ==> workspace_wf(#[trigger] w2[k], m2)
        }),
    decreases wss.len(),
{
    if wss.len() > 0 {
        let t = wss.drop_last();
        assert(workspaces_restorable(t)) by {
            assert forall|k: int| 0 <= k < t.len() implies (#[trigger] t[k]).panes.len() > 0 && surfaces_nonempty(t[k].panes) by {
                assert(t[k] == wss[k]);
            }
        }
        assert(workspaces_bounded(t, m)) by {
            assert forall|k: int| 0 <= k < t.len() implies (#[trigger] t[k]).id.0 <= m && panes_bounded(t[k].panes, m) by {
                assert(t[k] == wss[k]);
            }
        }
        lemma_restore_workspace_list(t, m);
        let (prev, m1) = restore_workspace_list(t, m);
        let w = wss.last();
        assert(wss[wss.len() - 1] == w);
        lemma_panes_bounded_mono(w.panes, m, m1);
        lemma_restore_workspace(w, m1);
        let (w2, m2) = restore_workspace(w, m1);
        let all = prev.push(w2);
        assert forall|k: int| 0 <= k < wss.len() implies workspace_wf(#[trigger] all[k], m2) && all[k].id == wss[k].id by {
            if k < wss.len() - 1 {
                assert(all[k] == prev[k]);
                assert(t[k] == wss[k]);
                lemma_workspace_wf_mono(prev[k], m1, m2);
            }
        }
    }
}

proof fn lemma_restore_window(w: WindowView, m: u64)
    requires
        w.workspaces.len() > 0,
        workspaces_restorable(w.workspaces),
        w.id.0 <= m,
        workspaces_bounded(w.workspaces, m),
    ensures
        window_wf(restore_window(w, m).0, restore_window(w, m).1),
        m <= restore_window(w, m).1,
        restore_window(w, m).0.id == w.id,
{
    lemma_restore_workspace_list(w.workspaces, m);
    let (wss, m2) = restore_workspace_list(w.workspaces, m);
    lemma_exists_at(wss, wsv_is(wss[0].id), 0);
    let w2 = restore_window(w, m).0;
    assert forall|k: int| 0 <= k < w2.workspaces.len() implies workspace_wf(#[trigger] w2.workspaces[k], m2) by {
        assert(w2.workspaces[k] == wss[k]);
    }
}

pub open spec fn windows_restorable(ws: Seq<WindowView>) -> bool {
    forall|i: int| 0 <= i < ws.len() ==> (#[trigger] ws[i]).workspaces.len() > 0 && workspaces_restorable(ws[i].workspaces)
}

proof fn lemma_restore_window_list(ws: Seq<WindowView>, m: u64)
    requires
        windows_restorable(ws),
        windows_bounded(ws, m),
    ensures
        ({
            let (w2, m2) = restore_window_list(ws, m);
            &&& w2.len() == ws.len()
            &&& m <= m2
            &&& forall|i: int| 0 <= i < ws.len() ==> window_wf(#[trigger] w2[i], m2)
        }),
    decreases ws.len(),
{
    if ws.len() > 0 {
        let t = ws.drop_last();
        assert(windows_restorable(t)) by {
            assert forall|i: int| 0 <= i < t.len() implies (#[trigger] t[i]).workspaces.len() > 0 && workspaces_restorable(t[i].workspaces) by {
                assert(t[i] == ws[i]);
            }
        }
        assert(windows_bounded(t, m)) by {
            assert forall|i: int| 0 <= i < t.len() implies (#[trigger] t[i]).id.0 <= m && workspaces_bounded(t[i].workspaces, m) by {
                assert(t[i] == ws[i]);
            }
        }
        lemma_restore_window_list(t, m);
        let (prev, m1) = restore_window_list(t, m);
        let w = ws.last();
        assert(ws[ws.len() - 1] == w);
        lemma_workspaces_bounded_mono(w.workspaces, m, m1);
        lemma_restore_window(w, m1);
        let (w2, m2) = restore_window(w, m1);
        let all = prev.push(w2);
        assert forall|i: int| 0 <= i < ws.len() implies window_wf(#[trigger] all[i], m2) by {
            if i < ws.len() - 1 {
                assert(all[i] == prev[i]);
                lemma_window_wf_mono(prev[i], m1, m2);
            }
        }
    }
}

proof fn lemma_pane_list_ok(ps: Seq<PaneView>)
    requires
        pane_list_error(ps) is None,
    ensures
        ps.len() > 0,
        surfaces_nonempty(ps),
{
    lemma_first_where_spec(ps, pane_has_no_surface());
    assert forall|i: int| 0 <= i < ps.len() implies (#[trigger] ps[i]).surfaces.len() > 0 by {
        assert(!pane_has_no_surface()(ps[i]));
    }
}

proof fn lemma_workspaces_ok(wss: Seq<WorkspaceView>)
    requires
        first_workspace_error(wss) is None,
    ensures
        workspaces_restorable(wss),
    decreases wss.len(),
{
    if wss.len() > 0 {
        let t = wss.drop_last();
        lemma_workspaces_ok(t);
        lemma_pane_list_ok(wss.last().panes);
        assert forall|k: int| 0 <= k < wss.len() implies (#[trigger] wss[k]).panes.len() > 0 && surfaces_nonempty(wss[k].panes) by {
            if k < wss.len() - 1 {
                assert(t[k] == wss[k]);
            }
        }
    }
}

proof fn lemma_windows_ok(ws: Seq<WindowView>)
    requires
        first_window_error(ws) is None,
    ensures
        windows_restorable(ws),
    decreases ws.len(),
{
    if ws.len() > 0 {
        let t = ws.drop_last();
        lemma_windows_ok(t);
        lemma_workspaces_ok(ws.last().workspaces);
        assert forall|i: int| 0 <= i < ws.len() implies (#[trigger] ws[i]).workspaces.len() > 0 && workspaces_restorable(ws[i].workspaces) by {
            if i < ws.len() - 1 {
                assert(t[i] == ws[i]);
            }
        }
    }
}

/// A snapshot that restores gives a well-formed model: every selection names something that
/// exists, no collection is empty, layouts name panes of their workspace, and the id counter
/// is past every id.
pub proof fn law_restored_model_wf(s: SnapshotView)
    requires
        s.restore_error() is None,
    ensures
        s.restored_model().wf(),
{
    let start = match s.latest_unread_target {
        Some(t) => max_u64(max_u64(max_u64(s.selected_window.0, t.workspace_id.0), t.pane_id.0), t.surface_id.0),
        None => s.selected_window.0,
    };
    lemma_max_window_ids(start, s.windows);
    lemma_windows_ok(s.windows);
    lemma_restore_window_list(s.windows, s.max_restored_id());
    let (windows, m) = restore_window_list(s.windows, s.max_restored_id());
    lemma_exists_at(windows, wv_is(windows[0].id), 0);
}

/// The pane shows a terminal: its selected surface is one of its terminal surfaces.
pub open spec fn pane_shows_terminal(p: PaneView) -> bool {
    first_where(p.surfaces, selected_terminal_is(p.selected_surface)) >= 0
}

pub open spec fn workspace_shows_terminals(ws: WorkspaceView) -> bool {
    forall|p: int| 0 <= p < ws.panes.len() ==> pane_shows_terminal(#[trigger] ws.panes[p])
}

pub open spec fn window_shows_terminals(w: WindowView) -> bool {
    forall|k: int| 0 <= k < w.workspaces.len() ==> workspace_shows_terminals(#[trigger] w.workspaces[k])
}

/// Every pane of the model shows a terminal.
pub open spec fn shows_terminals(m: ModelView) -> bool {
    forall|i: int| 0 <= i < m.windows.len() ==> window_shows_terminals(#[trigger] m.windows[i])
}

/// Every pane of the workspace shows a terminal, and its unread summary matches its surfaces.
spec fn workspace_settled(ws: WorkspaceView) -> bool {
    &&& recompute_workspace(ws) == ws
    &&& workspace_shows_terminals(ws)
}

spec fn window_settled(w: WindowView) -> bool {
    forall|k: int| 0 <= k < w.workspaces.len() ==> workspace_settled(#[trigger] w.workspaces[k])
}

proof fn lemma_settled(m: ModelView)
    requires
        m.unread_consistent(),
        shows_terminals(m),
    ensures
        forall|i: int| 0 <= i < m.windows.len() ==> window_settled(#[trigger] m.windows[i]),
{
    assert forall|i: int| 0 <= i < m.windows.len() implies window_settled(#[trigger] m.windows[i]) by {
        let w = m.windows[i];
        assert(window_unread_ok(w, m.next_unread_sequence));
        assert(window_shows_terminals(w));
        assert forall|k: int| 0 <= k < w.workspaces.len() implies workspace_settled(#[trigger] w.workspaces[k]) by {
            let ws = w.workspaces[k];
            assert(workspace_unread_ok(ws, m.next_unread_sequence));
            lemma_summary_current_recompute(ws);
            assert(workspace_shows_terminals(ws));
        }
    }
}

proof fn lemma_restore_panes_keep(ps: Seq<PaneView>, max_id: u64)
    requires
        forall|p: int| 0 <= p < ps.len() ==> pane_shows_terminal(#[trigger] ps[p]),
    ensures
        restore_pane_list(ps, max_id) == (ps, max_id),
    decreases ps.len(),
{
    if ps.len() > 0 {
        let t = ps.drop_last();
        assert forall|p: int| 0 <= p < t.len() implies pane_shows_terminal(#[trigger] t[p]) by {
            assert(t[p] == ps[p]);
        }
        lemma_restore_panes_keep(t, max_id);
        let last = ps.last();
        assert(pane_shows_terminal(ps[ps.len() - 1]));
        assert(PaneView { surfaces: last.surfaces, selected_surface: last.selected_surface, ..last } == last);
        assert(t.push(last) =~= ps);
    }
}

proof fn lemma_reconcile_layout_keeps(layout: SplitTree, panes: Seq<PaneView>)
    requires
        panes.len() > 0,
        layout_wf(layout, panes),
    ensures
        reconcile_layout(layout, panes) == layout,
{
}

proof fn lemma_restore_workspaces_keep(wss: Seq<WorkspaceView>, max_id: u64, bound: u64)
    requires
        forall|k: int| 0 <= k < wss.len() ==> workspace_wf(#[trigger] wss[k], bound),
        forall|k: int| 0 <= k < wss.len() ==> workspace_settled(#[trigger] wss[k]),
    ensures
        restore_workspace_list(wss, max_id) == (wss, max_id),
    decreases wss.len(),
{
    if wss.len() > 0 {
        let t = wss.drop_last();
        assert forall|k: int| 0 <= k < t.len() implies workspace_wf(#[trigger] t[k], bound) && workspace_settled(t[k]) by {
            assert(t[k] == wss[k]);
        }
        lemma_restore_workspaces_keep(t, max_id, bound);
        let ws = wss.last();
        assert(workspace_wf(wss[wss.len() - 1], bound));
        assert(workspace_settled(wss[wss.len() - 1]));
        lemma_restore_panes_keep(ws.panes, max_id);
        lemma_reconcile_layout_keeps(ws.layout, ws.panes);
        assert(WorkspaceView { panes: ws.panes, selected_pane: ws.selected_pane, layout: ws.layout, ..ws } == ws);
        assert(restore_workspace(ws, max_id) == (ws, max_id));
        assert(t.push(ws) =~= wss);
    }
}

proof fn lemma_restore_windows_keep(ws: Seq<WindowView>, max_id: u64, bound: u64)
    requires
        forall|i: int| 0 <= i < ws.len() ==> window_wf(#[trigger] ws[i], bound),
        forall|i: int| 0 <= i < ws.len() ==> window_settled(#[trigger] ws[i]),
    ensures
        restore_window_list(ws, max_id) == (ws, max_id),
    decreases ws.len(),
{
    if ws.len() > 0 {
        let t = ws.drop_last();
        assert forall|i: int| 0 <= i < t.len() implies window_wf(#[trigger] t[i], bound) && window_settled(t[i]) by {
            assert(t[i] == ws[i]);
        }
        lemma_restore_windows_keep(t, max_id, bound);
        let w = ws.last();
        assert(window_wf(ws[ws.len() - 1], bound));
        assert(window_settled(ws[ws.len() - 1]));
        lemma_restore_workspaces_keep(w.workspaces, max_id, bound);
        assert(WindowView { workspaces: w.workspaces, selected_workspace: w.selected_workspace, ..w } == w);
        assert(t.push(w) =~= ws);
    }
}

proof fn lemma_workspaces_restore_ok(wss: Seq<WorkspaceView>, bound: u64)
    requires
        forall|k: int| 0 <= k < wss.len() ==> workspace_wf(#[trigger] wss[k], bound),
    ensures
        first_workspace_error(wss) is None,
    decreases wss.len(),
{
    if wss.len() > 0 {
        let t = wss.drop_last();
        assert forall|k: int| 0 <= k < t.len() implies workspace_wf(#[trigger] t[k], bound) by {
            assert(t[k] == wss[k]);
        }
        lemma_workspaces_restore_ok(t, bound);
        let ps = wss.last().panes;
        assert(workspace_wf(wss[wss.len() - 1], bound));
        lemma_first_where_spec(ps, pane_has_no_surface());
        if first_where(ps, pane_has_no_surface()) >= 0 {
            let j = first_where(ps, pane_has_no_surface());
            assert(pane_wf(ps[j], bound));
        }
    }
}

proof fn lemma_windows_restore_ok(ws: Seq<WindowView>, bound: u64)
    requires
        forall|i: int| 0 <= i < ws.len() ==> window_wf(#[trigger] ws[i], bound),
    ensures
        first_window_error(ws) is None,
    decreases ws.len(),
{
    if ws.len() > 0 {
        let t = ws.drop_last();
        assert forall|i: int| 0 <= i < t.len() implies window_wf(#[trigger] t[i], bound) by {
            assert(t[i] == ws[i]);
        }
        lemma_windows_restore_ok(t, bound);
        assert(window_wf(ws[ws.len() - 1], bound));
        lemma_workspaces_restore_ok(ws.last().workspaces, bound);
    }
}

/// Saving a model and restoring what was saved gives back its windows, workspaces, panes and
/// surfaces, and its selected window, when every pane shows a terminal and the unread
/// bookkeeping is consistent (as every action keeps it); the next unread sequence number comes
/// back unchanged, the unread target is recomputed as the newest unread surface, which is the
/// saved target whenever that was current (as every action keeps it), and the id counter
/// continues after the largest restored id.
pub proof fn law_restore_gives_back_saved_model(m: ModelView)
    requires
        m.wf(),
        m.unread_consistent(),
        shows_terminals(m),
    ensures
        snapshot_of(m).restore_error() is None,
        snapshot_of(m).restored_model().windows == m.windows,
        snapshot_of(m).restored_model().selected_window == m.selected_window,
        snapshot_of(m).restored_model().latest_unread_target == newest_unread_target(m.windows),
        snapshot_of(m).restored_model().next_id == snapshot_of(m).max_restored_id(),
        snapshot_of(m).restored_model().next_unread_sequence == m.next_unread_sequence,
        m.target_current() ==> snapshot_of(m).restored_model().latest_unread_target == m.latest_unread_target,
{
    let s = snapshot_of(m);
    lemma_max_window_seq_upper(m);
    lemma_settled(m);
    lemma_windows_restore_ok(m.windows, m.next_id);
    lemma_restore_windows_keep(m.windows, s.max_restored_id(), m.next_id);
}

/// A freshly started application shows a terminal in its one pane.
pub proof fn law_new_model_shows_terminals(cwd: Seq<char>)
    ensures
        shows_terminals(new_model_view(cwd)),
{
    let m = new_model_view(cwd);
    reveal_with_fuel(first_where, 2);
    assert(pane_shows_terminal(m.windows[0].workspaces[0].panes[0]));
    assert(workspace_shows_terminals(m.windows[0].workspaces[0]));
    assert(window_shows_terminals(m.windows[0]));
}

proof fn lemma_restore_surfaces_terminal(ss: Seq<SurfaceView>, sel: SurfaceId, m: u64)
    ensures
        first_where(restore_surfaces(ss, sel, m).0, selected_terminal_is(restore_surfaces(ss, sel, m).1)) >= 0,
{
    lemma_first_where_spec(ss, selected_terminal_is(sel));
    lemma_first_where_spec(ss, is_terminal());
    if first_where(ss, selected_terminal_is(sel)) >= 0 {
    } else if first_where(ss, is_terminal()) >= 0 {
        let i = first_where(ss, is_terminal());
        lemma_exists_at(ss, selected_terminal_is(ss[i].id), i);
    } else {
        let (ss2, sel2, _m2) = restore_surfaces(ss, sel, m);
        lemma_exists_at(ss2, selected_terminal_is(sel2), ss2.len() - 1);
    }
}

proof fn lemma_restore_panes_terminal(ps: Seq<PaneView>, m: u64)
    ensures
        forall|i: int| 0 <= i < restore_pane_list(ps, m).0.len() ==> pane_shows_terminal(#[trigger] restore_pane_list(ps, m).0[i]),
    decreases ps.len(),
{
    if ps.len() > 0 {
        lemma_restore_panes_terminal(ps.drop_last(), m);
        let (prev, m1) = restore_pane_list(ps.drop_last(), m);
        let p = ps.last();
        lemma_restore_surfaces_terminal(p.surfaces, p.selected_surface, m1);
        let (ss, sel, _m2) = restore_surfaces(p.surfaces, p.selected_surface, m1);
        let out = prev.push(PaneView { surfaces: ss, selected_surface: sel, ..p });
        assert forall|i: int| 0 <= i < out.len() implies pane_shows_terminal(#[trigger] out[i]) by {
            if i < prev.len() {
                assert(out[i] == prev[i]);
            }
        }
    }
}

proof fn lemma_restore_workspaces_terminal(wss: Seq<WorkspaceView>, m: u64)
    ensures
        forall|k: int| 0 <= k < restore_workspace_list(wss, m).0.len() ==> workspace_shows_terminals(
            #[trigger] restore_workspace_list(wss, m).0[k],
        ),
    decreases wss.len(),
{
    if wss.len() > 0 {
        lemma_restore_workspaces_terminal(wss.drop_last(), m);
        let (prev, m1) = restore_workspace_list(wss.drop_last(), m);
        let ws = wss.last();
        lemma_restore_panes_terminal(ws.panes, m1);
        let w = restore_workspace(ws, m1).0;
        assert(w.panes == restore_pane_list(ws.panes, m1).0);
        assert(workspace_shows_terminals(w));
        let out = prev.push(w);
        assert forall|k: int| 0 <= k < out.len() implies workspace_shows_terminals(#[trigger] out[k]) by {
            if k < prev.len() {
                assert(out[k] == prev[k]);
            }
        }
    }
}

proof fn lemma_restore_windows_terminal(ws: Seq<WindowView>, m: u64)
    ensures
        forall|i: int| 0 <= i < restore_window_list(ws, m).0.len() ==> window_shows_terminals(
            #[trigger] restore_window_list(ws, m).0[i],
        ),
    decreases ws.len(),
{
    if ws.len() > 0 {
        lemma_restore_windows_terminal(ws.drop_last(), m);
        let (prev, m1) = restore_window_list(ws.drop_last(), m);
        let w = ws.last();
        lemma_restore_workspaces_terminal(w.workspaces, m1);
        let w2 = restore_window(w, m1).0;
        assert(window_shows_terminals(w2));
        let out = prev.push(w2);
        assert forall|i: int| 0 <= i < out.len() implies window_shows_terminals(#[trigger] out[i]) by {
            if i < prev.len() {
                assert(out[i] == prev[i]);
            }
        }
    }
}

/// Every pane of a restored model shows a terminal: a stored selection that names a terminal of
/// the pane is kept, otherwise the pane's first terminal is selected, and a pane with no terminal
/// gets a new one, selected.
pub proof fn law_restored_panes_show_terminals(s: SnapshotView)
    ensures
        shows_terminals(s.restored_model()),
{
    lemma_restore_windows_terminal(s.windows, s.max_restored_id());
}

} // verus!
