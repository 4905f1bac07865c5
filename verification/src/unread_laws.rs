use vstd::prelude::*;

use crate::model_view::{
    panes_unread_surfaces, recompute_workspace, surface_key, unread_surfaces, workspace_unread_state, ModelView,
    PaneView, SurfaceView, WindowView, WorkspaceView, newest_unread_target, panes_targets, surfaces_targets,
    target_key, target_of, windows_targets, workspaces_targets, TargetView,
};
use crate::ids::{PaneId, SurfaceId, WorkspaceId};
use crate::model_laws::{lemma_selected_pane_loc, lemma_selected_window_loc, lemma_selected_workspace_loc, lemma_surface_loc};
use crate::action::ActionView;
use crate::controller::{apply_spec, ControllerView};
use crate::model::{SplitAxis, SplitTree, SurfaceKind};
use crate::model_view::{new_model_view, new_workspace_view, pv_is, pv_ix, sv_is, sv_ix, terminal_surface_view, workspace_title_view, wsv_is, wsv_ix};
use crate::snapshot_view::{
    max_pane_seq, max_surface_seq, max_window_seq, max_workspace_seq, reconcile_layout, restore_pane_list, restore_surfaces,
    restore_window, restore_window_list, restore_workspace, restore_workspace_list, seq_of, SnapshotView,
};
use crate::search::{last_max_by, lemma_first_where_spec, lemma_last_max_by_is_max};

verus! {

/// Every surface of the pane waits with a sequence number below `next` (or none).
pub open spec fn pane_seqs_below(p: PaneView, next: u64) -> bool {
    forall|s: int| 0 <= s < p.surfaces.len() ==> surface_key()(#[trigger] p.surfaces[s]) < next
}

/// The workspace's unread flag and latest notification are those of its newest unread surface.
pub open spec fn summary_current(ws: WorkspaceView) -> bool {
    &&& ws.unread == workspace_unread_state(ws.panes).0
    &&& ws.latest_notification == workspace_unread_state(ws.panes).1
}

pub open spec fn workspace_unread_ok(ws: WorkspaceView, next: u64) -> bool {
    &&& summary_current(ws)
    &&& forall|p: int| 0 <= p < ws.panes.len() ==> pane_seqs_below(#[trigger] ws.panes[p], next)
}

pub open spec fn window_unread_ok(w: WindowView, next: u64) -> bool {
    forall|k: int| 0 <= k < w.workspaces.len() ==> workspace_unread_ok(#[trigger] w.workspaces[k], next)
}

impl ModelView {
    /// The unread bookkeeping agrees with the surfaces: each workspace's summary is that of its
    /// newest unread surface, and every sequence number in use, the latest unread target's
    /// included, is below the next one to hand out.
    pub open spec fn unread_consistent(self) -> bool {
        &&& self.next_unread_sequence >= 1
        &&& forall|i: int| 0 <= i < self.windows.len() ==> window_unread_ok(#[trigger] self.windows[i], self.next_unread_sequence)
        &&& self.latest_unread_target matches Some(t) ==> t.sequence < self.next_unread_sequence
    }
}

/// A summary is current exactly when recomputing it changes nothing.
pub proof fn lemma_summary_current_recompute(ws: WorkspaceView)
    ensures
        summary_current(ws) <==> recompute_workspace(ws) == ws,
        summary_current(recompute_workspace(ws)),
{
}

proof fn lemma_set_window_keeps(m: ModelView, i: int, w: WindowView)
    requires
        m.unread_consistent(),
        0 <= i < m.windows.len(),
        window_unread_ok(w, m.next_unread_sequence),
    ensures
        m.set_window(i, w).unread_consistent(),
{
    let m2 = m.set_window(i, w);
    assert forall|j: int| 0 <= j < m2.windows.len() implies window_unread_ok(#[trigger] m2.windows[j], m2.next_unread_sequence) by {
        if j != i {
            assert(m2.windows[j] == m.windows[j]);
        }
    }
}

proof fn lemma_set_workspace_keeps(m: ModelView, i: int, k: int, ws: WorkspaceView)
    requires
        m.unread_consistent(),
        0 <= i < m.windows.len(),
        0 <= k < m.windows[i].workspaces.len(),
        workspace_unread_ok(ws, m.next_unread_sequence),
    ensures
        m.set_workspace(i, k, ws).unread_consistent(),
{
    let w = m.windows[i];
    assert(window_unread_ok(w, m.next_unread_sequence));
    let w2 = WindowView { workspaces: w.workspaces.update(k, ws), ..w };
    assert forall|j: int| 0 <= j < w2.workspaces.len() implies workspace_unread_ok(#[trigger] w2.workspaces[j], m.next_unread_sequence) by {
        if j != k {
            assert(w2.workspaces[j] == w.workspaces[j]);
        }
    }
    lemma_set_window_keeps(m, i, w2);
}

/// Two surfaces that count the same for unread bookkeeping.
pub open spec fn same_unread(a: SurfaceView, b: SurfaceView) -> bool {
    &&& a.unread == b.unread
    &&& surface_key()(a) == surface_key()(b)
    &&& a.unread_message == b.unread_message
}

pub open spec fn seq_equiv(a: Seq<SurfaceView>, b: Seq<SurfaceView>) -> bool {
    &&& a.len() == b.len()
    &&& forall|j: int| 0 <= j < a.len() ==> same_unread(#[trigger] a[j], b[j])
}

proof fn lemma_unread_surfaces_equiv(a: Seq<SurfaceView>, b: Seq<SurfaceView>)
    requires
        seq_equiv(a, b),
    ensures
        seq_equiv(unread_surfaces(a), unread_surfaces(b)),
    decreases a.len(),
{
    if a.len() > 0 {
        let (ta, tb) = (a.drop_last(), b.drop_last());
        assert forall|j: int| 0 <= j < ta.len() implies same_unread(#[trigger] ta[j], tb[j]) by {
            assert(same_unread(a[j], b[j]));
        }
        lemma_unread_surfaces_equiv(ta, tb);
        assert(same_unread(a[a.len() - 1], b[b.len() - 1]));
        let (ua, ub) = (unread_surfaces(ta), unread_surfaces(tb));
        if a.last().unread {
            assert forall|j: int| 0 <= j < ua.push(a.last()).len() implies same_unread(
                #[trigger] ua.push(a.last())[j],
                ub.push(b.last())[j],
            ) by {
                if j < ua.len() {
                    assert(same_unread(ua[j], ub[j]));
                }
            }
        }
    }
}

proof fn lemma_equiv_concat(a1: Seq<SurfaceView>, b1: Seq<SurfaceView>, a2: Seq<SurfaceView>, b2: Seq<SurfaceView>)
    requires
        seq_equiv(a1, b1),
        seq_equiv(a2, b2),
    ensures
        seq_equiv(a1 + a2, b1 + b2),
{
    assert forall|j: int| 0 <= j < (a1 + a2).len() implies same_unread(#[trigger] (a1 + a2)[j], (b1 + b2)[j]) by {
        if j < a1.len() {
            assert(same_unread(a1[j], b1[j]));
        } else {
            assert(same_unread(a2[j - a1.len()], b2[j - a1.len()]));
        }
    }
}

/// Panes whose unread surfaces count the same for unread bookkeeping, pane by pane.
pub open spec fn panes_equiv(a: Seq<PaneView>, b: Seq<PaneView>) -> bool {
    &&& a.len() == b.len()
    &&& forall|j: int| 0 <= j < a.len() ==> seq_equiv(unread_surfaces(#[trigger] a[j].surfaces), unread_surfaces(b[j].surfaces))
}

proof fn lemma_panes_unread_equiv(a: Seq<PaneView>, b: Seq<PaneView>)
    requires
        panes_equiv(a, b),
    ensures
        seq_equiv(panes_unread_surfaces(a), panes_unread_surfaces(b)),
    decreases a.len(),
{
    if a.len() > 0 {
        let (ta, tb) = (a.drop_last(), b.drop_last());
        assert forall|j: int| 0 <= j < ta.len() implies seq_equiv(unread_surfaces(#[trigger] ta[j].surfaces), unread_surfaces(tb[j].surfaces)) by {
            assert(seq_equiv(unread_surfaces(a[j].surfaces), unread_surfaces(b[j].surfaces)));
        }
        lemma_panes_unread_equiv(ta, tb);
        assert(seq_equiv(unread_surfaces(a[a.len() - 1].surfaces), unread_surfaces(b[b.len() - 1].surfaces)));
        lemma_equiv_concat(
            panes_unread_surfaces(ta),
            panes_unread_surfaces(tb),
            unread_surfaces(a.last().surfaces),
            unread_surfaces(b.last().surfaces),
        );
    }
}

proof fn lemma_last_max_equiv(a: Seq<SurfaceView>, b: Seq<SurfaceView>)
    requires
        seq_equiv(a, b),
    ensures
        last_max_by(a, surface_key()) is None <==> last_max_by(b, surface_key()) is None,
        last_max_by(a, surface_key()) matches Some(x) ==> last_max_by(b, surface_key()) matches Some(y) && same_unread(x, y),
    decreases a.len(),
{
    if a.len() > 0 {
        let (ta, tb) = (a.drop_last(), b.drop_last());
        assert forall|j: int| 0 <= j < ta.len() implies same_unread(#[trigger] ta[j], tb[j]) by {
            assert(same_unread(a[j], b[j]));
        }
        lemma_last_max_equiv(ta, tb);
        assert(same_unread(a[a.len() - 1], b[b.len() - 1]));
    }
}

/// Panes that count the same for unread bookkeeping give a workspace the same summary.
proof fn lemma_state_equiv(a: Seq<PaneView>, b: Seq<PaneView>)
    requires
        panes_equiv(a, b),
    ensures
        workspace_unread_state(a) == workspace_unread_state(b),
{
    lemma_panes_unread_equiv(a, b);
    lemma_last_max_equiv(panes_unread_surfaces(a), panes_unread_surfaces(b));
}

proof fn lemma_panes_equiv_refl_update(ps: Seq<PaneView>, p: int, pane: PaneView)
    requires
        0 <= p < ps.len(),
        seq_equiv(unread_surfaces(ps[p].surfaces), unread_surfaces(pane.surfaces)),
    ensures
        panes_equiv(ps, ps.update(p, pane)),
{
    assert forall|j: int| 0 <= j < ps.len() implies seq_equiv(
        unread_surfaces(#[trigger] ps[j].surfaces),
        unread_surfaces(ps.update(p, pane)[j].surfaces),
    ) by {
        if j != p {
            lemma_seq_equiv_refl(unread_surfaces(ps[j].surfaces));
        }
    }
}

proof fn lemma_seq_equiv_refl(a: Seq<SurfaceView>)
    ensures
        seq_equiv(a, a),
{
}

proof fn lemma_set_pane_keeps(m: ModelView, i: int, k: int, p: int, pane: PaneView)
    requires
        m.unread_consistent(),
        0 <= i < m.windows.len(),
        0 <= k < m.windows[i].workspaces.len(),
        0 <= p < m.workspace(i, k).panes.len(),
        seq_equiv(unread_surfaces(m.pane(i, k, p).surfaces), unread_surfaces(pane.surfaces)),
        pane_seqs_below(pane, m.next_unread_sequence),
    ensures
        m.set_pane(i, k, p, pane).unread_consistent(),
{
    let ws = m.workspace(i, k);
    assert(window_unread_ok(m.windows[i], m.next_unread_sequence));
    assert(workspace_unread_ok(ws, m.next_unread_sequence));
    let ws2 = WorkspaceView { panes: ws.panes.update(p, pane), ..ws };
    lemma_panes_equiv_refl_update(ws.panes, p, pane);
    lemma_state_equiv(ws.panes, ws2.panes);
    assert forall|j: int| 0 <= j < ws2.panes.len() implies pane_seqs_below(#[trigger] ws2.panes[j], m.next_unread_sequence) by {
        if j != p {
            assert(ws2.panes[j] == ws.panes[j]);
        }
    }
    lemma_set_workspace_keeps(m, i, k, ws2);
}

proof fn lemma_set_surface_keeps(m: ModelView, i: int, k: int, p: int, s: int, sv: SurfaceView)
    requires
        m.unread_consistent(),
        0 <= i < m.windows.len(),
        0 <= k < m.windows[i].workspaces.len(),
        0 <= p < m.workspace(i, k).panes.len(),
        0 <= s < m.pane(i, k, p).surfaces.len(),
        same_unread(m.surface(i, k, p, s), sv),
    ensures
        m.set_surface(i, k, p, s, sv).unread_consistent(),
{
    let pane = m.pane(i, k, p);
    assert(window_unread_ok(m.windows[i], m.next_unread_sequence));
    assert(workspace_unread_ok(m.workspace(i, k), m.next_unread_sequence));
    assert(pane_seqs_below(pane, m.next_unread_sequence));
    let pane2 = PaneView { surfaces: pane.surfaces.update(s, sv), ..pane };
    assert forall|j: int| 0 <= j < pane.surfaces.len() implies same_unread(#[trigger] pane.surfaces[j], pane2.surfaces[j]) by {}
    lemma_unread_surfaces_equiv(pane.surfaces, pane2.surfaces);
    assert forall|j: int| 0 <= j < pane2.surfaces.len() implies surface_key()(#[trigger] pane2.surfaces[j]) < m.next_unread_sequence by {
        assert(surface_key()(pane.surfaces[j]) < m.next_unread_sequence);
    }
    lemma_set_pane_keeps(m, i, k, p, pane2);
}

/// Selecting a workspace keeps the unread bookkeeping consistent.
pub proof fn law_select_workspace_keeps_unread(m: ModelView, id: WorkspaceId)
    requires
        m.unread_consistent(),
    ensures
        m.select_workspace(id).0.unread_consistent(),
{
    lemma_selected_window_loc(m);
    if let Ok(wi) = m.selected_window_loc() {
        if wsv_ix(m.windows[wi].workspaces, id) >= 0 {
            assert(window_unread_ok(m.windows[wi], m.next_unread_sequence));
            lemma_set_window_keeps(m, wi, WindowView { selected_workspace: id, ..m.windows[wi] });
        }
    }
}

/// Renaming a workspace keeps the unread bookkeeping consistent.
pub proof fn law_rename_workspace_keeps_unread(m: ModelView, id: WorkspaceId, title: Seq<char>)
    requires
        m.unread_consistent(),
    ensures
        m.rename_workspace(id, title).0.unread_consistent(),
{
    lemma_selected_window_loc(m);
    if let Ok(wi) = m.selected_window_loc() {
        let k = wsv_ix(m.windows[wi].workspaces, id);
        lemma_first_where_spec(m.windows[wi].workspaces, wsv_is(id));
        if k >= 0 {
            assert(window_unread_ok(m.windows[wi], m.next_unread_sequence));
            assert(workspace_unread_ok(m.workspace(wi, k), m.next_unread_sequence));
            lemma_set_workspace_keeps(m, wi, k, WorkspaceView { title, ..m.workspace(wi, k) });
        }
    }
}

/// Selecting a pane keeps the unread bookkeeping consistent.
pub proof fn law_select_pane_keeps_unread(m: ModelView, id: PaneId)
    requires
        m.unread_consistent(),
    ensures
        m.select_pane(id).0.unread_consistent(),
{
    lemma_selected_workspace_loc(m);
    if let Ok((wi, k)) = m.selected_workspace_loc() {
        if pv_ix(m.workspace(wi, k).panes, id) >= 0 {
            assert(window_unread_ok(m.windows[wi], m.next_unread_sequence));
            assert(workspace_unread_ok(m.workspace(wi, k), m.next_unread_sequence));
            lemma_set_workspace_keeps(m, wi, k, WorkspaceView { selected_pane: id, ..m.workspace(wi, k) });
        }
    }
}

/// Selecting a surface keeps the unread bookkeeping consistent.
pub proof fn law_select_surface_keeps_unread(m: ModelView, id: SurfaceId)
    requires
        m.unread_consistent(),
    ensures
        m.select_surface(id).0.unread_consistent(),
{
    lemma_selected_pane_loc(m);
    if let Ok((wi, k, p)) = m.selected_pane_loc() {
        if sv_ix(m.pane(wi, k, p).surfaces, id) >= 0 {
            let pane = m.pane(wi, k, p);
            assert(window_unread_ok(m.windows[wi], m.next_unread_sequence));
            assert(workspace_unread_ok(m.workspace(wi, k), m.next_unread_sequence));
            assert(pane_seqs_below(pane, m.next_unread_sequence));
            lemma_seq_equiv_refl(unread_surfaces(pane.surfaces));
            lemma_set_pane_keeps(m, wi, k, p, PaneView { selected_surface: id, ..pane });
        }
    }
}

/// Renaming a surface keeps the unread bookkeeping consistent.
pub proof fn law_rename_surface_keeps_unread(m: ModelView, id: SurfaceId, title: Seq<char>)
    requires
        m.unread_consistent(),
    ensures
        m.rename_surface(id, title).0.unread_consistent(),
{
    lemma_surface_loc(m, id);
    if let Some((wi, k, p, s)) = m.surface_loc(id) {
        lemma_set_surface_keeps(m, wi, k, p, s, SurfaceView { title, ..m.surface(wi, k, p, s) });
    }
}

pub proof fn lemma_ok_seqs(ws: Seq<WindowView>, next: u64)
    requires
        forall|i: int| 0 <= i < ws.len() ==> window_unread_ok(#[trigger] ws[i], next),
    ensures
        forall|i: int| 0 <= i < ws.len() ==> win_seqs_below(#[trigger] ws[i], next),
{
    assert forall|i: int| 0 <= i < ws.len() implies win_seqs_below(#[trigger] ws[i], next) by {
        assert(window_unread_ok(ws[i], next));
        assert forall|k: int| 0 <= k < ws[i].workspaces.len() implies ws_seqs_below(#[trigger] ws[i].workspaces[k], next) by {
            assert(workspace_unread_ok(ws[i].workspaces[k], next));
        }
    }
}

/// `b` has `a`'s windows and counter, and its target is `a`'s or the newest of windows `x`
/// whose sequence numbers are all in use.
proof fn lemma_same_windows(a: ModelView, b: ModelView, x: Seq<WindowView>)
    requires
        a.unread_consistent(),
        a.windows == b.windows,
        a.next_unread_sequence == b.next_unread_sequence,
        forall|i: int| 0 <= i < x.len() ==> win_seqs_below(#[trigger] x[i], a.next_unread_sequence),
        b.latest_unread_target == a.latest_unread_target || b.latest_unread_target == newest_unread_target(x),
    ensures
        b.unread_consistent(),
{
    lemma_newest_below(x, b.next_unread_sequence);
}

pub open spec fn targets_below(ts: Seq<TargetView>, next: u64) -> bool {
    forall|j: int| 0 <= j < ts.len() ==> (#[trigger] ts[j]).sequence < next
}

proof fn lemma_targets_below_concat(a: Seq<TargetView>, b: Seq<TargetView>, next: u64)
    requires
        targets_below(a, next),
        targets_below(b, next),
    ensures
        targets_below(a + b, next),
{
    assert forall|j: int| 0 <= j < (a + b).len() implies (#[trigger] (a + b)[j]).sequence < next by {
        if j < a.len() {
            assert((a + b)[j] == a[j]);
        } else {
            assert((a + b)[j] == b[j - a.len()]);
        }
    }
}

proof fn lemma_surfaces_targets_below(w: WorkspaceId, p: PaneId, ss: Seq<SurfaceView>, next: u64)
    requires
        forall|s: int| 0 <= s < ss.len() ==> surface_key()(#[trigger] ss[s]) < next,
    ensures
        targets_below(surfaces_targets(w, p, ss), next),
    decreases ss.len(),
{
    if ss.len() > 0 {
        let t = ss.drop_last();
        assert forall|s: int| 0 <= s < t.len() implies surface_key()(#[trigger] t[s]) < next by {
            assert(t[s] == ss[s]);
        }
        lemma_surfaces_targets_below(w, p, t, next);
        assert(surface_key()(ss[ss.len() - 1]) < next);
        let prev = surfaces_targets(w, p, t);
        if ss.last().unread {
            assert forall|j: int| 0 <= j < prev.push(target_of(w, p, ss.last())).len() implies (
            #[trigger] prev.push(target_of(w, p, ss.last()))[j]).sequence < next by {
                if j < prev.len() {
                    assert(prev.push(target_of(w, p, ss.last()))[j] == prev[j]);
                }
            }
        }
    }
}

proof fn lemma_panes_targets_below(w: WorkspaceId, ps: Seq<PaneView>, next: u64)
    requires
        forall|p: int| 0 <= p < ps.len() ==> pane_seqs_below(#[trigger] ps[p], next),
    ensures
        targets_below(panes_targets(w, ps), next),
    decreases ps.len(),
{
    if ps.len() > 0 {
        let t = ps.drop_last();
        assert forall|p: int| 0 <= p < t.len() implies pane_seqs_below(#[trigger] t[p], next) by {
            assert(t[p] == ps[p]);
        }
        lemma_panes_targets_below(w, t, next);
        assert(pane_seqs_below(ps[ps.len() - 1], next));
        lemma_surfaces_targets_below(w, ps.last().id, ps.last().surfaces, next);
        lemma_targets_below_concat(panes_targets(w, t), surfaces_targets(w, ps.last().id, ps.last().surfaces), next);
    }
}

pub open spec fn ws_seqs_below(ws: WorkspaceView, next: u64) -> bool {
    forall|p: int| 0 <= p < ws.panes.len() ==> pane_seqs_below(#[trigger] ws.panes[p], next)
}

pub open spec fn win_seqs_below(w: WindowView, next: u64) -> bool {
    forall|k: int| 0 <= k < w.workspaces.len() ==> ws_seqs_below(#[trigger] w.workspaces[k], next)
}

proof fn lemma_workspaces_targets_below(wss: Seq<WorkspaceView>, next: u64)
    requires
        forall|k: int| 0 <= k < wss.len() ==> ws_seqs_below(#[trigger] wss[k], next),
    ensures
        targets_below(workspaces_targets(wss), next),
    decreases wss.len(),
{
    if wss.len() > 0 {
        let t = wss.drop_last();
        assert forall|k: int| 0 <= k < t.len() implies ws_seqs_below(#[trigger] t[k], next) by {
            assert(t[k] == wss[k]);
        }
        lemma_workspaces_targets_below(t, next);
        assert(ws_seqs_below(wss[wss.len() - 1], next));
        lemma_panes_targets_below(wss.last().id, wss.last().panes, next);
        lemma_targets_below_concat(workspaces_targets(t), panes_targets(wss.last().id, wss.last().panes), next);
    }
}

pub proof fn lemma_windows_targets_below(ws: Seq<WindowView>, next: u64)
    requires
        forall|i: int| 0 <= i < ws.len() ==> win_seqs_below(#[trigger] ws[i], next),
    ensures
        targets_below(windows_targets(ws), next),
    decreases ws.len(),
{
    if ws.len() > 0 {
        let t = ws.drop_last();
        assert forall|i: int| 0 <= i < t.len() implies win_seqs_below(#[trigger] t[i], next) by {
            assert(t[i] == ws[i]);
        }
        lemma_windows_targets_below(t, next);
        assert(win_seqs_below(ws[ws.len() - 1], next));
        lemma_workspaces_targets_below(ws.last().workspaces, next);
        lemma_targets_below_concat(windows_targets(t), workspaces_targets(ws.last().workspaces), next);
    }
}

/// When every surface waits below `next`, so does the newest unread target.
proof fn lemma_newest_below(ws: Seq<WindowView>, next: u64)
    requires
        forall|i: int| 0 <= i < ws.len() ==> win_seqs_below(#[trigger] ws[i], next),
    ensures
        newest_unread_target(ws) matches Some(t) ==> t.sequence < next,
{
    lemma_windows_targets_below(ws, next);
    lemma_last_max_by_is_max(windows_targets(ws), target_key());
    if let Some(t) = newest_unread_target(ws) {
        let j = choose|j: int| 0 <= j < windows_targets(ws).len() && windows_targets(ws)[j] == t;
        assert(windows_targets(ws)[j].sequence < next);
    }
}

proof fn lemma_terminal_pane_ok(pane: PaneView, next: u64)
    requires
        next >= 1,
        pane.surfaces.len() == 1,
        !pane.surfaces[0].unread,
        pane.surfaces[0].unread_sequence is None,
    ensures
        unread_surfaces(pane.surfaces) == Seq::<SurfaceView>::empty(),
        pane_seqs_below(pane, next),
{
    reveal_with_fuel(unread_surfaces, 2);
    assert(pane.surfaces.drop_last() =~= Seq::<SurfaceView>::empty());
}

proof fn lemma_push_quiet_pane(ps: Seq<PaneView>, pane: PaneView)
    requires
        unread_surfaces(pane.surfaces) == Seq::<SurfaceView>::empty(),
    ensures
        workspace_unread_state(ps.push(pane)) == workspace_unread_state(ps),
{
    assert(ps.push(pane).drop_last() =~= ps);
    assert(panes_unread_surfaces(ps) + Seq::<SurfaceView>::empty() =~= panes_unread_surfaces(ps));
}

/// Creating a workspace keeps the unread bookkeeping consistent.
pub proof fn law_create_workspace_keeps_unread(m: ModelView, cwd: Seq<char>, title: Option<Seq<char>>)
    requires
        m.unread_consistent(),
    ensures
        m.create_workspace(cwd, title).0.unread_consistent(),
{
    let n = m.next_id;
    let t = match title {
        Some(t) => t,
        None => workspace_title_view(cwd),
    };
    let ws = new_workspace_view(n, cwd, t);
    let m1 = m.with_ids((n + 3) as u64);
    lemma_selected_window_loc(m1);
    if let Ok(wi) = m1.selected_window_loc() {
        let next = m.next_unread_sequence;
        lemma_terminal_pane_ok(ws.panes[0], next);
        lemma_push_quiet_pane(Seq::<PaneView>::empty(), ws.panes[0]);
        assert(seq![ws.panes[0]] =~= Seq::<PaneView>::empty().push(ws.panes[0]));
        assert(workspace_unread_ok(ws, next));
        let w = m1.windows[wi];
        assert(window_unread_ok(w, next));
        let w2 = WindowView { workspaces: w.workspaces.push(ws), selected_workspace: ws.id, ..w };
        assert forall|j: int| 0 <= j < w2.workspaces.len() implies workspace_unread_ok(#[trigger] w2.workspaces[j], next) by {
            if j < w.workspaces.len() {
                assert(w2.workspaces[j] == w.workspaces[j]);
            }
        }
        lemma_set_window_keeps(m1, wi, w2);
    }
}

/// Closing a workspace keeps the unread bookkeeping consistent.
pub proof fn law_close_workspace_keeps_unread(m: ModelView, id: WorkspaceId)
    requires
        m.unread_consistent(),
    ensures
        m.close_workspace(id).0.unread_consistent(),
{
    lemma_selected_window_loc(m);
    if let Ok(wi) = m.selected_window_loc() {
        let w = m.windows[wi];
        let k = wsv_ix(w.workspaces, id);
        lemma_first_where_spec(w.workspaces, wsv_is(id));
        if w.workspaces.len() != 1 && k >= 0 {
            let next = m.next_unread_sequence;
            assert(window_unread_ok(w, next));
            let rest = w.workspaces.remove(k);
            let sel = m.close_workspace(id).0.windows[wi].selected_workspace;
            let w2 = WindowView { workspaces: rest, selected_workspace: sel, ..w };
            assert forall|j: int| 0 <= j < rest.len() implies workspace_unread_ok(#[trigger] rest[j], next) by {
                if j < k {
                    assert(rest[j] == w.workspaces[j]);
                } else {
                    assert(rest[j] == w.workspaces[j + 1]);
                }
            }
            lemma_set_window_keeps(m, wi, w2);
            let m2 = m.set_window(wi, w2);
            lemma_ok_seqs(m2.windows, next);
            lemma_same_windows(m2, m.close_workspace(id).0, m2.windows);
        }
    }
}

/// Closing a pane keeps the unread bookkeeping consistent.
pub proof fn law_close_pane_keeps_unread(m: ModelView, id: PaneId)
    requires
        m.unread_consistent(),
    ensures
        m.close_pane(id).0.unread_consistent(),
{
    lemma_selected_workspace_loc(m);
    if let Ok((wi, k)) = m.selected_workspace_loc() {
        let ws = m.workspace(wi, k);
        let p = pv_ix(ws.panes, id);
        lemma_first_where_spec(ws.panes, pv_is(id));
        if ws.panes.len() != 1 && p >= 0 {
            let next = m.next_unread_sequence;
            assert(window_unread_ok(m.windows[wi], next));
            assert(workspace_unread_ok(ws, next));
            let rest = ws.panes.remove(p);
            let remaining = rest[0].id;
            let ws2 = recompute_workspace(
                WorkspaceView { panes: rest, selected_pane: remaining, layout: SplitTree::Leaf(remaining), ..ws },
            );
            assert forall|j: int| 0 <= j < rest.len() implies pane_seqs_below(#[trigger] rest[j], next) by {
                if j < p {
                    assert(rest[j] == ws.panes[j]);
                } else {
                    assert(rest[j] == ws.panes[j + 1]);
                }
            }
            lemma_set_workspace_keeps(m, wi, k, ws2);
            lemma_ok_seqs(m.set_workspace(wi, k, ws2).windows, next);
            lemma_same_windows(m.set_workspace(wi, k, ws2), m.close_pane(id).0, m.set_workspace(wi, k, ws2).windows);
        }
    }
}

/// Splitting the selected pane keeps the unread bookkeeping consistent.
pub proof fn law_split_keeps_unread(m: ModelView, axis: SplitAxis)
    requires
        m.unread_consistent(),
    ensures
        m.split_selected_pane(axis).0.unread_consistent(),
{
    lemma_selected_workspace_loc(m);
    if let Ok((wi, k)) = m.selected_workspace_loc() {
        let ws = m.workspace(wi, k);
        let sp = ws.selected_pane;
        let p = pv_ix(ws.panes, sp);
        lemma_first_where_spec(ws.panes, pv_is(sp));
        if !(ws.layout is Split) && p >= 0 {
            let next = m.next_unread_sequence;
            let n = m.next_id;
            let new_id = PaneId((n + 1) as u64);
            let sid = SurfaceId((n + 2) as u64);
            let pane = PaneView { id: new_id, cwd: ws.panes[p].cwd, surfaces: seq![terminal_surface_view(sid)], selected_surface: sid };
            let ws2 = WorkspaceView {
                panes: ws.panes.push(pane),
                layout: SplitTree::Split { axis, first: sp, second: new_id },
                selected_pane: new_id,
                ..ws
            };
            assert(window_unread_ok(m.windows[wi], next));
            assert(workspace_unread_ok(ws, next));
            lemma_terminal_pane_ok(pane, next);
            lemma_push_quiet_pane(ws.panes, pane);
            assert forall|j: int| 0 <= j < ws2.panes.len() implies pane_seqs_below(#[trigger] ws2.panes[j], next) by {
                if j < ws.panes.len() {
                    assert(ws2.panes[j] == ws.panes[j]);
                }
            }
            let m1 = m.with_ids((n + 2) as u64);
            lemma_set_workspace_keeps(m1, wi, k, ws2);
        }
    }
}

proof fn lemma_open_surface_keeps(m: ModelView, n: u64, sv: SurfaceView)
    requires
        m.unread_consistent(),
        !sv.unread,
        sv.unread_sequence is None,
    ensures
        m.open_surface(n, sv).0.unread_consistent(),
{
    let m1 = m.with_ids(n);
    lemma_selected_pane_loc(m1);
    if let Ok((wi, k, p)) = m1.selected_pane_loc() {
        let next = m.next_unread_sequence;
        let pane = m1.pane(wi, k, p);
        let pane2 = PaneView { surfaces: pane.surfaces.push(sv), selected_surface: sv.id, ..pane };
        assert(window_unread_ok(m1.windows[wi], next));
        assert(workspace_unread_ok(m1.workspace(wi, k), next));
        assert(pane_seqs_below(pane, next));
        assert(pane2.surfaces.drop_last() =~= pane.surfaces);
        assert(unread_surfaces(pane2.surfaces) == unread_surfaces(pane.surfaces));
        lemma_seq_equiv_refl(unread_surfaces(pane.surfaces));
        assert forall|j: int| 0 <= j < pane2.surfaces.len() implies surface_key()(#[trigger] pane2.surfaces[j]) < next by {
            if j < pane.surfaces.len() {
                assert(pane2.surfaces[j] == pane.surfaces[j]);
            }
        }
        lemma_set_pane_keeps(m1, wi, k, p, pane2);
    }
}

/// Opening a terminal surface keeps the unread bookkeeping consistent.
pub proof fn law_open_terminal_surface_keeps_unread(m: ModelView)
    requires
        m.unread_consistent(),
    ensures
        m.open_terminal_surface().0.unread_consistent(),
{
    lemma_open_surface_keeps(m, (m.next_id + 1) as u64, terminal_surface_view(SurfaceId((m.next_id + 1) as u64)));
}

/// Opening a browser surface keeps the unread bookkeeping consistent.
pub proof fn law_open_browser_surface_keeps_unread(m: ModelView, url: Seq<char>)
    requires
        m.unread_consistent(),
    ensures
        m.open_browser_surface(url).0.unread_consistent(),
{
    let sid = SurfaceId((m.next_id + 1) as u64);
    lemma_open_surface_keeps(
        m,
        (m.next_id + 1) as u64,
        SurfaceView {
            id: sid,
            kind: SurfaceKind::Browser,
            title: url,
            unread: false,
            unread_message: None,
            unread_sequence: None,
        },
    );
}

/// Replacing pane `p` of workspace `k` of window `i` and recomputing that workspace's summary
/// keeps the bookkeeping consistent when the new pane's sequence numbers are in use.
proof fn lemma_recompute_after_pane(m: ModelView, i: int, k: int, p: int, pane: PaneView)
    requires
        m.unread_consistent(),
        0 <= i < m.windows.len(),
        0 <= k < m.windows[i].workspaces.len(),
        0 <= p < m.workspace(i, k).panes.len(),
        pane_seqs_below(pane, m.next_unread_sequence),
    ensures
        ({
            let m1 = m.set_pane(i, k, p, pane);
            m1.set_workspace(i, k, recompute_workspace(m1.workspace(i, k))).unread_consistent()
        }),
{
    let next = m.next_unread_sequence;
    let ws = m.workspace(i, k);
    assert(window_unread_ok(m.windows[i], next));
    assert(workspace_unread_ok(ws, next));
    let m1 = m.set_pane(i, k, p, pane);
    let ws1 = m1.workspace(i, k);
    assert(ws1 == WorkspaceView { panes: ws.panes.update(p, pane), ..ws });
    let w2 = recompute_workspace(ws1);
    assert forall|j: int| 0 <= j < w2.panes.len() implies pane_seqs_below(#[trigger] w2.panes[j], next) by {
        if j != p {
            assert(w2.panes[j] == ws.panes[j]);
        }
    }
    lemma_set_workspace_keeps(m, i, k, w2);
    let a = m.set_workspace(i, k, w2);
    let b = m1.set_workspace(i, k, w2);
    assert(a.windows[i].workspaces =~= b.windows[i].workspaces);
    assert(a.windows =~= b.windows);
    lemma_same_windows(a, b, a.windows);
}

/// Closing a surface keeps the unread bookkeeping consistent.
pub proof fn law_close_surface_keeps_unread(m: ModelView, id: SurfaceId)
    requires
        m.unread_consistent(),
    ensures
        m.close_surface(id).0.unread_consistent(),
{
    lemma_selected_pane_loc(m);
    if let Ok((wi, k, p)) = m.selected_pane_loc() {
        let pane = m.pane(wi, k, p);
        let s = sv_ix(pane.surfaces, id);
        lemma_first_where_spec(pane.surfaces, sv_is(id));
        if s >= 0 {
            let next = m.next_unread_sequence;
            assert(window_unread_ok(m.windows[wi], next));
            assert(workspace_unread_ok(m.workspace(wi, k), next));
            assert(pane_seqs_below(pane, next));
            let rest = pane.surfaces.remove(s);
            let mm = if rest.len() == 0 { m.with_ids((m.next_id + 1) as u64) } else { m };
            let r = SurfaceId((m.next_id + 1) as u64);
            let pane2 = if rest.len() == 0 {
                PaneView { surfaces: seq![terminal_surface_view(r)], selected_surface: r, ..pane }
            } else {
                PaneView { surfaces: rest, selected_surface: rest[if s == 0 { 0 } else { s - 1 }].id, ..pane }
            };
            assert forall|j: int| 0 <= j < pane2.surfaces.len() implies surface_key()(#[trigger] pane2.surfaces[j]) < next by {
                if rest.len() != 0 {
                    if j < s {
                        assert(pane2.surfaces[j] == pane.surfaces[j]);
                    } else {
                        assert(pane2.surfaces[j] == pane.surfaces[j + 1]);
                    }
                }
            }
            lemma_recompute_after_pane(mm, wi, k, p, pane2);
            let m1 = mm.set_pane(wi, k, p, pane2);
            let m2 = m1.clear_target_if_removed(seq![id]);
            let fin = m2.set_workspace(wi, k, recompute_workspace(m2.workspace(wi, k)));
            assert(fin == m.close_surface(id).0);
            let a = m1.set_workspace(wi, k, recompute_workspace(m1.workspace(wi, k)));
            lemma_ok_seqs(a.windows, next);
            assert forall|i: int| 0 <= i < m1.windows.len() implies win_seqs_below(#[trigger] m1.windows[i], next) by {
                assert(win_seqs_below(a.windows[i], next));
                if i == wi {
                    assert forall|kk: int| 0 <= kk < m1.windows[i].workspaces.len() implies ws_seqs_below(
                        #[trigger] m1.windows[i].workspaces[kk],
                        next,
                    ) by {
                        assert(ws_seqs_below(a.windows[i].workspaces[kk], next));
                        assert(m1.windows[i].workspaces[kk].panes == a.windows[i].workspaces[kk].panes);
                    }
                } else {
                    assert(m1.windows[i] == a.windows[i]);
                }
            }
            lemma_same_windows(a, fin, m1.windows);
        }
    }
}

/// Marking a surface read keeps the unread bookkeeping consistent.
pub proof fn law_mark_surface_read_keeps_unread(m: ModelView, id: SurfaceId)
    requires
        m.unread_consistent(),
    ensures
        m.mark_surface_read(id).0.unread_consistent(),
{
    lemma_surface_loc(m, id);
    if let Some((wi, k, p, s)) = m.surface_loc(id) {
        let next = m.next_unread_sequence;
        let pane = m.pane(wi, k, p);
        assert(window_unread_ok(m.windows[wi], next));
        assert(workspace_unread_ok(m.workspace(wi, k), next));
        assert(pane_seqs_below(pane, next));
        let sv = SurfaceView { unread: false, unread_message: None, unread_sequence: None, ..m.surface(wi, k, p, s) };
        let pane2 = PaneView { surfaces: pane.surfaces.update(s, sv), ..pane };
        assert forall|j: int| 0 <= j < pane2.surfaces.len() implies surface_key()(#[trigger] pane2.surfaces[j]) < next by {
            if j != s {
                assert(pane2.surfaces[j] == pane.surfaces[j]);
            }
        }
        lemma_recompute_after_pane(m, wi, k, p, pane2);
        let ms = m.set_surface(wi, k, p, s, sv);
        assert(ms == m.set_pane(wi, k, p, pane2));
        let m2 = ms.set_workspace(wi, k, recompute_workspace(ms.workspace(wi, k)));
        lemma_ok_seqs(m2.windows, next);
        lemma_newest_below(m2.windows, next);
    }
}

/// Each unread surface of a list of surfaces is one of them.
proof fn lemma_unread_surfaces_from(ss: Seq<SurfaceView>, x: SurfaceView)
    requires
        unread_surfaces(ss).contains(x),
    ensures
        exists|t: int| 0 <= t < ss.len() && ss[t] == x,
    decreases ss.len(),
{
    if ss.len() > 0 {
        let u = unread_surfaces(ss.drop_last());
        if ss.last().unread && x == ss.last() {
            assert(ss[ss.len() - 1] == x);
        } else {
            if ss.last().unread {
                let j = choose|j: int| 0 <= j < u.push(ss.last()).len() && u.push(ss.last())[j] == x;
                assert(j < u.len());
                assert(u.contains(x));
            }
            lemma_unread_surfaces_from(ss.drop_last(), x);
            let t = choose|t: int| 0 <= t < ss.drop_last().len() && ss.drop_last()[t] == x;
            assert(ss[t] == x);
        }
    }
}

/// An unread surface is among the unread surfaces of its list.
proof fn lemma_unread_surfaces_has(ss: Seq<SurfaceView>, t: int)
    requires
        0 <= t < ss.len(),
        ss[t].unread,
    ensures
        unread_surfaces(ss).contains(ss[t]),
    decreases ss.len(),
{
    let u = unread_surfaces(ss.drop_last());
    if t == ss.len() - 1 {
        assert(u.push(ss.last())[u.len() as int] == ss[t]);
    } else {
        lemma_unread_surfaces_has(ss.drop_last(), t);
        let j = choose|j: int| 0 <= j < u.len() && u[j] == ss[t];
        if ss.last().unread {
            assert(u.push(ss.last())[j] == ss[t]);
        }
    }
}

/// Each unread surface of a list of panes is a surface of one of them.
proof fn lemma_panes_unread_from(ps: Seq<PaneView>, x: SurfaceView)
    requires
        panes_unread_surfaces(ps).contains(x),
    ensures
        exists|j: int, t: int| 0 <= j < ps.len() && 0 <= t < ps[j].surfaces.len() && ps[j].surfaces[t] == x,
    decreases ps.len(),
{
    if ps.len() > 0 {
        let a = panes_unread_surfaces(ps.drop_last());
        let b = unread_surfaces(ps.last().surfaces);
        let i = choose|i: int| 0 <= i < (a + b).len() && (a + b)[i] == x;
        if i < a.len() {
            assert(a[i] == x);
            lemma_panes_unread_from(ps.drop_last(), x);
            let (j, t) = choose|j: int, t: int| 0 <= j < ps.drop_last().len() && 0 <= t < ps.drop_last()[j].surfaces.len() && ps.drop_last()[j].surfaces[t] == x;
            assert(ps[j].surfaces[t] == x);
        } else {
            assert(b[i - a.len()] == x);
            lemma_unread_surfaces_from(ps.last().surfaces, x);
            let t = choose|t: int| 0 <= t < ps.last().surfaces.len() && ps.last().surfaces[t] == x;
            assert(ps[ps.len() - 1].surfaces[t] == x);
        }
    }
}

/// An unread surface of a pane is among the unread surfaces of the panes.
proof fn lemma_panes_unread_has(ps: Seq<PaneView>, j: int, t: int)
    requires
        0 <= j < ps.len(),
        0 <= t < ps[j].surfaces.len(),
        ps[j].surfaces[t].unread,
    ensures
        panes_unread_surfaces(ps).contains(ps[j].surfaces[t]),
    decreases ps.len(),
{
    let a = panes_unread_surfaces(ps.drop_last());
    let b = unread_surfaces(ps.last().surfaces);
    let x = ps[j].surfaces[t];
    if j == ps.len() - 1 {
        lemma_unread_surfaces_has(ps.last().surfaces, t);
        let q = choose|q: int| 0 <= q < b.len() && b[q] == x;
        assert((a + b)[a.len() + q] == x);
    } else {
        assert(ps.drop_last()[j] == ps[j]);
        lemma_panes_unread_has(ps.drop_last(), j, t);
        let q = choose|q: int| 0 <= q < a.len() && a[q] == x;
        assert((a + b)[q] == x);
    }
}

proof fn lemma_window_ok_mono(w: WindowView, n1: u64, n2: u64)
    requires
        window_unread_ok(w, n1),
        n1 <= n2,
    ensures
        window_unread_ok(w, n2),
{
    assert forall|k: int| 0 <= k < w.workspaces.len() implies workspace_unread_ok(#[trigger] w.workspaces[k], n2) by {
        let ws = w.workspaces[k];
        assert(workspace_unread_ok(ws, n1));
        assert forall|p: int| 0 <= p < ws.panes.len() implies pane_seqs_below(#[trigger] ws.panes[p], n2) by {
            assert(pane_seqs_below(ws.panes[p], n1));
        }
    }
}

/// When surface `t` of pane `p` is the only unread surface with the highest sequence number,
/// the workspace's summary is that surface's.
proof fn lemma_newest_is(ps: Seq<PaneView>, p: int, t: int, next: u64)
    requires
        0 <= p < ps.len(),
        0 <= t < ps[p].surfaces.len(),
        ps[p].surfaces[t].unread,
        surface_key()(ps[p].surfaces[t]) == next,
        forall|j: int, q: int|
            0 <= j < ps.len() && 0 <= q < ps[j].surfaces.len() && (j != p || q != t) ==> surface_key()(
                #[trigger] ps[j].surfaces[q],
            ) < next,
    ensures
        workspace_unread_state(ps) == (true, ps[p].surfaces[t].unread_message),
{
    let u = panes_unread_surfaces(ps);
    let x = ps[p].surfaces[t];
    lemma_panes_unread_has(ps, p, t);
    lemma_last_max_by_is_max(u, surface_key());
    let mx = last_max_by(u, surface_key()).unwrap();
    let i = choose|i: int| 0 <= i < u.len() && u[i] == x;
    assert(surface_key()(u[i]) <= surface_key()(mx));
    lemma_panes_unread_from(ps, mx);
    let (j, q) = choose|j: int, q: int| 0 <= j < ps.len() && 0 <= q < ps[j].surfaces.len() && ps[j].surfaces[q] == mx;
    if j != p || q != t {
        assert(surface_key()(ps[j].surfaces[q]) < next);
    }
    assert(mx == x);
}

/// Marking a surface unread keeps the unread bookkeeping consistent, while sequence numbers
/// last.
pub proof fn law_mark_surface_unread_keeps_unread(m: ModelView, id: SurfaceId, message: Seq<char>)
    requires
        m.unread_consistent(),
        m.next_unread_sequence < u64::MAX,
    ensures
        m.mark_surface_unread(id, message).0.unread_consistent(),
{
    lemma_surface_loc(m, id);
    if let Some((wi, k, p, s)) = m.surface_loc(id) {
        let next = m.next_unread_sequence;
        let next2 = (next + 1) as u64;
        let ws = m.workspace(wi, k);
        let pane = m.pane(wi, k, p);
        assert(window_unread_ok(m.windows[wi], next));
        assert(workspace_unread_ok(ws, next));
        let sv = SurfaceView { unread: true, unread_message: Some(message), unread_sequence: Some(next), ..m.surface(wi, k, p, s) };
        let pane2 = PaneView { surfaces: pane.surfaces.update(s, sv), ..pane };
        let ps2 = ws.panes.update(p, pane2);
        assert forall|j: int, q: int|
            0 <= j < ps2.len() && 0 <= q < ps2[j].surfaces.len() && (j != p || q != s) implies surface_key()(
                #[trigger] ps2[j].surfaces[q],
            ) < next by {
            assert(pane_seqs_below(ws.panes[j], next));
            if j != p {
                assert(ps2[j] == ws.panes[j]);
            } else {
                assert(ps2[j].surfaces[q] == pane.surfaces[q]);
            }
        }
        assert(ps2[p].surfaces[s] == sv);
        lemma_newest_is(ps2, p, s, next);
        let ms = m.set_surface(wi, k, p, s, sv);
        let ws2 = WorkspaceView { unread: true, latest_notification: Some(message), ..ms.workspace(wi, k) };
        assert(ms.workspace(wi, k).panes == ps2);
        assert forall|j: int| 0 <= j < ws2.panes.len() implies pane_seqs_below(#[trigger] ws2.panes[j], next2) by {
            assert forall|q: int| 0 <= q < ws2.panes[j].surfaces.len() implies surface_key()(#[trigger] ws2.panes[j].surfaces[q]) < next2 by {
                if j != p || q != s {
                    assert(surface_key()(ps2[j].surfaces[q]) < next);
                }
            }
        }
        let m2 = ms.set_workspace(wi, k, ws2);
        let fin = m.mark_surface_unread(id, message).0;
        assert(fin.windows == m2.windows);
        assert(fin.next_unread_sequence == next2);
        assert forall|i: int| 0 <= i < fin.windows.len() implies window_unread_ok(#[trigger] fin.windows[i], next2) by {
            if i != wi {
                assert(fin.windows[i] == m.windows[i]);
                assert(window_unread_ok(m.windows[i], next));
                lemma_window_ok_mono(m.windows[i], next, next2);
            } else {
                let w = m.windows[wi];
                assert forall|kk: int| 0 <= kk < fin.windows[i].workspaces.len() implies workspace_unread_ok(
                    #[trigger] fin.windows[i].workspaces[kk],
                    next2,
                ) by {
                    if kk != k {
                        assert(fin.windows[i].workspaces[kk] == w.workspaces[kk]);
                        lemma_window_ok_mono(w, next, next2);
                    } else {
                        assert(fin.windows[i].workspaces[kk] == ws2);
                    }
                }
            }
        }
    }
}

/// A freshly started application's unread bookkeeping is consistent.
pub proof fn law_new_model_unread_consistent(cwd: Seq<char>)
    ensures
        new_model_view(cwd).unread_consistent(),
{
    let m = new_model_view(cwd);
    let ws = m.windows[0].workspaces[0];
    lemma_terminal_pane_ok(ws.panes[0], m.next_unread_sequence);
    lemma_push_quiet_pane(Seq::<PaneView>::empty(), ws.panes[0]);
    assert(seq![ws.panes[0]] =~= Seq::<PaneView>::empty().push(ws.panes[0]));
    assert(workspace_unread_ok(ws, m.next_unread_sequence));
    assert(window_unread_ok(m.windows[0], m.next_unread_sequence));
}

/// No action the user can ask for breaks the unread bookkeeping: each workspace's unread flag
/// and latest notification stay those of its newest unread surface, whether the action
/// succeeds or fails part way.
pub proof fn law_apply_keeps_unread_consistent(c: ControllerView, a: ActionView)
    requires
        c.model.unread_consistent(),
    ensures
        apply_spec(c, a).0.model.unread_consistent(),
{
    let m = c.model;
    match a {
        ActionView::NewWorkspace { cwd, title } => law_create_workspace_keeps_unread(m, cwd, title),
        ActionView::SelectWorkspace(id) => law_select_workspace_keeps_unread(m, id),
        ActionView::RenameWorkspace { workspace_id, title } => law_rename_workspace_keeps_unread(m, workspace_id, title),
        ActionView::RenameSurface { surface_id, title } => law_rename_surface_keeps_unread(m, surface_id, title),
        ActionView::CloseWorkspace(id) => law_close_workspace_keeps_unread(m, id),
        ActionView::SplitPane(axis) => law_split_keeps_unread(m, axis),
        ActionView::ClosePane(id) => law_close_pane_keeps_unread(m, id),
        ActionView::SelectPane(id) => law_select_pane_keeps_unread(m, id),
        ActionView::NewTerminalTab => law_open_terminal_surface_keeps_unread(m),
        ActionView::SelectSurface(id) => {
            law_select_surface_keeps_unread(m, id);
            law_mark_surface_read_keeps_unread(m.select_surface(id).0, id);
        },
        ActionView::CloseSurface(id) => law_close_surface_keeps_unread(m, id),
        ActionView::JumpLatestUnread => {
            if let Some(t) = m.latest_unread_target {
                law_select_workspace_keeps_unread(m, t.workspace_id);
                let m1 = m.select_workspace(t.workspace_id).0;
                law_select_pane_keeps_unread(m1, t.pane_id);
                let m2 = m1.select_pane(t.pane_id).0;
                law_select_surface_keeps_unread(m2, t.surface_id);
                let m3 = m2.select_surface(t.surface_id).0;
                law_mark_surface_read_keeps_unread(m3, t.surface_id);
            }
        },
        ActionView::MarkSurfaceRead(id) => law_mark_surface_read_keeps_unread(m, id),
        ActionView::SaveSessionNow => {},
    }
}

pub open spec fn surfaces_seq_le(ss: Seq<SurfaceView>, bound: u64) -> bool {
    forall|i: int| 0 <= i < ss.len() ==> seq_of(#[trigger] ss[i]) <= bound
}

pub open spec fn panes_seq_le(ps: Seq<PaneView>, bound: u64) -> bool {
    forall|i: int| 0 <= i < ps.len() ==> surfaces_seq_le(#[trigger] ps[i].surfaces, bound)
}

pub open spec fn workspaces_seq_le(wss: Seq<WorkspaceView>, bound: u64) -> bool {
    forall|k: int| 0 <= k < wss.len() ==> panes_seq_le(#[trigger] wss[k].panes, bound)
}

pub open spec fn windows_seq_le(ws: Seq<WindowView>, bound: u64) -> bool {
    forall|i: int| 0 <= i < ws.len() ==> workspaces_seq_le(#[trigger] ws[i].workspaces, bound)
}

proof fn lemma_max_surface_seq(acc: u64, ss: Seq<SurfaceView>)
    ensures
        acc <= max_surface_seq(acc, ss),
        surfaces_seq_le(ss, max_surface_seq(acc, ss)),
    decreases ss.len(),
{
    if ss.len() > 0 {
        lemma_max_surface_seq(acc, ss.drop_last());
        assert forall|i: int| 0 <= i < ss.len() implies seq_of(#[trigger] ss[i]) <= max_surface_seq(acc, ss) by {
            if i < ss.len() - 1 {
                assert(ss.drop_last()[i] == ss[i]);
            }
        }
    }
}

proof fn lemma_surfaces_seq_le_mono(ss: Seq<SurfaceView>, a: u64, b: u64)
    requires
        surfaces_seq_le(ss, a),
        a <= b,
    ensures
        surfaces_seq_le(ss, b),
{
}

proof fn lemma_max_pane_seq(acc: u64, ps: Seq<PaneView>)
    ensures
        acc <= max_pane_seq(acc, ps),
        panes_seq_le(ps, max_pane_seq(acc, ps)),
    decreases ps.len(),
{
    if ps.len() > 0 {
        let t = ps.drop_last();
        lemma_max_pane_seq(acc, t);
        let mid = max_pane_seq(acc, t);
        lemma_max_surface_seq(mid, ps.last().surfaces);
        assert forall|i: int| 0 <= i < ps.len() implies surfaces_seq_le(#[trigger] ps[i].surfaces, max_pane_seq(acc, ps)) by {
            if i < ps.len() - 1 {
                assert(t[i] == ps[i]);
                lemma_surfaces_seq_le_mono(ps[i].surfaces, mid, max_pane_seq(acc, ps));
            }
        }
    }
}

proof fn lemma_max_workspace_seq(acc: u64, wss: Seq<WorkspaceView>)
    ensures
        acc <= max_workspace_seq(acc, wss),
        workspaces_seq_le(wss, max_workspace_seq(acc, wss)),
    decreases wss.len(),
{
    if wss.len() > 0 {
        let t = wss.drop_last();
        lemma_max_workspace_seq(acc, t);
        let mid = max_workspace_seq(acc, t);
        lemma_max_pane_seq(mid, wss.last().panes);
        let top = max_workspace_seq(acc, wss);
        assert forall|k: int| 0 <= k < wss.len() implies panes_seq_le(#[trigger] wss[k].panes, top) by {
            if k < wss.len() - 1 {
                assert(t[k] == wss[k]);
                assert forall|i: int| 0 <= i < wss[k].panes.len() implies surfaces_seq_le(#[trigger] wss[k].panes[i].surfaces, top) by {
                    lemma_surfaces_seq_le_mono(wss[k].panes[i].surfaces, mid, top);
                }
            }
        }
    }
}

proof fn lemma_max_window_seq(acc: u64, ws: Seq<WindowView>)
    ensures
        acc <= max_window_seq(acc, ws),
        windows_seq_le(ws, max_window_seq(acc, ws)),
    decreases ws.len(),
{
    if ws.len() > 0 {
        let t = ws.drop_last();
        lemma_max_window_seq(acc, t);
        let mid = max_window_seq(acc, t);
        lemma_max_workspace_seq(mid, ws.last().workspaces);
        let top = max_window_seq(acc, ws);
        assert forall|i: int| 0 <= i < ws.len() implies workspaces_seq_le(#[trigger] ws[i].workspaces, top) by {
            if i < ws.len() - 1 {
                assert(t[i] == ws[i]);
                assert forall|k: int| 0 <= k < ws[i].workspaces.len() implies panes_seq_le(#[trigger] ws[i].workspaces[k].panes, top) by {
                    assert forall|j: int| 0 <= j < ws[i].workspaces[k].panes.len() implies surfaces_seq_le(
                        #[trigger] ws[i].workspaces[k].panes[j].surfaces,
                        top,
                    ) by {
                        assert(panes_seq_le(ws[i].workspaces[k].panes, mid));
                        lemma_surfaces_seq_le_mono(ws[i].workspaces[k].panes[j].surfaces, mid, top);
                    }
                }
            }
        }
    }
}

proof fn lemma_restore_panes_seq(ps: Seq<PaneView>, m: u64, bound: u64)
    requires
        panes_seq_le(ps, bound),
    ensures
        panes_seq_le(restore_pane_list(ps, m).0, bound),
        restore_pane_list(ps, m).0.len() == ps.len(),
    decreases ps.len(),
{
    if ps.len() > 0 {
        let t = ps.drop_last();
        assert forall|i: int| 0 <= i < t.len() implies surfaces_seq_le(#[trigger] t[i].surfaces, bound) by {
            assert(t[i] == ps[i]);
        }
        lemma_restore_panes_seq(t, m, bound);
        let (prev, m1) = restore_pane_list(t, m);
        let p = ps.last();
        assert(surfaces_seq_le(ps[ps.len() - 1].surfaces, bound));
        let (ss, sel, m2) = restore_surfaces(p.surfaces, p.selected_surface, m1);
        assert forall|j: int| 0 <= j < ss.len() implies seq_of(#[trigger] ss[j]) <= bound by {
            if j < p.surfaces.len() {
                assert(seq_of(p.surfaces[j]) <= bound);
            }
        }
        let out = prev.push(PaneView { surfaces: ss, selected_surface: sel, ..p });
        assert forall|i: int| 0 <= i < out.len() implies surfaces_seq_le(#[trigger] out[i].surfaces, bound) by {
            if i < prev.len() {
                assert(out[i] == prev[i]);
            }
        }
    }
}

proof fn lemma_restore_workspaces_seq(wss: Seq<WorkspaceView>, m: u64, bound: u64, next: u64)
    requires
        workspaces_seq_le(wss, bound),
        bound < next,
    ensures
        forall|k: int| 0 <= k < restore_workspace_list(wss, m).0.len() ==> workspace_unread_ok(
            #[trigger] restore_workspace_list(wss, m).0[k],
            next,
        ),
    decreases wss.len(),
{
    if wss.len() > 0 {
        let t = wss.drop_last();
        assert forall|k: int| 0 <= k < t.len() implies panes_seq_le(#[trigger] t[k].panes, bound) by {
            assert(t[k] == wss[k]);
        }
        lemma_restore_workspaces_seq(t, m, bound, next);
        let (prev, m1) = restore_workspace_list(t, m);
        let ws = wss.last();
        assert(panes_seq_le(wss[wss.len() - 1].panes, bound));
        lemma_restore_panes_seq(ws.panes, m1, bound);
        let (w, m2) = restore_workspace(ws, m1);
        let (panes, _m3) = restore_pane_list(ws.panes, m1);
        assert(w.panes == panes);
        lemma_summary_current_recompute(
            WorkspaceView {
                panes,
                selected_pane: w.selected_pane,
                layout: reconcile_layout(ws.layout, panes),
                ..ws
            },
        );
        assert forall|p: int| 0 <= p < w.panes.len() implies pane_seqs_below(#[trigger] w.panes[p], next) by {
            assert(surfaces_seq_le(panes[p].surfaces, bound));
            assert forall|q: int| 0 <= q < w.panes[p].surfaces.len() implies surface_key()(#[trigger] w.panes[p].surfaces[q]) < next by {
                assert(seq_of(panes[p].surfaces[q]) <= bound);
            }
        }
        assert(workspace_unread_ok(w, next));
        let out = prev.push(w);
        assert forall|k: int| 0 <= k < out.len() implies workspace_unread_ok(#[trigger] out[k], next) by {
            if k < prev.len() {
                assert(out[k] == prev[k]);
            }
        }
    }
}

proof fn lemma_restore_windows_seq(ws: Seq<WindowView>, m: u64, bound: u64, next: u64)
    requires
        windows_seq_le(ws, bound),
        bound < next,
    ensures
        forall|i: int| 0 <= i < restore_window_list(ws, m).0.len() ==> window_unread_ok(
            #[trigger] restore_window_list(ws, m).0[i],
            next,
        ),
    decreases ws.len(),
{
    if ws.len() > 0 {
        let t = ws.drop_last();
        assert forall|i: int| 0 <= i < t.len() implies workspaces_seq_le(#[trigger] t[i].workspaces, bound) by {
            assert(t[i] == ws[i]);
        }
        lemma_restore_windows_seq(t, m, bound, next);
        let (prev, m1) = restore_window_list(t, m);
        let w = ws.last();
        assert(workspaces_seq_le(ws[ws.len() - 1].workspaces, bound));
        lemma_restore_workspaces_seq(w.workspaces, m1, bound, next);
        let (w2, m2) = restore_window(w, m1);
        assert(window_unread_ok(w2, next));
        let out = prev.push(w2);
        assert forall|i: int| 0 <= i < out.len() implies window_unread_ok(#[trigger] out[i], next) by {
            if i < prev.len() {
                assert(out[i] == prev[i]);
            }
        }
    }
}

/// A restored model's unread bookkeeping is consistent: every workspace's summary is recomputed
/// from its surfaces and the next sequence number is past every stored one — unless a stored
/// sequence number is already the largest there is.
pub proof fn law_restored_model_unread_consistent(s: SnapshotView)
    requires
        max_window_seq(
            match s.latest_unread_target {
                Some(t) => t.sequence,
                None => 0,
            },
            s.windows,
        ) < u64::MAX,
    ensures
        s.restored_model().unread_consistent(),
{
    let acc = match s.latest_unread_target {
        Some(t) => t.sequence,
        None => 0,
    };
    let top = max_window_seq(acc, s.windows);
    lemma_max_window_seq(acc, s.windows);
    let m = s.restored_model();
    assert(m.next_unread_sequence >= top + 1);
    lemma_restore_windows_seq(s.windows, s.max_restored_id(), top, m.next_unread_sequence);
    lemma_ok_seqs(m.windows, m.next_unread_sequence);
    lemma_newest_below(m.windows, m.next_unread_sequence);
}

proof fn lemma_max_surface_seq_upper(acc: u64, ss: Seq<SurfaceView>, next: u64)
    requires
        acc < next,
        forall|s: int| 0 <= s < ss.len() ==> surface_key()(#[trigger] ss[s]) < next,
    ensures
        max_surface_seq(acc, ss) < next,
    decreases ss.len(),
{
    if ss.len() > 0 {
        let t = ss.drop_last();
        assert forall|s: int| 0 <= s < t.len() implies surface_key()(#[trigger] t[s]) < next by {
            assert(t[s] == ss[s]);
        }
        lemma_max_surface_seq_upper(acc, t, next);
        assert(surface_key()(ss[ss.len() - 1]) < next);
    }
}

proof fn lemma_max_pane_seq_upper(acc: u64, ps: Seq<PaneView>, next: u64)
    requires
        acc < next,
        forall|p: int| 0 <= p < ps.len() ==> pane_seqs_below(#[trigger] ps[p], next),
    ensures
        max_pane_seq(acc, ps) < next,
    decreases ps.len(),
{
    if ps.len() > 0 {
        let t = ps.drop_last();
        assert forall|p: int| 0 <= p < t.len() implies pane_seqs_below(#[trigger] t[p], next) by {
            assert(t[p] == ps[p]);
        }
        lemma_max_pane_seq_upper(acc, t, next);
        assert(pane_seqs_below(ps[ps.len() - 1], next));
        lemma_max_surface_seq_upper(max_pane_seq(acc, t), ps.last().surfaces, next);
    }
}

proof fn lemma_max_workspace_seq_upper(acc: u64, wss: Seq<WorkspaceView>, next: u64)
    requires
        acc < next,
        forall|k: int| 0 <= k < wss.len() ==> ws_seqs_below(#[trigger] wss[k], next),
    ensures
        max_workspace_seq(acc, wss) < next,
    decreases wss.len(),
{
    if wss.len() > 0 {
        let t = wss.drop_last();
        assert forall|k: int| 0 <= k < t.len() implies ws_seqs_below(#[trigger] t[k], next) by {
            assert(t[k] == wss[k]);
        }
        lemma_max_workspace_seq_upper(acc, t, next);
        assert(ws_seqs_below(wss[wss.len() - 1], next));
        lemma_max_pane_seq_upper(max_workspace_seq(acc, t), wss.last().panes, next);
    }
}

/// The largest sequence number a consistent model holds, its unread target's included, is
/// below the next one to hand out.
pub proof fn lemma_max_window_seq_upper(m: ModelView)
    requires
        m.unread_consistent(),
    ensures
        max_window_seq(
            match m.latest_unread_target {
                Some(t) => t.sequence,
                None => 0,
            },
            m.windows,
        ) < m.next_unread_sequence,
{
    let acc = match m.latest_unread_target {
        Some(t) => t.sequence,
        None => 0,
    };
    lemma_ok_seqs(m.windows, m.next_unread_sequence);
    lemma_max_window_seq_upper_rec(acc, m.windows, m.next_unread_sequence);
}

proof fn lemma_max_window_seq_upper_rec(acc: u64, ws: Seq<WindowView>, next: u64)
    requires
        acc < next,
        forall|i: int| 0 <= i < ws.len() ==> win_seqs_below(#[trigger] ws[i], next),
    ensures
        max_window_seq(acc, ws) < next,
    decreases ws.len(),
{
    if ws.len() > 0 {
        let t = ws.drop_last();
        assert forall|i: int| 0 <= i < t.len() implies win_seqs_below(#[trigger] t[i], next) by {
            assert(t[i] == ws[i]);
        }
        lemma_max_window_seq_upper_rec(acc, t, next);
        assert(win_seqs_below(ws[ws.len() - 1], next));
        lemma_max_workspace_seq_upper(max_window_seq(acc, t), ws.last().workspaces, next);
    }
}

} // verus!
