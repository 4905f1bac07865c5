use vstd::prelude::*;

use crate::controller_coverage::{pos_valid, Pos};
use crate::ids::{PaneId, SurfaceId, WorkspaceId};
use crate::model::{SplitAxis, SplitTree};
use crate::model_laws::{lemma_selected_pane_loc, lemma_selected_window_loc, lemma_selected_workspace_loc, lemma_surface_loc};
use crate::search::lemma_first_where_spec;
use crate::model_view::{
    panes_targets, surfaces_targets, target_key, target_of, windows_targets, workspaces_targets, ModelView, PaneView,
    SurfaceView, TargetView, WindowView, WorkspaceView, newest_unread_target, new_workspace_view, panes_surface_ids, recompute_workspace, pv_is, pv_ix, sv_is, sv_ix,
    terminal_surface_view, workspace_title_view, wsv_is, wsv_ix,
};
use crate::search::{last_max_by, lemma_last_max_by_is_max};
use crate::unread_laws::{lemma_ok_seqs, lemma_windows_targets_below};
use crate::action::ActionView;
use crate::controller::{apply_spec, ControllerView};
use crate::model::SurfaceKind;
use crate::model_view::new_model_view;

verus! {

/// The unread target the surface at `q` stands for.
pub open spec fn pos_target(m: ModelView, q: Pos) -> TargetView {
    target_of(m.workspace(q.0, q.1).id, m.pane(q.0, q.1, q.2).id, m.surface(q.0, q.1, q.2, q.3))
}

pub open spec fn pos_unread(m: ModelView, q: Pos) -> bool {
    m.surface(q.0, q.1, q.2, q.3).unread
}

pub open spec fn model_targets(m: ModelView) -> Seq<TargetView> {
    windows_targets(m.windows)
}

proof fn lemma_surfaces_targets_from(w: WorkspaceId, p: PaneId, ss: Seq<SurfaceView>, x: TargetView)
    requires
        surfaces_targets(w, p, ss).contains(x),
    ensures
        exists|s: int| 0 <= s < ss.len() && ss[s].unread && x == target_of(w, p, ss[s]),
    decreases ss.len(),
{
    if ss.len() > 0 {
        let t = ss.drop_last();
        let u = surfaces_targets(w, p, t);
        if ss.last().unread && x == target_of(w, p, ss.last()) {
            assert(ss[ss.len() - 1].unread && x == target_of(w, p, ss[ss.len() - 1]));
        } else {
            if ss.last().unread {
                let j = choose|j: int| 0 <= j < u.push(target_of(w, p, ss.last())).len() && u.push(target_of(w, p, ss.last()))[j] == x;
                assert(j < u.len());
                assert(u[j] == x);
            }
            lemma_surfaces_targets_from(w, p, t, x);
            let s = choose|s: int| 0 <= s < t.len() && t[s].unread && x == target_of(w, p, t[s]);
            assert(ss[s] == t[s]);
        }
    }
}

proof fn lemma_surfaces_targets_has(w: WorkspaceId, p: PaneId, ss: Seq<SurfaceView>, s: int)
    requires
        0 <= s < ss.len(),
        ss[s].unread,
    ensures
        surfaces_targets(w, p, ss).contains(target_of(w, p, ss[s])),
    decreases ss.len(),
{
    let t = ss.drop_last();
    let u = surfaces_targets(w, p, t);
    if s == ss.len() - 1 {
        assert(u.push(target_of(w, p, ss.last()))[u.len() as int] == target_of(w, p, ss[s]));
    } else {
        assert(t[s] == ss[s]);
        lemma_surfaces_targets_has(w, p, t, s);
        let j = choose|j: int| 0 <= j < u.len() && u[j] == target_of(w, p, ss[s]);
        if ss.last().unread {
            assert(u.push(target_of(w, p, ss.last()))[j] == target_of(w, p, ss[s]));
        }
    }
}

proof fn lemma_concat_from<T>(a: Seq<T>, b: Seq<T>, x: T)
    requires
        (a + b).contains(x),
    ensures
        a.contains(x) || b.contains(x),
{
    let i = choose|i: int| 0 <= i < (a + b).len() && (a + b)[i] == x;
    if i < a.len() {
        assert(a[i] == x);
    } else {
        assert(b[i - a.len()] == x);
    }
}

proof fn lemma_concat_has<T>(a: Seq<T>, b: Seq<T>, x: T)
    requires
        a.contains(x) || b.contains(x),
    ensures
        (a + b).contains(x),
{
    if a.contains(x) {
        let i = choose|i: int| 0 <= i < a.len() && a[i] == x;
        assert((a + b)[i] == x);
    } else {
        let i = choose|i: int| 0 <= i < b.len() && b[i] == x;
        assert((a + b)[a.len() + i] == x);
    }
}

proof fn lemma_panes_targets_from(w: WorkspaceId, ps: Seq<PaneView>, x: TargetView)
    requires
        panes_targets(w, ps).contains(x),
    ensures
        exists|p: int, s: int|
            0 <= p < ps.len() && 0 <= s < ps[p].surfaces.len() && ps[p].surfaces[s].unread && x == target_of(
                w,
                ps[p].id,
                ps[p].surfaces[s],
            ),
    decreases ps.len(),
{
    if ps.len() > 0 {
        let t = ps.drop_last();
        lemma_concat_from(panes_targets(w, t), surfaces_targets(w, ps.last().id, ps.last().surfaces), x);
        if panes_targets(w, t).contains(x) {
            lemma_panes_targets_from(w, t, x);
            let (p, s) = choose|p: int, s: int|
                0 <= p < t.len() && 0 <= s < t[p].surfaces.len() && t[p].surfaces[s].unread && x == target_of(
                    w,
                    t[p].id,
                    t[p].surfaces[s],
                );
            assert(ps[p] == t[p]);
            assert(0 <= p < ps.len() && 0 <= s < ps[p].surfaces.len() && ps[p].surfaces[s].unread && x == target_of(w, ps[p].id, ps[p].surfaces[s]));
        } else {
            lemma_surfaces_targets_from(w, ps.last().id, ps.last().surfaces, x);
            let s = choose|s: int|
                0 <= s < ps.last().surfaces.len() && ps.last().surfaces[s].unread && x == target_of(
                    w,
                    ps.last().id,
                    ps.last().surfaces[s],
                );
            let p = ps.len() - 1;
            assert(ps[p] == ps.last());
            assert(0 <= p < ps.len() && 0 <= s < ps[p].surfaces.len() && ps[p].surfaces[s].unread && x == target_of(w, ps[p].id, ps[p].surfaces[s]));
        }
    }
}

proof fn lemma_panes_targets_has(w: WorkspaceId, ps: Seq<PaneView>, p: int, s: int)
    requires
        0 <= p < ps.len(),
        0 <= s < ps[p].surfaces.len(),
        ps[p].surfaces[s].unread,
    ensures
        panes_targets(w, ps).contains(target_of(w, ps[p].id, ps[p].surfaces[s])),
    decreases ps.len(),
{
    let t = ps.drop_last();
    let x = target_of(w, ps[p].id, ps[p].surfaces[s]);
    if p == ps.len() - 1 {
        lemma_surfaces_targets_has(w, ps.last().id, ps.last().surfaces, s);
    } else {
        assert(t[p] == ps[p]);
        lemma_panes_targets_has(w, t, p, s);
    }
    lemma_concat_has(panes_targets(w, t), surfaces_targets(w, ps.last().id, ps.last().surfaces), x);
}

proof fn lemma_workspaces_targets_from(wss: Seq<WorkspaceView>, x: TargetView)
    requires
        workspaces_targets(wss).contains(x),
    ensures
        exists|k: int, p: int, s: int|
            0 <= k < wss.len() && 0 <= p < wss[k].panes.len() && 0 <= s < wss[k].panes[p].surfaces.len()
                && wss[k].panes[p].surfaces[s].unread && x == target_of(
                wss[k].id,
                wss[k].panes[p].id,
                wss[k].panes[p].surfaces[s],
            ),
    decreases wss.len(),
{
    if wss.len() > 0 {
        let t = wss.drop_last();
        lemma_concat_from(workspaces_targets(t), panes_targets(wss.last().id, wss.last().panes), x);
        if workspaces_targets(t).contains(x) {
            lemma_workspaces_targets_from(t, x);
            let (k, p, s) = choose|k: int, p: int, s: int|
                0 <= k < t.len() && 0 <= p < t[k].panes.len() && 0 <= s < t[k].panes[p].surfaces.len()
                    && t[k].panes[p].surfaces[s].unread && x == target_of(
                    t[k].id,
                    t[k].panes[p].id,
                    t[k].panes[p].surfaces[s],
                );
            assert(wss[k] == t[k]);
            assert(0 <= k < wss.len() && 0 <= p < wss[k].panes.len() && 0 <= s < wss[k].panes[p].surfaces.len()
                && wss[k].panes[p].surfaces[s].unread && x == target_of(wss[k].id, wss[k].panes[p].id, wss[k].panes[p].surfaces[s]));
        } else {
            lemma_panes_targets_from(wss.last().id, wss.last().panes, x);
            let k = wss.len() - 1;
            assert(wss[k] == wss.last());
            let (p, s) = choose|p: int, s: int|
                0 <= p < wss[k].panes.len() && 0 <= s < wss[k].panes[p].surfaces.len() && wss[k].panes[p].surfaces[s].unread
                    && x == target_of(wss[k].id, wss[k].panes[p].id, wss[k].panes[p].surfaces[s]);
            assert(0 <= k < wss.len() && 0 <= p < wss[k].panes.len() && 0 <= s < wss[k].panes[p].surfaces.len()
                && wss[k].panes[p].surfaces[s].unread && x == target_of(wss[k].id, wss[k].panes[p].id, wss[k].panes[p].surfaces[s]));
        }
    }
}

proof fn lemma_workspaces_targets_has(wss: Seq<WorkspaceView>, k: int, p: int, s: int)
    requires
        0 <= k < wss.len(),
        0 <= p < wss[k].panes.len(),
        0 <= s < wss[k].panes[p].surfaces.len(),
        wss[k].panes[p].surfaces[s].unread,
    ensures
        workspaces_targets(wss).contains(target_of(wss[k].id, wss[k].panes[p].id, wss[k].panes[p].surfaces[s])),
    decreases wss.len(),
{
    let t = wss.drop_last();
    let x = target_of(wss[k].id, wss[k].panes[p].id, wss[k].panes[p].surfaces[s]);
    if k == wss.len() - 1 {
        lemma_panes_targets_has(wss.last().id, wss.last().panes, p, s);
    } else {
        assert(t[k] == wss[k]);
        lemma_workspaces_targets_has(t, k, p, s);
    }
    lemma_concat_has(workspaces_targets(t), panes_targets(wss.last().id, wss.last().panes), x);
}

proof fn lemma_windows_targets_from(ws: Seq<WindowView>, x: TargetView)
    requires
        windows_targets(ws).contains(x),
    ensures
        exists|i: int, k: int, p: int, s: int|
            0 <= i < ws.len() && 0 <= k < ws[i].workspaces.len() && 0 <= p < ws[i].workspaces[k].panes.len() && 0 <= s
                < ws[i].workspaces[k].panes[p].surfaces.len() && ws[i].workspaces[k].panes[p].surfaces[s].unread && x
                == target_of(
                ws[i].workspaces[k].id,
                ws[i].workspaces[k].panes[p].id,
                ws[i].workspaces[k].panes[p].surfaces[s],
            ),
    decreases ws.len(),
{
    if ws.len() > 0 {
        let t = ws.drop_last();
        lemma_concat_from(windows_targets(t), workspaces_targets(ws.last().workspaces), x);
        if windows_targets(t).contains(x) {
            lemma_windows_targets_from(t, x);
            let (i, k, p, s) = choose|i: int, k: int, p: int, s: int|
                0 <= i < t.len() && 0 <= k < t[i].workspaces.len() && 0 <= p < t[i].workspaces[k].panes.len() && 0
                    <= s < t[i].workspaces[k].panes[p].surfaces.len() && t[i].workspaces[k].panes[p].surfaces[s].unread
                    && x == target_of(
                    t[i].workspaces[k].id,
                    t[i].workspaces[k].panes[p].id,
                    t[i].workspaces[k].panes[p].surfaces[s],
                );
            assert(ws[i] == t[i]);
            assert(0 <= i < ws.len() && 0 <= k < ws[i].workspaces.len() && 0 <= p < ws[i].workspaces[k].panes.len() && 0 <= s
                < ws[i].workspaces[k].panes[p].surfaces.len() && ws[i].workspaces[k].panes[p].surfaces[s].unread && x
                == target_of(ws[i].workspaces[k].id, ws[i].workspaces[k].panes[p].id, ws[i].workspaces[k].panes[p].surfaces[s]));
        } else {
            lemma_workspaces_targets_from(ws.last().workspaces, x);
            let i = ws.len() - 1;
            assert(ws[i] == ws.last());
            let (k, p, s) = choose|k: int, p: int, s: int|
                0 <= k < ws[i].workspaces.len() && 0 <= p < ws[i].workspaces[k].panes.len() && 0 <= s
                    < ws[i].workspaces[k].panes[p].surfaces.len() && ws[i].workspaces[k].panes[p].surfaces[s].unread && x
                    == target_of(ws[i].workspaces[k].id, ws[i].workspaces[k].panes[p].id, ws[i].workspaces[k].panes[p].surfaces[s]);
            assert(0 <= i < ws.len() && 0 <= k < ws[i].workspaces.len() && 0 <= p < ws[i].workspaces[k].panes.len() && 0 <= s
                < ws[i].workspaces[k].panes[p].surfaces.len() && ws[i].workspaces[k].panes[p].surfaces[s].unread && x
                == target_of(ws[i].workspaces[k].id, ws[i].workspaces[k].panes[p].id, ws[i].workspaces[k].panes[p].surfaces[s]));
        }
    }
}

proof fn lemma_windows_targets_has(ws: Seq<WindowView>, i: int, k: int, p: int, s: int)
    requires
        0 <= i < ws.len(),
        0 <= k < ws[i].workspaces.len(),
        0 <= p < ws[i].workspaces[k].panes.len(),
        0 <= s < ws[i].workspaces[k].panes[p].surfaces.len(),
        ws[i].workspaces[k].panes[p].surfaces[s].unread,
    ensures
        windows_targets(ws).contains(
            target_of(ws[i].workspaces[k].id, ws[i].workspaces[k].panes[p].id, ws[i].workspaces[k].panes[p].surfaces[s]),
        ),
    decreases ws.len(),
{
    let t = ws.drop_last();
    let x = target_of(ws[i].workspaces[k].id, ws[i].workspaces[k].panes[p].id, ws[i].workspaces[k].panes[p].surfaces[s]);
    if i == ws.len() - 1 {
        lemma_workspaces_targets_has(ws.last().workspaces, k, p, s);
    } else {
        assert(t[i] == ws[i]);
        lemma_windows_targets_has(t, i, k, p, s);
    }
    lemma_concat_has(windows_targets(t), workspaces_targets(ws.last().workspaces), x);
}

/// Each unread target of the model is that of an unread surface at some place.
pub proof fn lemma_model_targets_from(m: ModelView, x: TargetView)
    requires
        model_targets(m).contains(x),
    ensures
        exists|q: Pos| pos_valid(m, q) && pos_unread(m, q) && #[trigger] pos_target(m, q) == x,
{
    lemma_windows_targets_from(m.windows, x);
    let (i, k, p, s) = choose|i: int, k: int, p: int, s: int|
        0 <= i < m.windows.len() && 0 <= k < m.windows[i].workspaces.len() && 0 <= p < m.windows[i].workspaces[k].panes.len()
            && 0 <= s < m.windows[i].workspaces[k].panes[p].surfaces.len()
            && m.windows[i].workspaces[k].panes[p].surfaces[s].unread && x == target_of(
            m.windows[i].workspaces[k].id,
            m.windows[i].workspaces[k].panes[p].id,
            m.windows[i].workspaces[k].panes[p].surfaces[s],
        );
    assert(pos_target(m, (i, k, p, s)) == x);
}

/// The unread surface at a place gives one of the model's unread targets.
pub proof fn lemma_model_targets_has(m: ModelView, q: Pos)
    requires
        pos_valid(m, q),
        pos_unread(m, q),
    ensures
        model_targets(m).contains(pos_target(m, q)),
{
    lemma_windows_targets_has(m.windows, q.0, q.1, q.2, q.3);
}

/// No two unread targets share a sequence number.
pub open spec fn seqs_distinct(ts: Seq<TargetView>) -> bool {
    forall|x: TargetView, y: TargetView| #[trigger] ts.contains(x) && #[trigger] ts.contains(y) && x.sequence == y.sequence ==> x == y
}

impl ModelView {
    /// The latest unread target is the newest unread surface, and no two unread surfaces wait
    /// with the same sequence number.
    pub open spec fn target_current(self) -> bool {
        &&& self.latest_unread_target == newest_unread_target(self.windows)
        &&& seqs_distinct(model_targets(self))
    }
}

/// Dropping targets other than the newest keeps the newest.
proof fn lemma_newest_stays(a: Seq<TargetView>, b: Seq<TargetView>)
    requires
        seqs_distinct(a),
        forall|x: TargetView| #[trigger] b.contains(x) ==> a.contains(x),
        last_max_by(a, target_key()) matches Some(t) ==> b.contains(t),
    ensures
        seqs_distinct(b),
        last_max_by(b, target_key()) == last_max_by(a, target_key()),
{
    lemma_last_max_by_is_max(a, target_key());
    lemma_last_max_by_is_max(b, target_key());
    match last_max_by(a, target_key()) {
        None => {
            if b.len() > 0 {
                assert(b.contains(b[0]));
                assert(a.contains(b[0]));
            }
        },
        Some(t) => {
            let mx = last_max_by(b, target_key()).unwrap();
            assert(b.contains(mx));
            assert(a.contains(mx));
            let j = choose|j: int| 0 <= j < a.len() && a[j] == mx;
            assert(target_key()(a[j]) <= target_key()(t));
            let i = choose|i: int| 0 <= i < b.len() && b[i] == t;
            assert(target_key()(b[i]) <= target_key()(mx));
            assert(a.contains(t));
        },
    }
}

/// Every unread place of `m2` is, through `f`, an unread place of `m` with the same target.
pub open spec fn targets_kept(m: ModelView, m2: ModelView, f: spec_fn(Pos) -> Pos) -> bool {
    forall|q: Pos|
        pos_valid(m2, q) && pos_unread(m2, q) ==> pos_valid(m, #[trigger] f(q)) && pos_unread(m, f(q)) && pos_target(
            m,
            f(q),
        ) == pos_target(m2, q)
}

proof fn lemma_subset_by_map(m: ModelView, m2: ModelView, f: spec_fn(Pos) -> Pos)
    requires
        targets_kept(m, m2, f),
    ensures
        forall|x: TargetView| #[trigger] model_targets(m2).contains(x) ==> model_targets(m).contains(x),
{
    assert forall|x: TargetView| #[trigger] model_targets(m2).contains(x) implies model_targets(m).contains(x) by {
        lemma_model_targets_from(m2, x);
        let q = choose|q: Pos| pos_valid(m2, q) && pos_unread(m2, q) && #[trigger] pos_target(m2, q) == x;
        assert(pos_valid(m, f(q)) && pos_unread(m, f(q)) && pos_target(m, f(q)) == x);
        lemma_model_targets_has(m, f(q));
    }
}

/// A change that keeps the target and loses no unread target but the ones it drops, the
/// newest excepted, keeps the target current.
proof fn lemma_current_kept(m: ModelView, m2: ModelView, f: spec_fn(Pos) -> Pos)
    requires
        m.target_current(),
        targets_kept(m, m2, f),
        m2.latest_unread_target == m.latest_unread_target,
        m.latest_unread_target matches Some(t) ==> model_targets(m2).contains(t),
    ensures
        m2.target_current(),
{
    lemma_subset_by_map(m, m2, f);
    lemma_newest_stays(model_targets(m), model_targets(m2));
}

/// A change that loses unread targets and then recomputes the target keeps it current.
proof fn lemma_current_recomputed(m: ModelView, m2: ModelView, f: spec_fn(Pos) -> Pos)
    requires
        m.target_current(),
        targets_kept(m, m2, f),
        m2.latest_unread_target == newest_unread_target(m2.windows),
    ensures
        m2.target_current(),
{
    lemma_subset_by_map(m, m2, f);
    assert forall|x: TargetView, y: TargetView|
        #[trigger] model_targets(m2).contains(x) && #[trigger] model_targets(m2).contains(y) && x.sequence == y.sequence implies x == y by {
        assert(model_targets(m).contains(x) && model_targets(m).contains(y));
    }
}

/// Moving to a model with the same places, each with the same unread target, and the same
/// latest target, keeps the target current.
proof fn lemma_current_same_places(m: ModelView, m2: ModelView)
    requires
        m.target_current(),
        m2.latest_unread_target == m.latest_unread_target,
        forall|q: Pos| #[trigger] pos_valid(m2, q) <==> pos_valid(m, q),
        forall|q: Pos| #[trigger] pos_valid(m2, q) ==> pos_unread(m2, q) == pos_unread(m, q) && pos_target(m2, q) == pos_target(m, q),
    ensures
        m2.target_current(),
{
    let f = |q: Pos| q;
    assert(targets_kept(m, m2, f));
    if let Some(t) = m.latest_unread_target {
        lemma_last_max_by_is_max(model_targets(m), target_key());
        lemma_model_targets_from(m, t);
        let q = choose|q: Pos| pos_valid(m, q) && pos_unread(m, q) && #[trigger] pos_target(m, q) == t;
        assert(pos_valid(m2, q));
        lemma_model_targets_has(m2, q);
    }
    lemma_current_kept(m, m2, f);
}

proof fn lemma_keep_set_window(m: ModelView, i: int, w: WindowView)
    requires
        m.target_current(),
        0 <= i < m.windows.len(),
        w.workspaces == m.windows[i].workspaces,
    ensures
        m.set_window(i, w).target_current(),
{
    let m2 = m.set_window(i, w);
    assert forall|q: Pos| #[trigger] pos_valid(m2, q) <==> pos_valid(m, q) by {
        if 0 <= q.0 < m.windows.len() && q.0 != i {
            assert(m2.windows[q.0] == m.windows[q.0]);
        }
    }
    assert forall|q: Pos| #[trigger] pos_valid(m2, q) implies pos_unread(m2, q) == pos_unread(m, q) && pos_target(m2, q)
        == pos_target(m, q) by {
        if q.0 != i {
            assert(m2.windows[q.0] == m.windows[q.0]);
        }
    }
    lemma_current_same_places(m, m2);
}

proof fn lemma_keep_set_workspace(m: ModelView, i: int, k: int, ws: WorkspaceView)
    requires
        m.target_current(),
        0 <= i < m.windows.len(),
        0 <= k < m.windows[i].workspaces.len(),
        ws.id == m.workspace(i, k).id,
        ws.panes == m.workspace(i, k).panes,
    ensures
        m.set_workspace(i, k, ws).target_current(),
{
    let m2 = m.set_workspace(i, k, ws);
    assert forall|q: Pos| #[trigger] pos_valid(m2, q) <==> pos_valid(m, q) by {
        if 0 <= q.0 < m.windows.len() {
            if q.0 != i {
                assert(m2.windows[q.0] == m.windows[q.0]);
            } else if 0 <= q.1 < m.windows[i].workspaces.len() && q.1 != k {
                assert(m2.workspace(q.0, q.1) == m.workspace(q.0, q.1));
            }
        }
    }
    assert forall|q: Pos| #[trigger] pos_valid(m2, q) implies pos_unread(m2, q) == pos_unread(m, q) && pos_target(m2, q)
        == pos_target(m, q) by {
        if q.0 != i {
            assert(m2.windows[q.0] == m.windows[q.0]);
        } else if q.1 != k {
            assert(m2.workspace(q.0, q.1) == m.workspace(q.0, q.1));
        }
    }
    lemma_current_same_places(m, m2);
}

proof fn lemma_keep_set_pane(m: ModelView, i: int, k: int, p: int, pane: PaneView)
    requires
        m.target_current(),
        0 <= i < m.windows.len(),
        0 <= k < m.windows[i].workspaces.len(),
        0 <= p < m.workspace(i, k).panes.len(),
        pane.id == m.pane(i, k, p).id,
        pane.surfaces.len() == m.pane(i, k, p).surfaces.len(),
        forall|s: int| 0 <= s < pane.surfaces.len() ==> (#[trigger] pane.surfaces[s]).unread == m.pane(i, k, p).surfaces[s].unread
            && target_of(m.workspace(i, k).id, pane.id, pane.surfaces[s]) == target_of(
            m.workspace(i, k).id,
            pane.id,
            m.pane(i, k, p).surfaces[s],
        ),
    ensures
        m.set_pane(i, k, p, pane).target_current(),
{
    let m2 = m.set_pane(i, k, p, pane);
    assert forall|q: Pos| #[trigger] pos_valid(m2, q) <==> pos_valid(m, q) by {
        if 0 <= q.0 < m.windows.len() {
            if q.0 != i {
                assert(m2.windows[q.0] == m.windows[q.0]);
            } else if 0 <= q.1 < m.windows[i].workspaces.len() {
                if q.1 != k {
                    assert(m2.workspace(q.0, q.1) == m.workspace(q.0, q.1));
                } else if 0 <= q.2 < m.workspace(i, k).panes.len() && q.2 != p {
                    assert(m2.pane(q.0, q.1, q.2) == m.pane(q.0, q.1, q.2));
                }
            }
        }
    }
    assert forall|q: Pos| #[trigger] pos_valid(m2, q) implies pos_unread(m2, q) == pos_unread(m, q) && pos_target(m2, q)
        == pos_target(m, q) by {
        if q.0 != i {
            assert(m2.windows[q.0] == m.windows[q.0]);
        } else if q.1 != k {
            assert(m2.workspace(q.0, q.1) == m.workspace(q.0, q.1));
        } else if q.2 != p {
            assert(m2.pane(q.0, q.1, q.2) == m.pane(q.0, q.1, q.2));
        } else {
            assert(m2.surface(q.0, q.1, q.2, q.3) == pane.surfaces[q.3]);
        }
    }
    lemma_current_same_places(m, m2);
}

/// Selecting a workspace keeps the unread target current.
pub proof fn law_select_workspace_keeps_target(m: ModelView, id: WorkspaceId)
    requires
        m.target_current(),
    ensures
        m.select_workspace(id).0.target_current(),
{
    lemma_selected_window_loc(m);
    if let Ok(wi) = m.selected_window_loc() {
        if wsv_ix(m.windows[wi].workspaces, id) >= 0 {
            lemma_keep_set_window(m, wi, WindowView { selected_workspace: id, ..m.windows[wi] });
        }
    }
}

/// Renaming a workspace keeps the unread target current.
pub proof fn law_rename_workspace_keeps_target(m: ModelView, id: WorkspaceId, title: Seq<char>)
    requires
        m.target_current(),
    ensures
        m.rename_workspace(id, title).0.target_current(),
{
    lemma_selected_window_loc(m);
    if let Ok(wi) = m.selected_window_loc() {
        let k = wsv_ix(m.windows[wi].workspaces, id);
        lemma_first_where_spec(m.windows[wi].workspaces, wsv_is(id));
        if k >= 0 {
            lemma_keep_set_workspace(m, wi, k, WorkspaceView { title, ..m.workspace(wi, k) });
        }
    }
}

/// Selecting a pane keeps the unread target current.
pub proof fn law_select_pane_keeps_target(m: ModelView, id: PaneId)
    requires
        m.target_current(),
    ensures
        m.select_pane(id).0.target_current(),
{
    lemma_selected_workspace_loc(m);
    if let Ok((wi, k)) = m.selected_workspace_loc() {
        if pv_ix(m.workspace(wi, k).panes, id) >= 0 {
            lemma_keep_set_workspace(m, wi, k, WorkspaceView { selected_pane: id, ..m.workspace(wi, k) });
        }
    }
}

/// Selecting a surface keeps the unread target current.
pub proof fn law_select_surface_keeps_target(m: ModelView, id: SurfaceId)
    requires
        m.target_current(),
    ensures
        m.select_surface(id).0.target_current(),
{
    lemma_selected_pane_loc(m);
    if let Ok((wi, k, p)) = m.selected_pane_loc() {
        if sv_ix(m.pane(wi, k, p).surfaces, id) >= 0 {
            lemma_keep_set_pane(m, wi, k, p, PaneView { selected_surface: id, ..m.pane(wi, k, p) });
        }
    }
}

/// Renaming a surface keeps the unread target current.
pub proof fn law_rename_surface_keeps_target(m: ModelView, id: SurfaceId, title: Seq<char>)
    requires
        m.target_current(),
    ensures
        m.rename_surface(id, title).0.target_current(),
{
    lemma_surface_loc(m, id);
    if let Some((wi, k, p, s)) = m.surface_loc(id) {
        let pane = m.pane(wi, k, p);
        let sv = SurfaceView { title, ..m.surface(wi, k, p, s) };
        let pane2 = PaneView { surfaces: pane.surfaces.update(s, sv), ..pane };
        lemma_keep_set_pane(m, wi, k, p, pane2);
    }
}

/// Where the model only gains places, none of them unread, and keeps every old place as it
/// was, the unread target stays current.
proof fn lemma_current_grown(m: ModelView, m2: ModelView)
    requires
        m.target_current(),
        m2.latest_unread_target == m.latest_unread_target,
        forall|q: Pos| #[trigger] pos_valid(m, q) ==> pos_valid(m2, q) && pos_unread(m2, q) == pos_unread(m, q) && pos_target(m2, q) == pos_target(m, q),
        forall|q: Pos| #[trigger] pos_valid(m2, q) && pos_unread(m2, q) ==> pos_valid(m, q),
    ensures
        m2.target_current(),
{
    let f = |q: Pos| q;
    assert(targets_kept(m, m2, f));
    if let Some(t) = m.latest_unread_target {
        lemma_last_max_by_is_max(model_targets(m), target_key());
        lemma_model_targets_from(m, t);
        let q = choose|q: Pos| pos_valid(m, q) && pos_unread(m, q) && #[trigger] pos_target(m, q) == t;
        lemma_model_targets_has(m2, q);
    }
    lemma_current_kept(m, m2, f);
}

/// Creating a workspace keeps the unread target current.
pub proof fn law_create_workspace_keeps_target(m: ModelView, cwd: Seq<char>, title: Option<Seq<char>>)
    requires
        m.target_current(),
    ensures
        m.create_workspace(cwd, title).0.target_current(),
{
    let n = m.next_id;
    let t = match title {
        Some(t) => t,
        None => workspace_title_view(cwd),
    };
    let ws = new_workspace_view(n, cwd, t);
    let m1 = m.with_ids((n + 3) as u64);
    lemma_selected_window_loc(m1);
    if let Ok(wi) = m1.selected_window_loc() {
        let w = m1.windows[wi];
        let w2 = WindowView { workspaces: w.workspaces.push(ws), selected_workspace: ws.id, ..w };
        let m2 = m1.set_window(wi, w2);
        assert forall|q: Pos| #[trigger] pos_valid(m, q) implies pos_valid(m2, q) && pos_unread(m2, q) == pos_unread(m, q)
            && pos_target(m2, q) == pos_target(m, q) by {
            if q.0 != wi {
                assert(m2.windows[q.0] == m.windows[q.0]);
            } else {
                assert(m2.workspace(q.0, q.1) == m.workspace(q.0, q.1));
            }
        }
        assert forall|q: Pos| #[trigger] pos_valid(m2, q) && pos_unread(m2, q) implies pos_valid(m, q) by {
            if q.0 == wi && q.1 == w.workspaces.len() {
                assert(m2.workspace(q.0, q.1) == ws);
                assert(q.2 == 0 && q.3 == 0);
            } else if q.0 == wi {
                assert(m2.workspace(q.0, q.1) == m.workspace(q.0, q.1));
            } else {
                assert(m2.windows[q.0] == m.windows[q.0]);
            }
        }
        lemma_current_grown(m, m2);
    }
}

/// Splitting the selected pane keeps the unread target current.
pub proof fn law_split_keeps_target(m: ModelView, axis: SplitAxis)
    requires
        m.target_current(),
    ensures
        m.split_selected_pane(axis).0.target_current(),
{
    lemma_selected_workspace_loc(m);
    if let Ok((wi, k)) = m.selected_workspace_loc() {
        let ws = m.workspace(wi, k);
        let sp = ws.selected_pane;
        let p = pv_ix(ws.panes, sp);
        lemma_first_where_spec(ws.panes, pv_is(sp));
        if !(ws.layout is Split) && p >= 0 {
            let n = m.next_id;
            let new_id = PaneId((n + 1) as u64);
            let sid = SurfaceId((n + 2) as u64);
            let pane = PaneView { id: new_id, cwd: ws.panes[p].cwd, surfaces: seq![terminal_surface_view(sid)], selected_surface: sid };
            let ws2 = WorkspaceView {
                panes: ws.panes.push(pane),
                layout: SplitTree::Split { axis, first: sp, second: new_id },
                selected_pane: new_id,
                ..ws
            };
            let m2 = m.with_ids((n + 2) as u64).set_workspace(wi, k, ws2);
            assert forall|q: Pos| #[trigger] pos_valid(m, q) implies pos_valid(m2, q) && pos_unread(m2, q) == pos_unread(m, q)
                && pos_target(m2, q) == pos_target(m, q) by {
                if q.0 != wi {
                    assert(m2.windows[q.0] == m.windows[q.0]);
                } else if q.1 != k {
                    assert(m2.workspace(q.0, q.1) == m.workspace(q.0, q.1));
                } else {
                    assert(m2.pane(q.0, q.1, q.2) == m.pane(q.0, q.1, q.2));
                }
            }
            assert forall|q: Pos| #[trigger] pos_valid(m2, q) && pos_unread(m2, q) implies pos_valid(m, q) by {
                if q.0 != wi {
                    assert(m2.windows[q.0] == m.windows[q.0]);
                } else if q.1 != k {
                    assert(m2.workspace(q.0, q.1) == m.workspace(q.0, q.1));
                } else if q.2 == ws.panes.len() {
                    assert(m2.pane(q.0, q.1, q.2) == pane);
                } else {
                    assert(m2.pane(q.0, q.1, q.2) == m.pane(q.0, q.1, q.2));
                }
            }
            lemma_current_grown(m, m2);
        }
    }
}

proof fn lemma_open_surface_keeps_target(m: ModelView, n: u64, sv: SurfaceView)
    requires
        m.target_current(),
        !sv.unread,
    ensures
        m.open_surface(n, sv).0.target_current(),
{
    let m1 = m.with_ids(n);
    lemma_selected_pane_loc(m1);
    if let Ok((wi, k, p)) = m1.selected_pane_loc() {
        let pane = m1.pane(wi, k, p);
        let pane2 = PaneView { surfaces: pane.surfaces.push(sv), selected_surface: sv.id, ..pane };
        let m2 = m1.set_pane(wi, k, p, pane2);
        assert forall|q: Pos| #[trigger] pos_valid(m, q) implies pos_valid(m2, q) && pos_unread(m2, q) == pos_unread(m, q)
            && pos_target(m2, q) == pos_target(m, q) by {
            if q.0 != wi {
                assert(m2.windows[q.0] == m.windows[q.0]);
            } else if q.1 != k {
                assert(m2.workspace(q.0, q.1) == m.workspace(q.0, q.1));
            } else if q.2 != p {
                assert(m2.pane(q.0, q.1, q.2) == m.pane(q.0, q.1, q.2));
            } else {
                assert(m2.surface(q.0, q.1, q.2, q.3) == m.surface(q.0, q.1, q.2, q.3));
            }
        }
        assert forall|q: Pos| #[trigger] pos_valid(m2, q) && pos_unread(m2, q) implies pos_valid(m, q) by {
            if q.0 != wi {
                assert(m2.windows[q.0] == m.windows[q.0]);
            } else if q.1 != k {
                assert(m2.workspace(q.0, q.1) == m.workspace(q.0, q.1));
            } else if q.2 != p {
                assert(m2.pane(q.0, q.1, q.2) == m.pane(q.0, q.1, q.2));
            } else if q.3 == pane.surfaces.len() {
                assert(m2.surface(q.0, q.1, q.2, q.3) == sv);
            }
        }
        lemma_current_grown(m, m2);
    }
}

/// Opening a terminal surface keeps the unread target current.
pub proof fn law_open_terminal_surface_keeps_target(m: ModelView)
    requires
        m.target_current(),
    ensures
        m.open_terminal_surface().0.target_current(),
{
    lemma_open_surface_keeps_target(m, (m.next_id + 1) as u64, terminal_surface_view(SurfaceId((m.next_id + 1) as u64)));
}

pub(crate) proof fn lemma_panes_surface_ids_has(ps: Seq<PaneView>, p: int, s: int)
    requires
        0 <= p < ps.len(),
        0 <= s < ps[p].surfaces.len(),
    ensures
        panes_surface_ids(ps).contains(ps[p].surfaces[s].id),
    decreases ps.len(),
{
    let t = ps.drop_last();
    let tail = ps.last().surfaces.map_values(|x: SurfaceView| x.id);
    if p == ps.len() - 1 {
        assert(tail[s] == ps[p].surfaces[s].id);
        assert(tail.contains(ps[p].surfaces[s].id));
    } else {
        assert(t[p] == ps[p]);
        lemma_panes_surface_ids_has(t, p, s);
    }
    lemma_concat_has(panes_surface_ids(t), tail, ps[p].surfaces[s].id);
}

/// The place of the current target, in a model whose target is current.
proof fn lemma_target_place(m: ModelView) -> (q: Pos)
    requires
        m.target_current(),
        m.latest_unread_target is Some,
    ensures
        pos_valid(m, q),
        pos_unread(m, q),
        pos_target(m, q) == m.latest_unread_target.unwrap(),
        pos_target(m, q).surface_id == m.surface(q.0, q.1, q.2, q.3).id,
{
    lemma_last_max_by_is_max(model_targets(m), target_key());
    let t = m.latest_unread_target.unwrap();
    lemma_model_targets_from(m, t);
    choose|q: Pos| pos_valid(m, q) && pos_unread(m, q) && #[trigger] pos_target(m, q) == t
}

/// After a change that maps unread places back through `f`, clearing the target when it is
/// among `removed` keeps it current, provided it survives when it is not removed.
proof fn lemma_current_cleared(m: ModelView, m2: ModelView, f: spec_fn(Pos) -> Pos, removed: Seq<SurfaceId>)
    requires
        m.target_current(),
        targets_kept(m, m2, f),
        m2.latest_unread_target == m.latest_unread_target,
        match m.latest_unread_target {
            Some(t) => !removed.contains(t.surface_id) ==> model_targets(m2).contains(t),
            None => true,
        },
    ensures
        m2.clear_target_if_removed(removed).target_current(),
{
    let m3 = m2.clear_target_if_removed(removed);
    assert(m3.windows == m2.windows);
    assert(targets_kept(m, m3, f));
    match m.latest_unread_target {
        Some(t) => {
            if removed.contains(t.surface_id) {
                lemma_current_recomputed(m, m3, f);
            } else {
                lemma_current_kept(m, m3, f);
            }
        },
        None => {
            lemma_current_kept(m, m3, f);
        },
    }
}

/// Closing a workspace keeps the unread target current.
pub proof fn law_close_workspace_keeps_target(m: ModelView, id: WorkspaceId)
    requires
        m.target_current(),
    ensures
        m.close_workspace(id).0.target_current(),
{
    lemma_selected_window_loc(m);
    if let Ok(wi) = m.selected_window_loc() {
        let w = m.windows[wi];
        let k = wsv_ix(w.workspaces, id);
        lemma_first_where_spec(w.workspaces, wsv_is(id));
        if w.workspaces.len() != 1 && k >= 0 {
            let removed = panes_surface_ids(w.workspaces[k].panes);
            let rest = w.workspaces.remove(k);
            let sel = m.close_workspace(id).0.windows[wi].selected_workspace;
            let m2 = m.set_window(wi, WindowView { workspaces: rest, selected_workspace: sel, ..w });
            let f = |q: Pos| if q.0 == wi && q.1 >= k { (q.0, q.1 + 1, q.2, q.3) } else { q };
            assert forall|q: Pos| pos_valid(m2, q) && pos_unread(m2, q) implies pos_valid(m, #[trigger] f(q)) && pos_unread(m, f(q))
                && pos_target(m, f(q)) == pos_target(m2, q) by {
                if q.0 != wi {
                    assert(m2.windows[q.0] == m.windows[q.0]);
                } else if q.1 < k {
                    assert(m2.workspace(q.0, q.1) == m.workspace(q.0, q.1));
                } else {
                    assert(m2.workspace(q.0, q.1) == m.workspace(q.0, q.1 + 1));
                }
            }
            if let Some(t) = m.latest_unread_target {
                if !removed.contains(t.surface_id) {
                    let q = lemma_target_place(m);
                    if q.0 == wi && q.1 == k {
                        lemma_panes_surface_ids_has(w.workspaces[k].panes, q.2, q.3);
                    }
                    let q2 = if q.0 == wi && q.1 > k { (q.0, q.1 - 1, q.2, q.3) } else { q };
                    if q.0 != wi {
                        assert(m2.windows[q.0] == m.windows[q.0]);
                    } else if q.1 < k {
                        assert(m2.workspace(q2.0, q2.1) == m.workspace(q.0, q.1));
                    } else {
                        assert(m2.workspace(q2.0, q2.1) == m.workspace(q.0, q.1));
                    }
                    lemma_model_targets_has(m2, q2);
                }
            }
            lemma_current_cleared(m, m2, f, removed);
        }
    }
}

/// Closing a pane keeps the unread target current.
pub proof fn law_close_pane_keeps_target(m: ModelView, id: PaneId)
    requires
        m.target_current(),
    ensures
        m.close_pane(id).0.target_current(),
{
    lemma_selected_workspace_loc(m);
    if let Ok((wi, k)) = m.selected_workspace_loc() {
        let ws = m.workspace(wi, k);
        let p = pv_ix(ws.panes, id);
        lemma_first_where_spec(ws.panes, pv_is(id));
        if ws.panes.len() != 1 && p >= 0 {
            let removed = ws.panes[p].surfaces.map_values(|s: SurfaceView| s.id);
            let rest = ws.panes.remove(p);
            let remaining = rest[0].id;
            let ws2 = recompute_workspace(
                WorkspaceView { panes: rest, selected_pane: remaining, layout: SplitTree::Leaf(remaining), ..ws },
            );
            let m2 = m.set_workspace(wi, k, ws2);
            let f = |q: Pos| if q.0 == wi && q.1 == k && q.2 >= p { (q.0, q.1, q.2 + 1, q.3) } else { q };
            assert forall|q: Pos| pos_valid(m2, q) && pos_unread(m2, q) implies pos_valid(m, #[trigger] f(q)) && pos_unread(m, f(q))
                && pos_target(m, f(q)) == pos_target(m2, q) by {
                if q.0 != wi {
                    assert(m2.windows[q.0] == m.windows[q.0]);
                } else if q.1 != k {
                    assert(m2.workspace(q.0, q.1) == m.workspace(q.0, q.1));
                } else if q.2 < p {
                    assert(m2.pane(q.0, q.1, q.2) == m.pane(q.0, q.1, q.2));
                } else {
                    assert(m2.pane(q.0, q.1, q.2) == m.pane(q.0, q.1, q.2 + 1));
                }
            }
            if let Some(t) = m.latest_unread_target {
                if !removed.contains(t.surface_id) {
                    let q = lemma_target_place(m);
                    if q.0 == wi && q.1 == k && q.2 == p {
                        assert(removed[q.3] == t.surface_id);
                    }
                    let q2 = if q.0 == wi && q.1 == k && q.2 > p { (q.0, q.1, q.2 - 1, q.3) } else { q };
                    if q.0 != wi {
                        assert(m2.windows[q.0] == m.windows[q.0]);
                    } else if q.1 != k {
                        assert(m2.workspace(q.0, q.1) == m.workspace(q.0, q.1));
                    } else {
                        assert(m2.pane(q2.0, q2.1, q2.2) == m.pane(q.0, q.1, q.2));
                    }
                    lemma_model_targets_has(m2, q2);
                }
            }
            lemma_current_cleared(m, m2, f, removed);
        }
    }
}

/// Closing a surface keeps the unread target current.
pub proof fn law_close_surface_keeps_target(m: ModelView, id: SurfaceId)
    requires
        m.target_current(),
    ensures
        m.close_surface(id).0.target_current(),
{
    lemma_selected_pane_loc(m);
    if let Ok((wi, k, p)) = m.selected_pane_loc() {
        let pane = m.pane(wi, k, p);
        let s = sv_ix(pane.surfaces, id);
        lemma_first_where_spec(pane.surfaces, sv_is(id));
        if s >= 0 {
            let rest = pane.surfaces.remove(s);
            let mm = if rest.len() == 0 { m.with_ids((m.next_id + 1) as u64) } else { m };
            let r = SurfaceId((m.next_id + 1) as u64);
            let pane2 = if rest.len() == 0 {
                PaneView { surfaces: seq![terminal_surface_view(r)], selected_surface: r, ..pane }
            } else {
                PaneView { surfaces: rest, selected_surface: rest[if s == 0 { 0 } else { s - 1 }].id, ..pane }
            };
            let m1 = mm.set_pane(wi, k, p, pane2);
            let f = |q: Pos| if q.0 == wi && q.1 == k && q.2 == p && q.3 >= s { (q.0, q.1, q.2, q.3 + 1) } else { q };
            assert forall|q: Pos| pos_valid(m1, q) && pos_unread(m1, q) implies pos_valid(m, #[trigger] f(q)) && pos_unread(m, f(q))
                && pos_target(m, f(q)) == pos_target(m1, q) by {
                if q.0 != wi {
                    assert(m1.windows[q.0] == m.windows[q.0]);
                } else if q.1 != k {
                    assert(m1.workspace(q.0, q.1) == m.workspace(q.0, q.1));
                } else if q.2 != p {
                    assert(m1.pane(q.0, q.1, q.2) == m.pane(q.0, q.1, q.2));
                } else if rest.len() == 0 {
                    assert(m1.surface(q.0, q.1, q.2, q.3) == terminal_surface_view(r));
                } else if q.3 < s {
                    assert(m1.surface(q.0, q.1, q.2, q.3) == m.surface(q.0, q.1, q.2, q.3));
                } else {
                    assert(m1.surface(q.0, q.1, q.2, q.3) == m.surface(q.0, q.1, q.2, q.3 + 1));
                }
            }
            if let Some(t) = m.latest_unread_target {
                if !seq![id].contains(t.surface_id) {
                    let q = lemma_target_place(m);
                    if q.0 == wi && q.1 == k && q.2 == p && q.3 == s {
                        assert(seq![id][0] == t.surface_id);
                    }
                    let q2 = if q.0 == wi && q.1 == k && q.2 == p && q.3 > s { (q.0, q.1, q.2, q.3 - 1) } else { q };
                    if q.0 != wi {
                        assert(m1.windows[q.0] == m.windows[q.0]);
                    } else if q.1 != k {
                        assert(m1.workspace(q.0, q.1) == m.workspace(q.0, q.1));
                    } else if q.2 != p {
                        assert(m1.pane(q.0, q.1, q.2) == m.pane(q.0, q.1, q.2));
                    } else {
                        assert(rest.len() > 0);
                        assert(m1.surface(q2.0, q2.1, q2.2, q2.3) == m.surface(q.0, q.1, q.2, q.3));
                    }
                    lemma_model_targets_has(m1, q2);
                }
            }
            lemma_current_cleared(m, m1, f, seq![id]);
            let m2 = m1.clear_target_if_removed(seq![id]);
            lemma_keep_set_workspace(m2, wi, k, recompute_workspace(m2.workspace(wi, k)));
        }
    }
}

/// Marking a surface read keeps the unread target current.
pub proof fn law_mark_surface_read_keeps_target(m: ModelView, id: SurfaceId)
    requires
        m.target_current(),
    ensures
        m.mark_surface_read(id).0.target_current(),
{
    lemma_surface_loc(m, id);
    if let Some((wi, k, p, s)) = m.surface_loc(id) {
        let sv = SurfaceView { unread: false, unread_message: None, unread_sequence: None, ..m.surface(wi, k, p, s) };
        let m1 = m.set_surface(wi, k, p, s, sv);
        let m2 = m1.set_workspace(wi, k, recompute_workspace(m1.workspace(wi, k)));
        let fin = m.mark_surface_read(id).0;
        assert(fin.windows == m2.windows);
        let f = |q: Pos| q;
        assert forall|q: Pos| pos_valid(fin, q) && pos_unread(fin, q) implies pos_valid(m, #[trigger] f(q)) && pos_unread(m, f(q))
            && pos_target(m, f(q)) == pos_target(fin, q) by {
            if q.0 != wi {
                assert(fin.windows[q.0] == m.windows[q.0]);
            } else if q.1 != k {
                assert(fin.workspace(q.0, q.1) == m.workspace(q.0, q.1));
            } else if q.2 != p {
                assert(fin.pane(q.0, q.1, q.2) == m.pane(q.0, q.1, q.2));
            } else {
                assert(q.3 != s);
                assert(fin.surface(q.0, q.1, q.2, q.3) == m.surface(q.0, q.1, q.2, q.3));
            }
        }
        lemma_current_recomputed(m, fin, f);
    }
}

/// Opening a browser surface keeps the unread target current.
pub proof fn law_open_browser_surface_keeps_target(m: ModelView, url: Seq<char>)
    requires
        m.target_current(),
    ensures
        m.open_browser_surface(url).0.target_current(),
{
    let sid = SurfaceId((m.next_id + 1) as u64);
    lemma_open_surface_keeps_target(
        m,
        (m.next_id + 1) as u64,
        SurfaceView {
            id: sid,
            kind: SurfaceKind::Browser,
            title: url,
            unread: false,
            unread_message: None,
            unread_sequence: None,
        },
    );
}

/// Marking a surface unread makes it the unread target: it waits with a sequence number above
/// every other, so it is the newest.
pub proof fn law_mark_surface_unread_keeps_target(m: ModelView, id: SurfaceId, message: Seq<char>)
    requires
        m.target_current(),
        m.unread_consistent(),
    ensures
        m.mark_surface_unread(id, message).0.target_current(),
{
    lemma_surface_loc(m, id);
    if let Some((wi, k, p, s)) = m.surface_loc(id) {
        let next = m.next_unread_sequence;
        let fin = m.mark_surface_unread(id, message).0;
        let star: Pos = (wi, k, p, s);
        let ts = fin.latest_unread_target.unwrap();
        lemma_ok_seqs(m.windows, next);
        lemma_windows_targets_below(m.windows, next);
        assert(pos_valid(fin, star));
        assert(fin.surface(wi, k, p, s).id == id);
        assert(pos_target(fin, star) == ts);
        lemma_model_targets_has(fin, star);
        assert forall|x: TargetView| #[trigger] model_targets(fin).contains(x) && x != ts implies model_targets(m).contains(x)
            && x.sequence < next by {
            lemma_model_targets_from(fin, x);
            let q = choose|q: Pos| pos_valid(fin, q) && pos_unread(fin, q) && #[trigger] pos_target(fin, q) == x;
            if q.0 != wi {
                assert(fin.windows[q.0] == m.windows[q.0]);
            } else if q.1 != k {
                assert(fin.workspace(q.0, q.1) == m.workspace(q.0, q.1));
            } else if q.2 != p {
                assert(fin.pane(q.0, q.1, q.2) == m.pane(q.0, q.1, q.2));
            } else if q.3 != s {
                assert(fin.surface(q.0, q.1, q.2, q.3) == m.surface(q.0, q.1, q.2, q.3));
            }
            assert(q != star);
            assert(pos_valid(m, q) && pos_unread(m, q) && pos_target(m, q) == x);
            lemma_model_targets_has(m, q);
            let j = choose|j: int| 0 <= j < model_targets(m).len() && model_targets(m)[j] == x;
            assert(model_targets(m)[j].sequence < next);
        }
        assert forall|x: TargetView, y: TargetView|
            #[trigger] model_targets(fin).contains(x) && #[trigger] model_targets(fin).contains(y) && x.sequence == y.sequence implies x == y by {
            if x != ts && y != ts {
                assert(model_targets(m).contains(x) && model_targets(m).contains(y));
            }
        }
        lemma_last_max_by_is_max(model_targets(fin), target_key());
        let mx = last_max_by(model_targets(fin), target_key()).unwrap();
        let j = choose|j: int| 0 <= j < model_targets(fin).len() && model_targets(fin)[j] == ts;
        assert(target_key()(model_targets(fin)[j]) <= target_key()(mx));
        assert(model_targets(fin).contains(mx));
    }
}

/// A freshly started application has no unread target, and nothing waits.
pub proof fn law_new_model_target_current(cwd: Seq<char>)
    ensures
        new_model_view(cwd).target_current(),
{
    let m = new_model_view(cwd);
    if model_targets(m).len() > 0 {
        let x = model_targets(m)[0];
        assert(model_targets(m).contains(x));
        lemma_model_targets_from(m, x);
        let q = choose|q: Pos| pos_valid(m, q) && pos_unread(m, q) && #[trigger] pos_target(m, q) == x;
        assert(q.0 == 0 && q.1 == 0 && q.2 == 0 && q.3 == 0);
    }
    lemma_last_max_by_is_max(model_targets(m), target_key());
}

/// No action the user can ask for leaves the unread target stale: before and after, it is the
/// newest unread surface, whether the action succeeds or fails part way.
pub proof fn law_apply_keeps_target_current(c: ControllerView, a: ActionView)
    requires
        c.model.target_current(),
    ensures
        apply_spec(c, a).0.model.target_current(),
{
    let m = c.model;
    match a {
        ActionView::NewWorkspace { cwd, title } => law_create_workspace_keeps_target(m, cwd, title),
        ActionView::SelectWorkspace(id) => law_select_workspace_keeps_target(m, id),
        ActionView::RenameWorkspace { workspace_id, title } => law_rename_workspace_keeps_target(m, workspace_id, title),
        ActionView::RenameSurface { surface_id, title } => law_rename_surface_keeps_target(m, surface_id, title),
        ActionView::CloseWorkspace(id) => law_close_workspace_keeps_target(m, id),
        ActionView::SplitPane(axis) => law_split_keeps_target(m, axis),
        ActionView::ClosePane(id) => law_close_pane_keeps_target(m, id),
        ActionView::SelectPane(id) => law_select_pane_keeps_target(m, id),
        ActionView::NewTerminalTab => law_open_terminal_surface_keeps_target(m),
        ActionView::SelectSurface(id) => {
            law_select_surface_keeps_target(m, id);
            law_mark_surface_read_keeps_target(m.select_surface(id).0, id);
        },
        ActionView::CloseSurface(id) => law_close_surface_keeps_target(m, id),
        ActionView::JumpLatestUnread => {
            if let Some(t) = m.latest_unread_target {
                law_select_workspace_keeps_target(m, t.workspace_id);
                let m1 = m.select_workspace(t.workspace_id).0;
                law_select_pane_keeps_target(m1, t.pane_id);
                let m2 = m1.select_pane(t.pane_id).0;
                law_select_surface_keeps_target(m2, t.surface_id);
                let m3 = m2.select_surface(t.surface_id).0;
                law_mark_surface_read_keeps_target(m3, t.surface_id);
            }
        },
        ActionView::MarkSurfaceRead(id) => law_mark_surface_read_keeps_target(m, id),
        ActionView::SaveSessionNow => {},
    }
}

} // verus!
