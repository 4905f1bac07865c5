use vstd::prelude::*;

use crate::controller_coverage::{every_terminal_registered, lemma_close_surface_spawns, lemma_create_spawns, lemma_open_terminal_term, lemma_spawn_surface_adds, lemma_split_spawns, valid_pos, close_adds, lemma_term_at, lemma_panes_surface_ids_pos, lemma_unique_pos, lemma_wf_id_bound, pos_id, pos_valid, unique_surface_ids, Pos};
use crate::controller_laws::{model_term, pane_term, removed_ids, win_term, ws_term};
use crate::ids::{PaneId, SurfaceId, WorkspaceId};
use crate::model::{SplitAxis, SurfaceKind};
use crate::model_laws::{lemma_selected_pane_loc, lemma_selected_window_loc, lemma_selected_workspace_loc, lemma_surface_loc};
use crate::action::ActionView;
use crate::controller::{apply_spec, ids_suffice, jump_to_target, remove_all, run_action, spawn_selected, spec_for, terminal_specs, ControllerView};
use crate::controller_laws::{lemma_remove_all_dom, lemma_terminal_specs, terminals_within};
use crate::registry::EntryView;
use crate::model_view::{
    panes_surface_ids, pv_is, pv_ix, recompute_workspace, sv_is, sv_ix, terminal_surface_view, wsv_is, wsv_ix, ModelView, PaneView,
    SurfaceView, WindowView, WorkspaceView,
};
use crate::search::{first_where, lemma_first_where_spec};
use crate::target_laws::lemma_panes_surface_ids_has;

verus! {

pub open spec fn pos_kind(m: ModelView, q: Pos) -> SurfaceKind {
    m.surface(q.0, q.1, q.2, q.3).kind
}

/// Some surface of the model has this id.
pub open spec fn model_has(m: ModelView, x: SurfaceId) -> bool {
    exists|q: Pos| #[trigger] pos_valid(m, q) && pos_id(m, q) == x
}

/// A surface of `m` that `m2` no longer has.
pub open spec fn gone(m: ModelView, m2: ModelView, x: SurfaceId) -> bool {
    model_has(m, x) && !model_has(m2, x)
}

/// A surface of `m2` that `m` did not have.
pub open spec fn arrived(m: ModelView, m2: ModelView, x: SurfaceId) -> bool {
    model_has(m2, x) && !model_has(m, x)
}

/// How a change moved the surfaces: every surface of `m2` but `fresh` stands for a surface of
/// `m` at `f` of its place that was not `lost`, with the same id and kind; every surface of `m`
/// that was not `lost` stands at `g` of its place in `m2`, with the same id; `fresh` has an id
/// that `m` never gave out.
pub open spec fn moved(
    m: ModelView,
    m2: ModelView,
    f: spec_fn(Pos) -> Pos,
    g: spec_fn(Pos) -> Pos,
    lost: spec_fn(Pos) -> bool,
    fresh: Option<Pos>,
) -> bool {
    &&& forall|q: Pos|
        #[trigger] pos_valid(m2, q) && fresh != Some(q) ==> pos_valid(m, f(q)) && !lost(f(q)) && pos_id(m, f(q))
            == pos_id(m2, q) && pos_kind(m, f(q)) == pos_kind(m2, q)
    &&& forall|q: Pos| #[trigger] pos_valid(m, q) && !lost(q) ==> pos_valid(m2, g(q)) && pos_id(m2, g(q)) == pos_id(m, q)
    &&& fresh matches Some(q) ==> pos_valid(m2, q) && pos_id(m2, q).0 > m.next_id
}

proof fn lemma_moved(
    m: ModelView,
    m2: ModelView,
    f: spec_fn(Pos) -> Pos,
    g: spec_fn(Pos) -> Pos,
    lost: spec_fn(Pos) -> bool,
    fresh: Option<Pos>,
)
    requires
        m.wf(),
        unique_surface_ids(m),
        moved(m, m2, f, g, lost, fresh),
    ensures
        forall|x: SurfaceId| #[trigger]
            gone(m, m2, x) <==> exists|q: Pos| #[trigger] pos_valid(m, q) && lost(q) && pos_id(m, q) == x,
        forall|x: SurfaceId| #[trigger] arrived(m, m2, x) <==> (fresh matches Some(q) && pos_id(m2, q) == x),
        forall|x: SurfaceId| #[trigger] model_term(m2.windows, x) && !arrived(m, m2, x) ==> model_term(m.windows, x),
{
    assert forall|x: SurfaceId| #[trigger]
        gone(m, m2, x) <==> exists|q: Pos| #[trigger] pos_valid(m, q) && lost(q) && pos_id(m, q) == x by {
        if gone(m, m2, x) {
            let q = choose|q: Pos| #[trigger] pos_valid(m, q) && pos_id(m, q) == x;
            if !lost(q) {
                assert(pos_valid(m2, g(q)) && pos_id(m2, g(q)) == x);
            }
        }
        if exists|q: Pos| #[trigger] pos_valid(m, q) && lost(q) && pos_id(m, q) == x {
            let q = choose|q: Pos| #[trigger] pos_valid(m, q) && lost(q) && pos_id(m, q) == x;
            assert(model_has(m, x));
            if model_has(m2, x) {
                let q2 = choose|q2: Pos| #[trigger] pos_valid(m2, q2) && pos_id(m2, q2) == x;
                lemma_wf_id_bound(m, q);
                if fresh != Some(q2) {
                    let q1 = f(q2);
                    lemma_unique_pos(m, q1.0, q1.1, q1.2, q1.3, q.0, q.1, q.2, q.3);
                }
            }
        }
    }
    assert forall|x: SurfaceId| #[trigger] arrived(m, m2, x) <==> (fresh matches Some(q) && pos_id(m2, q) == x) by {
        if arrived(m, m2, x) {
            let q2 = choose|q2: Pos| #[trigger] pos_valid(m2, q2) && pos_id(m2, q2) == x;
            if fresh != Some(q2) {
                assert(pos_valid(m, f(q2)) && pos_id(m, f(q2)) == x);
            }
        }
        if let Some(q2) = fresh {
            if pos_id(m2, q2) == x {
                assert(model_has(m2, x));
                if model_has(m, x) {
                    let q = choose|q: Pos| #[trigger] pos_valid(m, q) && pos_id(m, q) == x;
                    lemma_wf_id_bound(m, q);
                }
            }
        }
    }
    assert forall|x: SurfaceId| #[trigger] model_term(m2.windows, x) && !arrived(m, m2, x) implies model_term(m.windows, x) by {
        let q2 = lemma_term_pos(m2, x);
        assert(model_has(m2, x));
        if fresh != Some(q2) {
            let q1 = f(q2);
            lemma_term_at(m, q1.0, q1.1, q1.2, q1.3);
        } else {
            if model_has(m, x) {
                let q = choose|q: Pos| #[trigger] pos_valid(m, q) && pos_id(m, q) == x;
                lemma_wf_id_bound(m, q);
            }
        }
    }
}

/// A terminal surface of the model sits at some place of it.
proof fn lemma_term_pos(m: ModelView, x: SurfaceId) -> (q: Pos)
    requires
        model_term(m.windows, x),
    ensures
        pos_valid(m, q),
        pos_id(m, q) == x,
        pos_kind(m, q) == SurfaceKind::Terminal,
{
    let i = choose|i: int| 0 <= i < m.windows.len() && win_term(#[trigger] m.windows[i], x);
    let w = m.windows[i];
    let k = choose|k: int| 0 <= k < w.workspaces.len() && ws_term(#[trigger] w.workspaces[k], x);
    let ws = w.workspaces[k];
    let p = choose|p: int| 0 <= p < ws.panes.len() && pane_term(#[trigger] ws.panes[p], x);
    let pane = ws.panes[p];
    let s = choose|s: int| 0 <= s < pane.surfaces.len() && (#[trigger] pane.surfaces[s]).id == x && pane.surfaces[s].kind
        == SurfaceKind::Terminal;
    (i, k, p, s)
}

/// Closing a workspace takes away exactly the surfaces it reports, and adds none.
pub proof fn law_close_workspace_reports_removed(m: ModelView, id: WorkspaceId)
    requires
        m.wf(),
        unique_surface_ids(m),
    ensures
        forall|x: SurfaceId| #[trigger]
            gone(m, m.close_workspace(id).0, x) <==> removed_ids(m.close_workspace(id).1).contains(x),
        forall|x: SurfaceId| !#[trigger] arrived(m, m.close_workspace(id).0, x),
        in_model_order(m, removed_ids(m.close_workspace(id).1)),
{
    let m2 = m.close_workspace(id).0;
    lemma_selected_window_loc(m);
    if m.close_workspace(id).1 is Ok {
        let wi = m.selected_window_loc().unwrap();
        let w = m.windows[wi];
        let k = wsv_ix(w.workspaces, id);
        lemma_first_where_spec(w.workspaces, wsv_is(id));
        let ps = w.workspaces[k].panes;
        let removed = panes_surface_ids(ps);
        let f = |q: Pos| if q.0 == wi && q.1 >= k { (q.0, q.1 + 1, q.2, q.3) } else { q };
        let g = |q: Pos| if q.0 == wi && q.1 > k { (q.0, q.1 - 1, q.2, q.3) } else { q };
        let lost = |q: Pos| q.0 == wi && q.1 == k;
        assert forall|q: Pos| #[trigger] pos_valid(m2, q) && None::<Pos> != Some(q) implies pos_valid(m, f(q)) && !lost(f(q))
            && pos_id(m, f(q)) == pos_id(m2, q) && pos_kind(m, f(q)) == pos_kind(m2, q) by {
            if q.0 != wi {
                assert(m2.windows[q.0] == m.windows[q.0]);
            } else if q.1 < k {
                assert(m2.workspace(q.0, q.1) == m.workspace(q.0, q.1));
            } else {
                assert(m2.workspace(q.0, q.1) == m.workspace(q.0, q.1 + 1));
            }
        }
        assert forall|q: Pos| #[trigger] pos_valid(m, q) && !lost(q) implies pos_valid(m2, g(q)) && pos_id(m2, g(q)) == pos_id(m, q) by {
            if q.0 != wi {
                assert(m2.windows[q.0] == m.windows[q.0]);
            } else if q.1 < k {
                assert(m2.workspace(q.0, q.1) == m.workspace(q.0, q.1));
            } else {
                assert(m2.workspace(q.0, q.1 - 1) == m.workspace(q.0, q.1));
            }
        }
        lemma_moved(m, m2, f, g, lost, None);
        assert forall|x: SurfaceId| #[trigger] gone(m, m2, x) <==> removed.contains(x) by {
            if removed.contains(x) {
                let (p, s) = lemma_panes_surface_ids_pos(ps, x);
                let q: Pos = (wi, k, p, s);
                assert(pos_valid(m, q) && lost(q) && pos_id(m, q) == x);
            }
            if gone(m, m2, x) {
                let q = choose|q: Pos| #[trigger] pos_valid(m, q) && lost(q) && pos_id(m, q) == x;
                lemma_panes_surface_ids_has(ps, q.2, q.3);
            }
        }
        let pq = lemma_panes_ids_places(ps);
        let qs = Seq::new(pq.len(), |i: int| (wi, k, pq[i].0, pq[i].1));
        assert forall|i: int, j: int| 0 <= i < j < qs.len() implies pos_lt(#[trigger] qs[i], #[trigger] qs[j]) by {
            assert(pq[i].0 < pq[j].0 || (pq[i].0 == pq[j].0 && pq[i].1 < pq[j].1));
        }
        assert(places_of(m, removed, qs));
    } else {
        assert(m2 == m);
        assert(places_of(m, Seq::empty(), Seq::empty()));
    }
}

/// Closing a pane takes away exactly the surfaces it reports, and adds none.
pub proof fn law_close_pane_reports_removed(m: ModelView, id: PaneId)
    requires
        m.wf(),
        unique_surface_ids(m),
    ensures
        forall|x: SurfaceId| #[trigger]
            gone(m, m.close_pane(id).0, x) <==> removed_ids(m.close_pane(id).1).contains(x),
        forall|x: SurfaceId| !#[trigger] arrived(m, m.close_pane(id).0, x),
        in_model_order(m, removed_ids(m.close_pane(id).1)),
{
    let m2 = m.close_pane(id).0;
    lemma_selected_workspace_loc(m);
    if m.close_pane(id).1 is Ok {
        let (wi, k) = m.selected_workspace_loc().unwrap();
        let ws = m.workspace(wi, k);
        let p = pv_ix(ws.panes, id);
        lemma_first_where_spec(ws.panes, pv_is(id));
        let ss = ws.panes[p].surfaces;
        let removed = ss.map_values(|s: SurfaceView| s.id);
        let f = |q: Pos| if q.0 == wi && q.1 == k && q.2 >= p { (q.0, q.1, q.2 + 1, q.3) } else { q };
        let g = |q: Pos| if q.0 == wi && q.1 == k && q.2 > p { (q.0, q.1, q.2 - 1, q.3) } else { q };
        let lost = |q: Pos| q.0 == wi && q.1 == k && q.2 == p;
        assert forall|q: Pos| #[trigger] pos_valid(m2, q) && None::<Pos> != Some(q) implies pos_valid(m, f(q)) && !lost(f(q))
            && pos_id(m, f(q)) == pos_id(m2, q) && pos_kind(m, f(q)) == pos_kind(m2, q) by {
            if q.0 != wi {
                assert(m2.windows[q.0] == m.windows[q.0]);
            } else if q.1 != k {
                assert(m2.workspace(q.0, q.1) == m.workspace(q.0, q.1));
            } else if q.2 < p {
                assert(m2.pane(q.0, q.1, q.2) == m.pane(q.0, q.1, q.2));
            } else {
                assert(m2.pane(q.0, q.1, q.2) == m.pane(q.0, q.1, q.2 + 1));
            }
        }
        assert forall|q: Pos| #[trigger] pos_valid(m, q) && !lost(q) implies pos_valid(m2, g(q)) && pos_id(m2, g(q)) == pos_id(m, q) by {
            if q.0 != wi {
                assert(m2.windows[q.0] == m.windows[q.0]);
            } else if q.1 != k {
                assert(m2.workspace(q.0, q.1) == m.workspace(q.0, q.1));
            } else if q.2 < p {
                assert(m2.pane(q.0, q.1, q.2) == m.pane(q.0, q.1, q.2));
            } else {
                assert(m2.pane(q.0, q.1, q.2 - 1) == m.pane(q.0, q.1, q.2));
            }
        }
        lemma_moved(m, m2, f, g, lost, None);
        assert forall|x: SurfaceId| #[trigger] gone(m, m2, x) <==> removed.contains(x) by {
            if removed.contains(x) {
                let s = choose|s: int| 0 <= s < removed.len() && removed[s] == x;
                let q: Pos = (wi, k, p, s);
                assert(pos_valid(m, q) && lost(q) && pos_id(m, q) == x);
            }
            if gone(m, m2, x) {
                let q = choose|q: Pos| #[trigger] pos_valid(m, q) && lost(q) && pos_id(m, q) == x;
                assert(removed[q.3] == x);
            }
        }
        let qs = Seq::new(ss.len(), |i: int| (wi, k, p, i));
        assert(places_of(m, removed, qs));
    } else {
        assert(m2 == m);
        assert(places_of(m, Seq::empty(), Seq::empty()));
    }
}

/// Closing a surface takes away exactly that surface; when it was the last of its pane, the
/// new terminal put in its place is the one surface added.
pub proof fn law_close_surface_reports_removed(m: ModelView, id: SurfaceId)
    requires
        m.wf(),
        unique_surface_ids(m),
        m.close_surface_replaces(id) ==> m.next_id < u64::MAX,
    ensures
        forall|x: SurfaceId| #[trigger]
            gone(m, m.close_surface(id).0, x) <==> removed_ids(m.close_surface(id).1).contains(x),
        forall|x: SurfaceId| #[trigger] arrived(m, m.close_surface(id).0, x) <==> close_adds(m, id).contains(x),
        forall|x: SurfaceId| #[trigger] arrived(m, m.close_surface(id).0, x) ==> model_term(m.close_surface(id).0.windows, x),
        forall|x: SurfaceId|
            #[trigger] model_term(m.close_surface(id).0.windows, x) && !arrived(m, m.close_surface(id).0, x) ==> model_term(m.windows, x),
        in_model_order(m, removed_ids(m.close_surface(id).1)),
{
    let m4 = m.close_surface(id).0;
    lemma_selected_pane_loc(m);
    if m.close_surface(id).1 is Ok {
        let (wi, k, p) = m.selected_pane_loc().unwrap();
        let pane = m.pane(wi, k, p);
        let s = sv_ix(pane.surfaces, id);
        lemma_first_where_spec(pane.surfaces, sv_is(id));
        let rest = pane.surfaces.remove(s);
        let rid = SurfaceId((m.next_id + 1) as u64);
        let mm = if rest.len() == 0 { m.with_ids((m.next_id + 1) as u64) } else { m };
        let pane2 = if rest.len() == 0 {
            PaneView { surfaces: seq![terminal_surface_view(rid)], selected_surface: rid, ..pane }
        } else {
            PaneView { surfaces: rest, selected_surface: rest[if s == 0 { 0 } else { s - 1 }].id, ..pane }
        };
        let m1 = mm.set_pane(wi, k, p, pane2);
        let m2 = m1.clear_target_if_removed(seq![id]);
        let m3 = m2.set_workspace(wi, k, recompute_workspace(m2.workspace(wi, k)));
        assert(m4 == m3);
        assert(m3.workspace(wi, k).panes == m.workspace(wi, k).panes.update(p, pane2));
        let lost = |q: Pos| q.0 == wi && q.1 == k && q.2 == p && q.3 == s;
        let fresh = if rest.len() == 0 { Some((wi, k, p, 0int)) } else { None };
        let f = |q: Pos| if q.0 == wi && q.1 == k && q.2 == p && q.3 >= s { (q.0, q.1, q.2, q.3 + 1) } else { q };
        let g = |q: Pos| if q.0 == wi && q.1 == k && q.2 == p && q.3 > s { (q.0, q.1, q.2, q.3 - 1) } else { q };
        assert forall|q: Pos| #[trigger] pos_valid(m3, q) && fresh != Some(q) implies pos_valid(m, f(q)) && !lost(f(q))
            && pos_id(m, f(q)) == pos_id(m3, q) && pos_kind(m, f(q)) == pos_kind(m3, q) by {
            if q.0 != wi {
                assert(m3.windows[q.0] == m.windows[q.0]);
            } else if q.1 != k {
                assert(m3.workspace(q.0, q.1) == m.workspace(q.0, q.1));
            } else if q.2 != p {
                assert(m3.pane(q.0, q.1, q.2) == m.pane(q.0, q.1, q.2));
            } else if q.3 < s {
                assert(m3.surface(q.0, q.1, q.2, q.3) == m.surface(q.0, q.1, q.2, q.3));
            } else {
                assert(m3.surface(q.0, q.1, q.2, q.3) == m.surface(q.0, q.1, q.2, q.3 + 1));
            }
        }
        assert forall|q: Pos| #[trigger] pos_valid(m, q) && !lost(q) implies pos_valid(m3, g(q)) && pos_id(m3, g(q)) == pos_id(m, q) by {
            if q.0 != wi {
                assert(m3.windows[q.0] == m.windows[q.0]);
            } else if q.1 != k {
                assert(m3.workspace(q.0, q.1) == m.workspace(q.0, q.1));
            } else if q.2 != p {
                assert(m3.pane(q.0, q.1, q.2) == m.pane(q.0, q.1, q.2));
            } else if q.3 < s {
                assert(m3.surface(q.0, q.1, q.2, q.3) == m.surface(q.0, q.1, q.2, q.3));
            } else {
                assert(m3.surface(q.0, q.1, q.2, q.3 - 1) == m.surface(q.0, q.1, q.2, q.3));
            }
        }
        if rest.len() == 0 {
            assert(pos_id(m3, (wi, k, p, 0int)) == rid);
        }
        lemma_moved(m, m3, f, g, lost, fresh);
        assert forall|x: SurfaceId| #[trigger] gone(m, m3, x) <==> seq![id].contains(x) by {
            if x == id {
                let q: Pos = (wi, k, p, s);
                assert(pos_valid(m, q) && lost(q) && pos_id(m, q) == x);
            }
            assert(seq![id][0] == id);
        }
        assert forall|x: SurfaceId| #[trigger] arrived(m, m3, x) implies model_term(m3.windows, x) by {
            lemma_term_at(m3, wi, k, p, 0);
        }
        if rest.len() == 0 {
            assert(close_adds(m, id)[0] == rid);
        }
        let qs = seq![(wi, k, p, s)];
        assert(places_of(m, seq![id], qs));
    } else {
        assert(m4 == m);
        assert(places_of(m, Seq::empty(), Seq::empty()));
    }
}

/// Creating a workspace takes away no surface and adds exactly its new terminal.
pub proof fn law_create_workspace_reports_added(m: ModelView, cwd: Seq<char>, title: Option<Seq<char>>)
    requires
        m.wf(),
        unique_surface_ids(m),
        m.next_id + 3 <= u64::MAX,
        m.create_workspace(cwd, title).1 is Ok,
    ensures
        forall|x: SurfaceId| !#[trigger] gone(m, m.create_workspace(cwd, title).0, x),
        forall|x: SurfaceId| #[trigger] arrived(m, m.create_workspace(cwd, title).0, x) <==> x == SurfaceId((m.next_id + 3) as u64),
{
    let n = m.next_id;
    let m1 = m.with_ids((n + 3) as u64);
    let m2 = m.create_workspace(cwd, title).0;
    lemma_selected_window_loc(m1);
    let wi = m1.selected_window_loc().unwrap();
    let w = m.windows[wi];
    let len = w.workspaces.len() as int;
    let fresh = (wi, len, 0int, 0int);
    let f = |q: Pos| q;
    let lost = |q: Pos| false;
    assert forall|q: Pos| #[trigger] pos_valid(m2, q) && Some(fresh) != Some(q) implies pos_valid(m, f(q)) && !lost(f(q))
        && pos_id(m, f(q)) == pos_id(m2, q) && pos_kind(m, f(q)) == pos_kind(m2, q) by {
        if q.0 != wi {
            assert(m2.windows[q.0] == m.windows[q.0]);
        } else if q.1 < len {
            assert(m2.workspace(q.0, q.1) == m.workspace(q.0, q.1));
        } else {
            assert(q.2 == 0 && q.3 == 0);
        }
    }
    assert forall|q: Pos| #[trigger] pos_valid(m, q) && !lost(q) implies pos_valid(m2, f(q)) && pos_id(m2, f(q)) == pos_id(m, q) by {
        if q.0 != wi {
            assert(m2.windows[q.0] == m.windows[q.0]);
        } else {
            assert(m2.workspace(q.0, q.1) == m.workspace(q.0, q.1));
        }
    }
    assert(pos_id(m2, fresh).0 == n + 3);
    lemma_moved(m, m2, f, f, lost, Some(fresh));
}

/// Splitting the selected pane takes away no surface and adds exactly the new pane's terminal.
pub proof fn law_split_reports_added(m: ModelView, axis: SplitAxis)
    requires
        m.wf(),
        unique_surface_ids(m),
        m.next_id + 2 <= u64::MAX,
        m.split_selected_pane(axis).1 is Ok,
    ensures
        forall|x: SurfaceId| !#[trigger] gone(m, m.split_selected_pane(axis).0, x),
        forall|x: SurfaceId| #[trigger] arrived(m, m.split_selected_pane(axis).0, x) <==> x == SurfaceId((m.next_id + 2) as u64),
{
    let n = m.next_id;
    let m2 = m.split_selected_pane(axis).0;
    lemma_selected_workspace_loc(m);
    let (wi, k) = m.selected_workspace_loc().unwrap();
    let ws = m.workspace(wi, k);
    let len = ws.panes.len() as int;
    let fresh = (wi, k, len, 0int);
    let f = |q: Pos| q;
    let lost = |q: Pos| false;
    assert forall|q: Pos| #[trigger] pos_valid(m2, q) && Some(fresh) != Some(q) implies pos_valid(m, f(q)) && !lost(f(q))
        && pos_id(m, f(q)) == pos_id(m2, q) && pos_kind(m, f(q)) == pos_kind(m2, q) by {
        if q.0 != wi {
            assert(m2.windows[q.0] == m.windows[q.0]);
        } else if q.1 != k {
            assert(m2.workspace(q.0, q.1) == m.workspace(q.0, q.1));
        } else if q.2 < len {
            assert(m2.pane(q.0, q.1, q.2) == m.pane(q.0, q.1, q.2));
        } else {
            assert(q.3 == 0);
        }
    }
    assert forall|q: Pos| #[trigger] pos_valid(m, q) && !lost(q) implies pos_valid(m2, f(q)) && pos_id(m2, f(q)) == pos_id(m, q) by {
        if q.0 != wi {
            assert(m2.windows[q.0] == m.windows[q.0]);
        } else if q.1 != k {
            assert(m2.workspace(q.0, q.1) == m.workspace(q.0, q.1));
        } else {
            assert(m2.pane(q.0, q.1, q.2) == m.pane(q.0, q.1, q.2));
        }
    }
    assert(pos_id(m2, fresh).0 == n + 2);
    lemma_moved(m, m2, f, f, lost, Some(fresh));
}

/// Opening a terminal tab takes away no surface and adds exactly the new terminal.
pub proof fn law_open_terminal_reports_added(m: ModelView)
    requires
        m.wf(),
        unique_surface_ids(m),
        m.next_id < u64::MAX,
        m.open_terminal_surface().1 is Ok,
    ensures
        forall|x: SurfaceId| !#[trigger] gone(m, m.open_terminal_surface().0, x),
        forall|x: SurfaceId| #[trigger] arrived(m, m.open_terminal_surface().0, x) <==> x == SurfaceId((m.next_id + 1) as u64),
{
    let n = m.next_id;
    let m1 = m.with_ids((n + 1) as u64);
    let m2 = m.open_terminal_surface().0;
    lemma_selected_pane_loc(m1);
    let (wi, k, p) = m1.selected_pane_loc().unwrap();
    let len = m.pane(wi, k, p).surfaces.len() as int;
    let fresh = (wi, k, p, len);
    let f = |q: Pos| q;
    let lost = |q: Pos| false;
    assert forall|q: Pos| #[trigger] pos_valid(m2, q) && Some(fresh) != Some(q) implies pos_valid(m, f(q)) && !lost(f(q))
        && pos_id(m, f(q)) == pos_id(m2, q) && pos_kind(m, f(q)) == pos_kind(m2, q) by {
        if q.0 != wi {
            assert(m2.windows[q.0] == m.windows[q.0]);
        } else if q.1 != k {
            assert(m2.workspace(q.0, q.1) == m.workspace(q.0, q.1));
        } else if q.2 != p {
            assert(m2.pane(q.0, q.1, q.2) == m.pane(q.0, q.1, q.2));
        } else {
            assert(m2.surface(q.0, q.1, q.2, q.3) == m.surface(q.0, q.1, q.2, q.3));
        }
    }
    assert forall|q: Pos| #[trigger] pos_valid(m, q) && !lost(q) implies pos_valid(m2, f(q)) && pos_id(m2, f(q)) == pos_id(m, q) by {
        if q.0 != wi {
            assert(m2.windows[q.0] == m.windows[q.0]);
        } else if q.1 != k {
            assert(m2.workspace(q.0, q.1) == m.workspace(q.0, q.1));
        } else if q.2 != p {
            assert(m2.pane(q.0, q.1, q.2) == m.pane(q.0, q.1, q.2));
        } else {
            assert(m2.surface(q.0, q.1, q.2, q.3) == m.surface(q.0, q.1, q.2, q.3));
        }
    }
    assert(pos_id(m2, fresh).0 == n + 1);
    lemma_moved(m, m2, f, f, lost, Some(fresh));
}

/// The same places hold surfaces of the same ids and kinds.
pub open spec fn same_shape(m: ModelView, m2: ModelView) -> bool {
    &&& forall|q: Pos| #[trigger] pos_valid(m2, q) ==> pos_valid(m, q) && pos_id(m, q) == pos_id(m2, q) && pos_kind(m, q) == pos_kind(m2, q)
    &&& forall|q: Pos| #[trigger] pos_valid(m, q) ==> pos_valid(m2, q)
}

proof fn lemma_same_shape_moved(m: ModelView, m2: ModelView)
    requires
        m.wf(),
        unique_surface_ids(m),
        same_shape(m, m2),
    ensures
        forall|x: SurfaceId| !#[trigger] gone(m, m2, x),
        forall|x: SurfaceId| !#[trigger] arrived(m, m2, x),
{
    let f = |q: Pos| q;
    let lost = |q: Pos| false;
    assert forall|q: Pos| #[trigger] pos_valid(m, q) && !lost(q) implies pos_valid(m2, f(q)) && pos_id(m2, f(q)) == pos_id(m, q) by {
        assert(pos_valid(m2, q));
    }
    lemma_moved(m, m2, f, f, lost, None);
}

pub(crate) proof fn lemma_same_shape_trans(a: ModelView, b: ModelView, c: ModelView)
    requires
        same_shape(a, b),
        same_shape(b, c),
    ensures
        same_shape(a, c),
{
    assert forall|q: Pos| #[trigger] pos_valid(c, q) implies pos_valid(a, q) && pos_id(a, q) == pos_id(c, q) && pos_kind(a, q) == pos_kind(c, q) by {
        assert(pos_valid(b, q));
    }
    assert forall|q: Pos| #[trigger] pos_valid(a, q) implies pos_valid(c, q) by {
        assert(pos_valid(b, q));
    }
}

proof fn lemma_shape_set_window(m: ModelView, i: int, w: WindowView)
    requires
        0 <= i < m.windows.len(),
        w.workspaces == m.windows[i].workspaces,
    ensures
        same_shape(m, m.set_window(i, w)),
{
    let m2 = m.set_window(i, w);
    assert forall|q: Pos| #[trigger] pos_valid(m2, q) implies pos_valid(m, q) && pos_id(m, q) == pos_id(m2, q) && pos_kind(m, q) == pos_kind(m2, q) by {
        if q.0 != i {
            assert(m2.windows[q.0] == m.windows[q.0]);
        }
    }
    assert forall|q: Pos| #[trigger] pos_valid(m, q) implies pos_valid(m2, q) by {
        if q.0 != i {
            assert(m2.windows[q.0] == m.windows[q.0]);
        }
    }
}

proof fn lemma_shape_set_workspace(m: ModelView, i: int, k: int, ws: WorkspaceView)
    requires
        0 <= i < m.windows.len(),
        0 <= k < m.windows[i].workspaces.len(),
        ws.panes == m.workspace(i, k).panes,
    ensures
        same_shape(m, m.set_workspace(i, k, ws)),
{
    let m2 = m.set_workspace(i, k, ws);
    assert forall|q: Pos| #[trigger] pos_valid(m2, q) implies pos_valid(m, q) && pos_id(m, q) == pos_id(m2, q) && pos_kind(m, q) == pos_kind(m2, q) by {
        if q.0 != i {
            assert(m2.windows[q.0] == m.windows[q.0]);
        } else if q.1 != k {
            assert(m2.workspace(q.0, q.1) == m.workspace(q.0, q.1));
        }
    }
    assert forall|q: Pos| #[trigger] pos_valid(m, q) implies pos_valid(m2, q) by {
        if q.0 != i {
            assert(m2.windows[q.0] == m.windows[q.0]);
        } else if q.1 != k {
            assert(m2.workspace(q.0, q.1) == m.workspace(q.0, q.1));
        }
    }
}

proof fn lemma_shape_set_pane(m: ModelView, i: int, k: int, p: int, pane: PaneView)
    requires
        0 <= i < m.windows.len(),
        0 <= k < m.windows[i].workspaces.len(),
        0 <= p < m.workspace(i, k).panes.len(),
        pane.surfaces.len() == m.pane(i, k, p).surfaces.len(),
        forall|s: int|
            0 <= s < pane.surfaces.len() ==> (#[trigger] pane.surfaces[s]).id == m.pane(i, k, p).surfaces[s].id
                && pane.surfaces[s].kind == m.pane(i, k, p).surfaces[s].kind,
    ensures
        same_shape(m, m.set_pane(i, k, p, pane)),
{
    let m2 = m.set_pane(i, k, p, pane);
    assert forall|q: Pos| #[trigger] pos_valid(m2, q) implies pos_valid(m, q) && pos_id(m, q) == pos_id(m2, q) && pos_kind(m, q) == pos_kind(m2, q) by {
        if q.0 != i {
            assert(m2.windows[q.0] == m.windows[q.0]);
        } else if q.1 != k {
            assert(m2.workspace(q.0, q.1) == m.workspace(q.0, q.1));
        } else if q.2 != p {
            assert(m2.pane(q.0, q.1, q.2) == m.pane(q.0, q.1, q.2));
        } else {
            assert(m2.pane(q.0, q.1, q.2) == pane);
        }
    }
    assert forall|q: Pos| #[trigger] pos_valid(m, q) implies pos_valid(m2, q) by {
        if q.0 != i {
            assert(m2.windows[q.0] == m.windows[q.0]);
        } else if q.1 != k {
            assert(m2.workspace(q.0, q.1) == m.workspace(q.0, q.1));
        } else if q.2 != p {
            assert(m2.pane(q.0, q.1, q.2) == m.pane(q.0, q.1, q.2));
        } else {
            assert(m2.pane(q.0, q.1, q.2) == pane);
        }
    }
}

proof fn lemma_shape_set_surface(m: ModelView, i: int, k: int, p: int, s: int, sv: SurfaceView)
    requires
        valid_pos(m, i, k, p, s),
        sv.id == m.surface(i, k, p, s).id,
        sv.kind == m.surface(i, k, p, s).kind,
    ensures
        same_shape(m, m.set_surface(i, k, p, s, sv)),
{
    let pane = m.pane(i, k, p);
    let pane2 = PaneView { surfaces: pane.surfaces.update(s, sv), ..pane };
    assert forall|j: int| 0 <= j < pane2.surfaces.len() implies (#[trigger] pane2.surfaces[j]).id == pane.surfaces[j].id
        && pane2.surfaces[j].kind == pane.surfaces[j].kind by {
        if j != s {
            assert(pane2.surfaces[j] == pane.surfaces[j]);
        }
    }
    lemma_shape_set_pane(m, i, k, p, pane2);
    assert(m.set_surface(i, k, p, s, sv) == m.set_pane(i, k, p, pane2));
}

proof fn lemma_shape_refl(m: ModelView, m2: ModelView)
    requires
        m2.windows == m.windows,
    ensures
        same_shape(m, m2),
{
}

pub(crate) proof fn lemma_shape_select_workspace(m: ModelView, id: WorkspaceId)
    ensures
        same_shape(m, m.select_workspace(id).0),
{
    lemma_selected_window_loc(m);
    if let Ok(wi) = m.selected_window_loc() {
        if wsv_ix(m.windows[wi].workspaces, id) >= 0 {
            lemma_shape_set_window(m, wi, WindowView { selected_workspace: id, ..m.windows[wi] });
        }
    }
}

proof fn lemma_shape_rename_workspace(m: ModelView, id: WorkspaceId, title: Seq<char>)
    ensures
        same_shape(m, m.rename_workspace(id, title).0),
{
    lemma_selected_window_loc(m);
    if let Ok(wi) = m.selected_window_loc() {
        let k = wsv_ix(m.windows[wi].workspaces, id);
        lemma_first_where_spec(m.windows[wi].workspaces, wsv_is(id));
        if k >= 0 {
            lemma_shape_set_workspace(m, wi, k, WorkspaceView { title, ..m.workspace(wi, k) });
        }
    }
}

pub(crate) proof fn lemma_shape_select_pane(m: ModelView, id: PaneId)
    ensures
        same_shape(m, m.select_pane(id).0),
{
    lemma_selected_workspace_loc(m);
    if let Ok((wi, k)) = m.selected_workspace_loc() {
        if pv_ix(m.workspace(wi, k).panes, id) >= 0 {
            lemma_shape_set_workspace(m, wi, k, WorkspaceView { selected_pane: id, ..m.workspace(wi, k) });
        }
    }
}

pub(crate) proof fn lemma_shape_select_surface(m: ModelView, id: SurfaceId)
    ensures
        same_shape(m, m.select_surface(id).0),
{
    lemma_selected_pane_loc(m);
    if let Ok((wi, k, p)) = m.selected_pane_loc() {
        if sv_ix(m.pane(wi, k, p).surfaces, id) >= 0 {
            let pane = m.pane(wi, k, p);
            lemma_shape_set_pane(m, wi, k, p, PaneView { selected_surface: id, ..pane });
        }
    }
}

pub(crate) proof fn lemma_shape_mark_surface_read(m: ModelView, id: SurfaceId)
    ensures
        same_shape(m, m.mark_surface_read(id).0),
{
    lemma_surface_loc(m, id);
    if let Some((wi, k, p, s)) = m.surface_loc(id) {
        let sv = SurfaceView { unread: false, unread_message: None, unread_sequence: None, ..m.surface(wi, k, p, s) };
        lemma_shape_set_surface(m, wi, k, p, s, sv);
        let m1 = m.set_surface(wi, k, p, s, sv);
        lemma_shape_set_workspace(m1, wi, k, recompute_workspace(m1.workspace(wi, k)));
        lemma_same_shape_trans(m, m1, m1.set_workspace(wi, k, recompute_workspace(m1.workspace(wi, k))));
    }
}

proof fn lemma_shape_rename_surface(m: ModelView, id: SurfaceId, title: Seq<char>)
    ensures
        same_shape(m, m.rename_surface(id, title).0),
{
    lemma_surface_loc(m, id);
    if let Some((wi, k, p, s)) = m.surface_loc(id) {
        lemma_shape_set_surface(m, wi, k, p, s, SurfaceView { title, ..m.surface(wi, k, p, s) });
    }
}

proof fn lemma_shape_jump(m: ModelView)
    ensures
        same_shape(m, jump_to_target(m).0),
{
    if let Some(t) = m.latest_unread_target {
        let m1 = m.select_workspace(t.workspace_id).0;
        lemma_shape_select_workspace(m, t.workspace_id);
        let m2 = m1.select_pane(t.pane_id).0;
        lemma_shape_select_pane(m1, t.pane_id);
        let m3 = m2.select_surface(t.surface_id).0;
        lemma_shape_select_surface(m2, t.surface_id);
        let m4 = m3.mark_surface_read(t.surface_id).0;
        lemma_shape_mark_surface_read(m3, t.surface_id);
        lemma_same_shape_trans(m, m1, m2);
        lemma_same_shape_trans(m, m2, m3);
        lemma_same_shape_trans(m, m3, m4);
    } else {
        lemma_shape_refl(m, jump_to_target(m).0);
    }
}

/// A registry that holds only terminals of `m` holds none that `m` never gave out.
proof fn lemma_reg_lacks_fresh(m: ModelView, reg: Map<u64, EntryView>, x: u64)
    requires
        m.wf(),
        terminals_within(reg, m.windows),
        x > m.next_id,
    ensures
        !reg.dom().contains(x),
{
    if reg.dom().contains(x) {
        let q = lemma_term_pos(m, SurfaceId(x));
        lemma_wf_id_bound(m, q);
    }
}

/// When `spawn_selected` registers an id the registry did not have, that id is all it reports.
proof fn lemma_spawn_selected_fresh(m: ModelView, reg: Map<u64, EntryView>, x: u64)
    requires
        !reg.dom().contains(x),
        spawn_selected(m, reg, Seq::empty()).0.dom().contains(x),
    ensures
        spawn_selected(m, reg, Seq::empty()).1 == seq![SurfaceId(x)],
{
    let (wi, k, p) = m.selected_pane_loc().unwrap();
    let id = m.pane(wi, k, p).selected_surface;
    assert(id.0 == x);
    assert(Seq::<SurfaceId>::empty().push(id) =~= seq![SurfaceId(x)]);
}

/// When every terminal of `m` is registered, `spawn_selected` reports nothing.
proof fn lemma_spawn_selected_none(m: ModelView, reg: Map<u64, EntryView>)
    requires
        every_terminal_registered(reg, m.windows),
    ensures
        spawn_selected(m, reg, Seq::empty()).1 == Seq::<SurfaceId>::empty(),
{
    if let Ok((wi, k, p)) = m.selected_pane_loc() {
        let id = m.pane(wi, k, p).selected_surface;
        let specs = terminal_specs(m.windows);
        let i = first_where(specs, spec_for(id));
        lemma_first_where_spec(specs, spec_for(id));
        if i >= 0 {
            assert(specs[i].surface_id == id);
            lemma_terminal_specs(m.windows, id);
            assert(model_term(m.windows, id));
        }
    }
}

/// Every action reports exactly what it did to the surfaces: the closed surfaces of its outcome
/// are the surfaces the model no longer has, in the order they stood in it, each once; the
/// spawned ones are the surfaces it did not have before, each a terminal, at most one. This
/// holds of a controller whose model is well formed with distinct surface ids and whose
/// registry holds exactly the terminals of the model, as every action keeps them.
pub proof fn law_apply_reports_closed_and_spawned(c: ControllerView, a: ActionView)
    requires
        c.model.wf(),
        unique_surface_ids(c.model),
        ids_suffice(c.model, a),
        terminals_within(c.terminals, c.model.windows),
        every_terminal_registered(c.terminals, c.model.windows),
    ensures
        apply_spec(c, a).1 matches Ok(o) ==> {
            &&& forall|x: SurfaceId| #[trigger] o.closed_surfaces.contains(x) <==> gone(c.model, apply_spec(c, a).0.model, x)
            &&& forall|x: SurfaceId| #[trigger] o.spawned_surfaces.contains(x) <==> arrived(c.model, apply_spec(c, a).0.model, x)
            &&& forall|x: SurfaceId| #[trigger] o.spawned_surfaces.contains(x) ==> model_term(apply_spec(c, a).0.model.windows, x)
            &&& o.spawned_surfaces.len() <= 1
            &&& in_model_order(c.model, o.closed_surfaces)
            &&& o.closed_surfaces.no_duplicates()
        },
{
    let m = c.model;
    let reg = c.terminals;
    let n = m.next_id;
    let (m2, reg2, sp, cl, r) = run_action(m, reg, a);
    if apply_spec(c, a).1 is Ok {
        assert(r is Ok);
        assert(apply_spec(c, a).0.model == m2);
        match a {
            ActionView::NewWorkspace { cwd, title } => {
                law_create_workspace_reports_added(m, cwd, title);
                lemma_create_spawns(m, cwd, title, reg);
                lemma_reg_lacks_fresh(m, reg, (n + 3) as u64);
                lemma_spawn_selected_fresh(m2, reg, (n + 3) as u64);
                lemma_spawned_is_terminal(m2, SurfaceId((n + 3) as u64), reg);
                lemma_single_contains(SurfaceId((n + 3) as u64));
            },
            ActionView::SplitPane(axis) => {
                assert(m.split_allocates() == (m.split_selected_pane(axis).1 is Ok));
                law_split_reports_added(m, axis);
                lemma_split_spawns(m, axis, reg);
                lemma_reg_lacks_fresh(m, reg, (n + 2) as u64);
                lemma_spawn_selected_fresh(m2, reg, (n + 2) as u64);
                lemma_spawned_is_terminal(m2, SurfaceId((n + 2) as u64), reg);
                lemma_single_contains(SurfaceId((n + 2) as u64));
            },
            ActionView::NewTerminalTab => {
                law_open_terminal_reports_added(m);
                let sid = SurfaceId((n + 1) as u64);
                lemma_open_terminal_term(m);
                lemma_reg_lacks_fresh(m, reg, (n + 1) as u64);
                lemma_spawn_surface_adds(m2, reg, sid, Seq::empty());
                assert(sp == seq![sid]);
                lemma_single_contains(sid);
            },
            ActionView::CloseWorkspace(id) => {
                law_close_workspace_reports_removed(m, id);
            },
            ActionView::ClosePane(id) => {
                law_close_pane_reports_removed(m, id);
            },
            ActionView::CloseSurface(id) => {
                law_close_surface_reports_removed(m, id);
                let removed = removed_ids(m.close_surface(id).1);
                let rr = remove_all(reg, removed);
                assert forall|x: u64| #[trigger] rr.dom().contains(x) implies reg.dom().contains(x) by {
                    lemma_remove_all_dom(reg, removed, x);
                }
                if m.close_surface_replaces(id) {
                    let rid = (n + 1) as u64;
                    lemma_reg_lacks_fresh(m, reg, rid);
                    lemma_remove_all_dom(reg, removed, rid);
                    lemma_close_surface_spawns(m, id, rr);
                    lemma_spawn_selected_fresh(m2, rr, rid);
                    assert(close_adds(m, id) == seq![SurfaceId(rid)]);
                    lemma_single_contains(SurfaceId(rid));
                } else {
                    assert forall|x: SurfaceId| #[trigger] model_term(m2.windows, x) implies rr.dom().contains(x.0) by {
                        let q = lemma_term_pos(m2, x);
                        assert(model_has(m2, x));
                        assert(!close_adds(m, id).contains(x));
                        assert(!arrived(m, m2, x));
                        assert(model_term(m.windows, x));
                        assert(reg.dom().contains(x.0));
                        lemma_remove_all_dom(reg, removed, x.0);
                        if removed.contains(x) {
                            assert(gone(m, m2, x));
                        }
                    }
                    lemma_spawn_selected_none(m2, rr);
                }
            },
            ActionView::SelectWorkspace(id) => {
                lemma_shape_select_workspace(m, id);
                lemma_same_shape_moved(m, m2);
            },
            ActionView::RenameWorkspace { workspace_id, title } => {
                lemma_shape_rename_workspace(m, workspace_id, title);
                lemma_same_shape_moved(m, m2);
            },
            ActionView::RenameSurface { surface_id, title } => {
                lemma_shape_rename_surface(m, surface_id, title);
                lemma_same_shape_moved(m, m2);
            },
            ActionView::SelectPane(id) => {
                lemma_shape_select_pane(m, id);
                lemma_same_shape_moved(m, m2);
            },
            ActionView::SelectSurface(id) => {
                lemma_shape_select_surface(m, id);
                let m1 = m.select_surface(id).0;
                lemma_shape_mark_surface_read(m1, id);
                lemma_same_shape_trans(m, m1, m2);
                lemma_same_shape_moved(m, m2);
            },
            ActionView::JumpLatestUnread => {
                lemma_shape_jump(m);
                lemma_same_shape_moved(m, m2);
            },
            ActionView::MarkSurfaceRead(id) => {
                lemma_shape_mark_surface_read(m, id);
                lemma_same_shape_moved(m, m2);
            },
            ActionView::SaveSessionNow => {
                lemma_shape_refl(m, m2);
                lemma_same_shape_moved(m, m2);
            },
        }
        let o = apply_spec(c, a).1.unwrap();
        assert(o.closed_surfaces == cl);
        assert(o.spawned_surfaces == sp);
        assert(forall|x: SurfaceId| #[trigger] cl.contains(x) <==> gone(m, m2, x));
        assert(forall|x: SurfaceId| #[trigger] sp.contains(x) <==> arrived(m, m2, x));
        assert(forall|x: SurfaceId| #[trigger] sp.contains(x) ==> model_term(m2.windows, x));
        assert(sp.len() <= 1);
        if cl.len() == 0 {
            assert(places_of(m, cl, Seq::empty()));
        }
        assert(in_model_order(m, cl));
        lemma_in_order_distinct(m, cl);
    }
}

proof fn lemma_single_contains(v: SurfaceId)
    ensures
        forall|x: SurfaceId| #[trigger] seq![v].contains(x) <==> x == v,
{
    assert forall|x: SurfaceId| #[trigger] seq![v].contains(x) <==> x == v by {
        if x == v {
            assert(seq![v][0] == v);
        }
    }
}

/// The surface that `spawn_selected` registers is a terminal of the model.
proof fn lemma_spawned_is_terminal(m: ModelView, x: SurfaceId, reg: Map<u64, EntryView>)
    requires
        !reg.dom().contains(x.0),
        spawn_selected(m, reg, Seq::empty()).0.dom().contains(x.0),
    ensures
        model_term(m.windows, x),
{
    let (wi, k, p) = m.selected_pane_loc().unwrap();
    let id = m.pane(wi, k, p).selected_surface;
    let specs = terminal_specs(m.windows);
    let i = first_where(specs, spec_for(id));
    lemma_first_where_spec(specs, spec_for(id));
    assert(specs[i].surface_id == id);
    lemma_terminal_specs(m.windows, id);
}

/// Place `a` comes before place `b` in the model: window, then workspace, pane and surface.
pub open spec fn pos_lt(a: Pos, b: Pos) -> bool {
    ||| a.0 < b.0
    ||| a.0 == b.0 && a.1 < b.1
    ||| a.0 == b.0 && a.1 == b.1 && a.2 < b.2
    ||| a.0 == b.0 && a.1 == b.1 && a.2 == b.2 && a.3 < b.3
}

/// `qs` are the places of `m` where the surfaces `ids` stand, in increasing order.
pub open spec fn places_of(m: ModelView, ids: Seq<SurfaceId>, qs: Seq<Pos>) -> bool {
    &&& qs.len() == ids.len()
    &&& forall|i: int| 0 <= i < qs.len() ==> pos_valid(m, #[trigger] qs[i]) && pos_id(m, qs[i]) == ids[i]
    &&& forall|i: int, j: int| 0 <= i < j < qs.len() ==> pos_lt(#[trigger] qs[i], #[trigger] qs[j])
}

/// `ids` are surfaces of `m`, listed in the order in which they stand in it.
pub open spec fn in_model_order(m: ModelView, ids: Seq<SurfaceId>) -> bool {
    exists|qs: Seq<Pos>| #[trigger] places_of(m, ids, qs)
}

/// Surfaces listed in model order are listed once each.
proof fn lemma_in_order_distinct(m: ModelView, ids: Seq<SurfaceId>)
    requires
        unique_surface_ids(m),
        in_model_order(m, ids),
    ensures
        ids.no_duplicates(),
{
    let qs = choose|qs: Seq<Pos>| #[trigger] places_of(m, ids, qs);
    assert forall|i: int, j: int| 0 <= i < ids.len() && 0 <= j < ids.len() && i != j implies ids[i] != ids[j] by {
        assert(pos_valid(m, qs[i]) && pos_valid(m, qs[j]));
        assert(pos_id(m, qs[i]) == ids[i] && pos_id(m, qs[j]) == ids[j]);
        if i < j {
            assert(pos_lt(qs[i], qs[j]));
        } else {
            assert(pos_lt(qs[j], qs[i]));
        }
    }
}

/// Where each id of `panes_surface_ids(ps)` comes from: pane and surface, in increasing order.
proof fn lemma_panes_ids_places(ps: Seq<PaneView>) -> (qs: Seq<(int, int)>)
    ensures
        qs.len() == panes_surface_ids(ps).len(),
        forall|i: int|
            0 <= i < qs.len() ==> 0 <= (#[trigger] qs[i]).0 < ps.len() && 0 <= qs[i].1 < ps[qs[i].0].surfaces.len()
                && ps[qs[i].0].surfaces[qs[i].1].id == panes_surface_ids(ps)[i],
        forall|i: int, j: int|
            0 <= i < j < qs.len() ==> (#[trigger] qs[i]).0 < (#[trigger] qs[j]).0 || (qs[i].0 == qs[j].0 && qs[i].1 < qs[j].1),
    decreases ps.len(),
{
    if ps.len() == 0 {
        Seq::empty()
    } else {
        let t = ps.drop_last();
        let qt = lemma_panes_ids_places(t);
        let last = ps.last();
        let lp = ps.len() - 1;
        let tail = Seq::new(last.surfaces.len(), |s: int| (lp, s));
        let qs = qt + tail;
        let ids = panes_surface_ids(ps);
        assert(ids == panes_surface_ids(t) + last.surfaces.map_values(|s: SurfaceView| s.id));
        assert forall|i: int| 0 <= i < qs.len() implies 0 <= (#[trigger] qs[i]).0 < ps.len() && 0 <= qs[i].1 < ps[qs[i].0].surfaces.len()
            && ps[qs[i].0].surfaces[qs[i].1].id == ids[i] by {
            if i < qt.len() {
                assert(qs[i] == qt[i]);
                assert(t[qt[i].0] == ps[qt[i].0]);
            } else {
                assert(qs[i] == tail[i - qt.len()]);
            }
        }
        assert forall|i: int, j: int|
            0 <= i < j < qs.len() implies (#[trigger] qs[i]).0 < (#[trigger] qs[j]).0 || (qs[i].0 == qs[j].0 && qs[i].1 < qs[j].1) by {
            if j < qt.len() {
                assert(qs[i] == qt[i] && qs[j] == qt[j]);
            } else if i < qt.len() {
                assert(qs[i] == qt[i]);
                assert(qs[j] == tail[j - qt.len()]);
            } else {
                assert(qs[i] == tail[i - qt.len()]);
                assert(qs[j] == tail[j - qt.len()]);
            }
        }
        qs
    }
}

} // verus!
