use vstd::prelude::*;

use crate::action::ActionView;
use crate::controller::{apply_spec, ControllerView};
use crate::ids::{PaneId, SurfaceId, WorkspaceId};
use crate::model::{SplitAxis, SplitTree, SurfaceKind};
use crate::model_laws::{
    lemma_exists_at, lemma_selected_pane_loc, lemma_selected_window_loc, lemma_selected_workspace_loc,
    lemma_surface_loc, lemma_witness, pane_wf, window_wf, workspace_wf,
};
use crate::model_view::{
    new_model_view, new_workspace_view, pv_is, pv_ix, recompute_workspace, sv_is, sv_ix, terminal_surface_view,
    workspace_title_view, wsv_is, wsv_ix, ModelView, PaneView, SurfaceView, WindowView, WorkspaceView,
};
use crate::search::lemma_first_where_spec;
use crate::snapshot_laws::{law_restore_gives_back_saved_model, pane_shows_terminal, shows_terminals, window_shows_terminals, workspace_shows_terminals};
use crate::snapshot_view::{selected_terminal_is, snapshot_of};

verus! {

pub open spec fn pane_terminal_only(p: PaneView) -> bool {
    forall|s: int| 0 <= s < p.surfaces.len() ==> (#[trigger] p.surfaces[s]).kind == SurfaceKind::Terminal
}

pub open spec fn workspace_terminal_only(ws: WorkspaceView) -> bool {
    forall|p: int| 0 <= p < ws.panes.len() ==> pane_terminal_only(#[trigger] ws.panes[p])
}

pub open spec fn window_terminal_only(w: WindowView) -> bool {
    forall|k: int| 0 <= k < w.workspaces.len() ==> workspace_terminal_only(#[trigger] w.workspaces[k])
}

/// Every surface of the model is a terminal.
pub open spec fn terminal_only(m: ModelView) -> bool {
    forall|i: int| 0 <= i < m.windows.len() ==> window_terminal_only(#[trigger] m.windows[i])
}

/// In a well-formed model of terminals only, every pane shows a terminal.
pub proof fn lemma_terminal_only_shows_terminals(m: ModelView)
    requires
        m.wf(),
        terminal_only(m),
    ensures
        shows_terminals(m),
{
    assert forall|i: int| 0 <= i < m.windows.len() implies window_shows_terminals(#[trigger] m.windows[i]) by {
        let w = m.windows[i];
        assert(window_wf(w, m.next_id));
        assert(window_terminal_only(w));
        assert forall|k: int| 0 <= k < w.workspaces.len() implies workspace_shows_terminals(#[trigger] w.workspaces[k]) by {
            let ws = w.workspaces[k];
            assert(workspace_wf(ws, m.next_id));
            assert(workspace_terminal_only(ws));
            assert forall|p: int| 0 <= p < ws.panes.len() implies pane_shows_terminal(#[trigger] ws.panes[p]) by {
                let pane = ws.panes[p];
                assert(pane_wf(pane, m.next_id));
                assert(pane_terminal_only(pane));
                let j = lemma_witness(pane.surfaces, sv_is(pane.selected_surface));
                lemma_exists_at(pane.surfaces, selected_terminal_is(pane.selected_surface), j);
            }
        }
    }
}

proof fn lemma_set_window_terminal(m: ModelView, i: int, w: WindowView)
    requires
        terminal_only(m),
        0 <= i < m.windows.len(),
        window_terminal_only(w),
    ensures
        terminal_only(m.set_window(i, w)),
{
    let m2 = m.set_window(i, w);
    assert forall|j: int| 0 <= j < m2.windows.len() implies window_terminal_only(#[trigger] m2.windows[j]) by {
        if j != i {
            assert(m2.windows[j] == m.windows[j]);
        }
    }
}

proof fn lemma_set_workspace_terminal(m: ModelView, i: int, k: int, ws: WorkspaceView)
    requires
        terminal_only(m),
        0 <= i < m.windows.len(),
        0 <= k < m.windows[i].workspaces.len(),
        workspace_terminal_only(ws),
    ensures
        terminal_only(m.set_workspace(i, k, ws)),
{
    let w = m.windows[i];
    assert(window_terminal_only(w));
    let w2 = WindowView { workspaces: w.workspaces.update(k, ws), ..w };
    assert forall|j: int| 0 <= j < w2.workspaces.len() implies workspace_terminal_only(#[trigger] w2.workspaces[j]) by {
        if j != k {
            assert(w2.workspaces[j] == w.workspaces[j]);
        }
    }
    lemma_set_window_terminal(m, i, w2);
}

proof fn lemma_set_pane_terminal(m: ModelView, i: int, k: int, p: int, pane: PaneView)
    requires
        terminal_only(m),
        0 <= i < m.windows.len(),
        0 <= k < m.windows[i].workspaces.len(),
        0 <= p < m.workspace(i, k).panes.len(),
        pane_terminal_only(pane),
    ensures
        terminal_only(m.set_pane(i, k, p, pane)),
{
    let ws = m.workspace(i, k);
    assert(window_terminal_only(m.windows[i]));
    assert(workspace_terminal_only(ws));
    let ws2 = WorkspaceView { panes: ws.panes.update(p, pane), ..ws };
    assert forall|j: int| 0 <= j < ws2.panes.len() implies pane_terminal_only(#[trigger] ws2.panes[j]) by {
        if j != p {
            assert(ws2.panes[j] == ws.panes[j]);
        }
    }
    lemma_set_workspace_terminal(m, i, k, ws2);
}

proof fn lemma_set_surface_terminal(m: ModelView, i: int, k: int, p: int, s: int, sv: SurfaceView)
    requires
        terminal_only(m),
        0 <= i < m.windows.len(),
        0 <= k < m.windows[i].workspaces.len(),
        0 <= p < m.workspace(i, k).panes.len(),
        0 <= s < m.pane(i, k, p).surfaces.len(),
        sv.kind == SurfaceKind::Terminal,
    ensures
        terminal_only(m.set_surface(i, k, p, s, sv)),
{
    let pane = m.pane(i, k, p);
    assert(window_terminal_only(m.windows[i]));
    assert(workspace_terminal_only(m.workspace(i, k)));
    assert(pane_terminal_only(pane));
    let pane2 = PaneView { surfaces: pane.surfaces.update(s, sv), ..pane };
    assert forall|j: int| 0 <= j < pane2.surfaces.len() implies (#[trigger] pane2.surfaces[j]).kind == SurfaceKind::Terminal by {
        if j != s {
            assert(pane2.surfaces[j] == pane.surfaces[j]);
        }
    }
    lemma_set_pane_terminal(m, i, k, p, pane2);
}

proof fn lemma_select_workspace_terminal(m: ModelView, id: WorkspaceId)
    requires
        terminal_only(m),
    ensures
        terminal_only(m.select_workspace(id).0),
{
    lemma_selected_window_loc(m);
    if let Ok(wi) = m.selected_window_loc() {
        if wsv_ix(m.windows[wi].workspaces, id) >= 0 {
            assert(window_terminal_only(m.windows[wi]));
            lemma_set_window_terminal(m, wi, WindowView { selected_workspace: id, ..m.windows[wi] });
        }
    }
}

proof fn lemma_rename_workspace_terminal(m: ModelView, id: WorkspaceId, title: Seq<char>)
    requires
        terminal_only(m),
    ensures
        terminal_only(m.rename_workspace(id, title).0),
{
    lemma_selected_window_loc(m);
    if let Ok(wi) = m.selected_window_loc() {
        let k = wsv_ix(m.windows[wi].workspaces, id);
        lemma_first_where_spec(m.windows[wi].workspaces, wsv_is(id));
        if k >= 0 {
            assert(window_terminal_only(m.windows[wi]));
            assert(workspace_terminal_only(m.workspace(wi, k)));
            lemma_set_workspace_terminal(m, wi, k, WorkspaceView { title, ..m.workspace(wi, k) });
        }
    }
}

proof fn lemma_select_pane_terminal(m: ModelView, id: PaneId)
    requires
        terminal_only(m),
    ensures
        terminal_only(m.select_pane(id).0),
{
    lemma_selected_workspace_loc(m);
    if let Ok((wi, k)) = m.selected_workspace_loc() {
        if pv_ix(m.workspace(wi, k).panes, id) >= 0 {
            assert(window_terminal_only(m.windows[wi]));
            assert(workspace_terminal_only(m.workspace(wi, k)));
            lemma_set_workspace_terminal(m, wi, k, WorkspaceView { selected_pane: id, ..m.workspace(wi, k) });
        }
    }
}

proof fn lemma_select_surface_terminal(m: ModelView, id: SurfaceId)
    requires
        terminal_only(m),
    ensures
        terminal_only(m.select_surface(id).0),
{
    lemma_selected_pane_loc(m);
    if let Ok((wi, k, p)) = m.selected_pane_loc() {
        if sv_ix(m.pane(wi, k, p).surfaces, id) >= 0 {
            assert(window_terminal_only(m.windows[wi]));
            assert(workspace_terminal_only(m.workspace(wi, k)));
            assert(pane_terminal_only(m.pane(wi, k, p)));
            lemma_set_pane_terminal(m, wi, k, p, PaneView { selected_surface: id, ..m.pane(wi, k, p) });
        }
    }
}

proof fn lemma_rename_surface_terminal(m: ModelView, id: SurfaceId, title: Seq<char>)
    requires
        terminal_only(m),
    ensures
        terminal_only(m.rename_surface(id, title).0),
{
    lemma_surface_loc(m, id);
    if let Some((wi, k, p, s)) = m.surface_loc(id) {
        assert(window_terminal_only(m.windows[wi]));
        assert(workspace_terminal_only(m.workspace(wi, k)));
        assert(pane_terminal_only(m.pane(wi, k, p)));
        lemma_set_surface_terminal(m, wi, k, p, s, SurfaceView { title, ..m.surface(wi, k, p, s) });
    }
}

proof fn lemma_mark_read_terminal(m: ModelView, id: SurfaceId)
    requires
        terminal_only(m),
    ensures
        terminal_only(m.mark_surface_read(id).0),
{
    lemma_surface_loc(m, id);
    if let Some((wi, k, p, s)) = m.surface_loc(id) {
        assert(window_terminal_only(m.windows[wi]));
        assert(workspace_terminal_only(m.workspace(wi, k)));
        assert(pane_terminal_only(m.pane(wi, k, p)));
        let sv = SurfaceView { unread: false, unread_message: None, unread_sequence: None, ..m.surface(wi, k, p, s) };
        lemma_set_surface_terminal(m, wi, k, p, s, sv);
        let m1 = m.set_surface(wi, k, p, s, sv);
        assert(window_terminal_only(m1.windows[wi]));
        assert(workspace_terminal_only(m1.workspace(wi, k)));
        lemma_set_workspace_terminal(m1, wi, k, recompute_workspace(m1.workspace(wi, k)));
    }
}

proof fn lemma_create_workspace_terminal(m: ModelView, cwd: Seq<char>, title: Option<Seq<char>>)
    requires
        terminal_only(m),
    ensures
        terminal_only(m.create_workspace(cwd, title).0),
{
    let n = m.next_id;
    let t = match title {
        Some(t) => t,
        None => workspace_title_view(cwd),
    };
    let ws = new_workspace_view(n, cwd, t);
    let m1 = m.with_ids((n + 3) as u64);
    lemma_selected_window_loc(m1);
    if let Ok(wi) = m1.selected_window_loc() {
        assert(pane_terminal_only(ws.panes[0]));
        assert(workspace_terminal_only(ws));
        let w = m1.windows[wi];
        assert(window_terminal_only(w));
        let w2 = WindowView { workspaces: w.workspaces.push(ws), selected_workspace: ws.id, ..w };
        assert forall|j: int| 0 <= j < w2.workspaces.len() implies workspace_terminal_only(#[trigger] w2.workspaces[j]) by {
            if j < w.workspaces.len() {
                assert(w2.workspaces[j] == w.workspaces[j]);
            }
        }
        lemma_set_window_terminal(m1, wi, w2);
    }
}

proof fn lemma_close_workspace_terminal(m: ModelView, id: WorkspaceId)
    requires
        terminal_only(m),
    ensures
        terminal_only(m.close_workspace(id).0),
{
    lemma_selected_window_loc(m);
    if let Ok(wi) = m.selected_window_loc() {
        let w = m.windows[wi];
        let k = wsv_ix(w.workspaces, id);
        lemma_first_where_spec(w.workspaces, wsv_is(id));
        if w.workspaces.len() != 1 && k >= 0 {
            assert(window_terminal_only(w));
            let rest = w.workspaces.remove(k);
            let sel = m.close_workspace(id).0.windows[wi].selected_workspace;
            let w2 = WindowView { workspaces: rest, selected_workspace: sel, ..w };
            assert forall|j: int| 0 <= j < rest.len() implies workspace_terminal_only(#[trigger] rest[j]) by {
                if j < k {
                    assert(rest[j] == w.workspaces[j]);
                } else {
                    assert(rest[j] == w.workspaces[j + 1]);
                }
            }
            lemma_set_window_terminal(m, wi, w2);
        }
    }
}

proof fn lemma_close_pane_terminal(m: ModelView, id: PaneId)
    requires
        terminal_only(m),
    ensures
        terminal_only(m.close_pane(id).0),
{
    lemma_selected_workspace_loc(m);
    if let Ok((wi, k)) = m.selected_workspace_loc() {
        let ws = m.workspace(wi, k);
        let p = pv_ix(ws.panes, id);
        lemma_first_where_spec(ws.panes, pv_is(id));
        if ws.panes.len() != 1 && p >= 0 {
            assert(window_terminal_only(m.windows[wi]));
            assert(workspace_terminal_only(ws));
            let rest = ws.panes.remove(p);
            let remaining = rest[0].id;
            let ws2 = recompute_workspace(
                WorkspaceView { panes: rest, selected_pane: remaining, layout: SplitTree::Leaf(remaining), ..ws },
            );
            assert forall|j: int| 0 <= j < rest.len() implies pane_terminal_only(#[trigger] rest[j]) by {
                if j < p {
                    assert(rest[j] == ws.panes[j]);
                } else {
                    assert(rest[j] == ws.panes[j + 1]);
                }
            }
            lemma_set_workspace_terminal(m, wi, k, ws2);
        }
    }
}

proof fn lemma_split_terminal(m: ModelView, axis: SplitAxis)
    requires
        terminal_only(m),
    ensures
        terminal_only(m.split_selected_pane(axis).0),
{
    lemma_selected_workspace_loc(m);
    if let Ok((wi, k)) = m.selected_workspace_loc() {
        let ws = m.workspace(wi, k);
        let sp = ws.selected_pane;
        let p = pv_ix(ws.panes, sp);
        lemma_first_where_spec(ws.panes, pv_is(sp));
        if !(ws.layout is Split) && p >= 0 {
            let n = m.next_id;
            let new_id = PaneId((n + 1) as u64);
            let sid = SurfaceId((n + 2) as u64);
            let pane = PaneView { id: new_id, cwd: ws.panes[p].cwd, surfaces: seq![terminal_surface_view(sid)], selected_surface: sid };
            let ws2 = WorkspaceView {
                panes: ws.panes.push(pane),
                layout: SplitTree::Split { axis, first: sp, second: new_id },
                selected_pane: new_id,
                ..ws
            };
            assert(window_terminal_only(m.windows[wi]));
            assert(workspace_terminal_only(ws));
            assert(pane_terminal_only(pane));
            assert forall|j: int| 0 <= j < ws2.panes.len() implies pane_terminal_only(#[trigger] ws2.panes[j]) by {
                if j < ws.panes.len() {
                    assert(ws2.panes[j] == ws.panes[j]);
                }
            }
            lemma_set_workspace_terminal(m.with_ids((n + 2) as u64), wi, k, ws2);
        }
    }
}

proof fn lemma_open_terminal_terminal(m: ModelView)
    requires
        terminal_only(m),
    ensures
        terminal_only(m.open_terminal_surface().0),
{
    let n = (m.next_id + 1) as u64;
    let sv = terminal_surface_view(SurfaceId(n));
    let m1 = m.with_ids(n);
    lemma_selected_pane_loc(m1);
    if let Ok((wi, k, p)) = m1.selected_pane_loc() {
        let pane = m1.pane(wi, k, p);
        assert(window_terminal_only(m1.windows[wi]));
        assert(workspace_terminal_only(m1.workspace(wi, k)));
        assert(pane_terminal_only(pane));
        let pane2 = PaneView { surfaces: pane.surfaces.push(sv), selected_surface: sv.id, ..pane };
        assert forall|j: int| 0 <= j < pane2.surfaces.len() implies (#[trigger] pane2.surfaces[j]).kind == SurfaceKind::Terminal by {
            if j < pane.surfaces.len() {
                assert(pane2.surfaces[j] == pane.surfaces[j]);
            }
        }
        lemma_set_pane_terminal(m1, wi, k, p, pane2);
    }
}

proof fn lemma_close_surface_terminal(m: ModelView, id: SurfaceId)
    requires
        terminal_only(m),
    ensures
        terminal_only(m.close_surface(id).0),
{
    lemma_selected_pane_loc(m);
    if let Ok((wi, k, p)) = m.selected_pane_loc() {
        let pane = m.pane(wi, k, p);
        let s = sv_ix(pane.surfaces, id);
        lemma_first_where_spec(pane.surfaces, sv_is(id));
        if s >= 0 {
            assert(window_terminal_only(m.windows[wi]));
            assert(workspace_terminal_only(m.workspace(wi, k)));
            assert(pane_terminal_only(pane));
            let rest = pane.surfaces.remove(s);
            let mm = if rest.len() == 0 { m.with_ids((m.next_id + 1) as u64) } else { m };
            let r = SurfaceId((m.next_id + 1) as u64);
            let pane2 = if rest.len() == 0 {
                PaneView { surfaces: seq![terminal_surface_view(r)], selected_surface: r, ..pane }
            } else {
                PaneView { surfaces: rest, selected_surface: rest[if s == 0 { 0 } else { s - 1 }].id, ..pane }
            };
            assert forall|j: int| 0 <= j < pane2.surfaces.len() implies (#[trigger] pane2.surfaces[j]).kind == SurfaceKind::Terminal by {
                if rest.len() != 0 {
                    if j < s {
                        assert(pane2.surfaces[j] == pane.surfaces[j]);
                    } else {
                        assert(pane2.surfaces[j] == pane.surfaces[j + 1]);
                    }
                }
            }
            lemma_set_pane_terminal(mm, wi, k, p, pane2);
            let m1 = mm.set_pane(wi, k, p, pane2);
            let m2 = m1.clear_target_if_removed(seq![id]);
            assert(m2.windows == m1.windows);
            assert(window_terminal_only(m2.windows[wi]));
            assert(workspace_terminal_only(m2.workspace(wi, k)));
            lemma_set_workspace_terminal(m2, wi, k, recompute_workspace(m2.workspace(wi, k)));
        }
    }
}

/// No action the user can ask for adds a surface that is not a terminal: a model of terminals
/// only stays one, whether the action succeeds or fails part way.
pub proof fn law_apply_keeps_terminal_only(c: ControllerView, a: ActionView)
    requires
        terminal_only(c.model),
    ensures
        terminal_only(apply_spec(c, a).0.model),
{
    let m = c.model;
    match a {
        ActionView::NewWorkspace { cwd, title } => lemma_create_workspace_terminal(m, cwd, title),
        ActionView::SelectWorkspace(id) => lemma_select_workspace_terminal(m, id),
        ActionView::RenameWorkspace { workspace_id, title } => lemma_rename_workspace_terminal(m, workspace_id, title),
        ActionView::RenameSurface { surface_id, title } => lemma_rename_surface_terminal(m, surface_id, title),
        ActionView::CloseWorkspace(id) => lemma_close_workspace_terminal(m, id),
        ActionView::SplitPane(axis) => lemma_split_terminal(m, axis),
        ActionView::ClosePane(id) => lemma_close_pane_terminal(m, id),
        ActionView::SelectPane(id) => lemma_select_pane_terminal(m, id),
        ActionView::NewTerminalTab => lemma_open_terminal_terminal(m),
        ActionView::SelectSurface(id) => {
            lemma_select_surface_terminal(m, id);
            lemma_mark_read_terminal(m.select_surface(id).0, id);
        },
        ActionView::CloseSurface(id) => lemma_close_surface_terminal(m, id),
        ActionView::JumpLatestUnread => {
            if let Some(t) = m.latest_unread_target {
                lemma_select_workspace_terminal(m, t.workspace_id);
                let m1 = m.select_workspace(t.workspace_id).0;
                lemma_select_pane_terminal(m1, t.pane_id);
                let m2 = m1.select_pane(t.pane_id).0;
                lemma_select_surface_terminal(m2, t.surface_id);
                let m3 = m2.select_surface(t.surface_id).0;
                lemma_mark_read_terminal(m3, t.surface_id);
            }
        },
        ActionView::MarkSurfaceRead(id) => lemma_mark_read_terminal(m, id),
        ActionView::SaveSessionNow => {},
    }
}

/// A freshly started application holds terminals only.
pub proof fn law_new_model_terminal_only(cwd: Seq<char>)
    ensures
        terminal_only(new_model_view(cwd)),
{
    let m = new_model_view(cwd);
    assert(pane_terminal_only(m.windows[0].workspaces[0].panes[0]));
    assert(workspace_terminal_only(m.windows[0].workspaces[0]));
    assert(window_terminal_only(m.windows[0]));
}

/// Saving a session and restoring it gives back every window, workspace, pane and surface, the
/// selected window, the next unread sequence number and, when it is current, the unread target,
/// for every model of terminals only that is well formed and whose unread bookkeeping is
/// consistent — which is what a fresh start becomes under any actions while identifiers last.
pub proof fn law_saved_session_restores(m: ModelView)
    requires
        m.wf(),
        m.unread_consistent(),
        terminal_only(m),
    ensures
        snapshot_of(m).restore_error() is None,
        snapshot_of(m).restored_model().windows == m.windows,
        snapshot_of(m).restored_model().selected_window == m.selected_window,
        snapshot_of(m).restored_model().next_unread_sequence == m.next_unread_sequence,
        m.target_current() ==> snapshot_of(m).restored_model().latest_unread_target == m.latest_unread_target,
{
    lemma_terminal_only_shows_terminals(m);
    law_restore_gives_back_saved_model(m);
}

} // verus!
