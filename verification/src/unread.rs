use vstd::prelude::*;

use crate::ids::WorkspaceId;
use crate::model::{opt_string_view, opt_target_view, AppWindow, Pane, UnreadTarget, Workspace, panes_view, windows_view, workspaces_view};
use crate::model_view::{
    newest_unread_target, panes_targets, panes_unread_surfaces, recompute_workspace,
    surface_key, surfaces_targets, target_key, unread_surfaces, windows_targets,
    workspace_unread_state, workspaces_targets, SurfaceView, TargetView,
};
use crate::search::{fold_max, lemma_fold_max_concat, lemma_fold_max_from_none, lemma_fold_max_push, max_step};

verus! {

pub fn clone_opt_string(o: &Option<String>) -> (r: Option<String>)
    ensures
        r == *o,
{
    match o {
        Some(s) => Some(s.clone()),
        None => None,
    }
}

fn fold_surface_targets(workspace_id: WorkspaceId, pane: &Pane, acc: Option<UnreadTarget>) -> (r: Option<UnreadTarget>)
    ensures
        opt_target_view(r) == fold_max(
            opt_target_view(acc),
            surfaces_targets(workspace_id, pane.id, pane@.surfaces),
            target_key(),
        ),
{
    let ghost sv = pane@.surfaces;
    let ghost acc_v = opt_target_view(acc);
    let mut best = acc;
    let mut i: usize = 0;
    while i < pane.surfaces.len()
        invariant
            i <= pane.surfaces.len(),
            sv == pane@.surfaces,
            sv.len() == pane.surfaces.len(),
            opt_target_view(best) == fold_max(acc_v, surfaces_targets(workspace_id, pane.id, sv.take(i as int)), target_key()),
        decreases pane.surfaces.len() - i,
    {
        let s = &pane.surfaces[i];
        proof {
            assert(sv.take(i + 1).drop_last() =~= sv.take(i as int));
            assert(sv[i as int] == s@);
            assert(sv.take(i + 1).last() == s@);
        }
        if s.unread {
            let seq_no = match s.unread_sequence {
                Some(q) => q,
                None => 0,
            };
            let take = match &best {
                None => true,
                Some(b) => seq_no >= b.sequence,
            };
            let ghost t = crate::model_view::target_of(workspace_id, pane.id, s@);
            proof {
                lemma_fold_max_push(acc_v, surfaces_targets(workspace_id, pane.id, sv.take(i as int)), t, target_key());
            }
            if take {
                let message = match &s.unread_message {
                    Some(m) => m.clone(),
                    None => String::new(),
                };
                best = Some(UnreadTarget { workspace_id, pane_id: pane.id, surface_id: s.id, message, sequence: seq_no });
                assert(opt_target_view(best) == Some(t));
            }
        }
        i = i + 1;
    }
    assert(sv.take(sv.len() as int) =~= sv);
    best
}

fn fold_pane_targets(ws: &Workspace, acc: Option<UnreadTarget>) -> (r: Option<UnreadTarget>)
    ensures
        opt_target_view(r) == fold_max(opt_target_view(acc), panes_targets(ws.id, ws@.panes), target_key()),
{
    let ghost pv = ws@.panes;
    let ghost acc_v = opt_target_view(acc);
    let mut best = acc;
    let mut j: usize = 0;
    while j < ws.panes.len()
        invariant
            j <= ws.panes.len(),
            pv == ws@.panes,
            pv.len() == ws.panes.len(),
            opt_target_view(best) == fold_max(acc_v, panes_targets(ws.id, pv.take(j as int)), target_key()),
        decreases ws.panes.len() - j,
    {
        proof {
            assert(pv.take(j + 1).drop_last() =~= pv.take(j as int));
            assert(pv[j as int] == ws.panes@[j as int]@);
            assert(pv.take(j + 1).last() == pv[j as int]);
            lemma_fold_max_concat(
                acc_v,
                panes_targets(ws.id, pv.take(j as int)),
                surfaces_targets(ws.id, pv[j as int].id, pv[j as int].surfaces),
                target_key(),
            );
        }
        best = fold_surface_targets(ws.id, &ws.panes[j], best);
        j = j + 1;
    }
    assert(pv.take(pv.len() as int) =~= pv);
    best
}

fn fold_workspace_targets(w: &AppWindow, acc: Option<UnreadTarget>) -> (r: Option<UnreadTarget>)
    ensures
        opt_target_view(r) == fold_max(opt_target_view(acc), workspaces_targets(w@.workspaces), target_key()),
{
    let ghost wv = w@.workspaces;
    let ghost acc_v = opt_target_view(acc);
    let mut best = acc;
    let mut j: usize = 0;
    while j < w.workspaces.len()
        invariant
            j <= w.workspaces.len(),
            wv == w@.workspaces,
            wv.len() == w.workspaces.len(),
            opt_target_view(best) == fold_max(acc_v, workspaces_targets(wv.take(j as int)), target_key()),
        decreases w.workspaces.len() - j,
    {
        proof {
            assert(wv.take(j + 1).drop_last() =~= wv.take(j as int));
            assert(wv[j as int] == w.workspaces@[j as int]@);
            assert(wv.take(j + 1).last() == wv[j as int]);
            lemma_fold_max_concat(
                acc_v,
                workspaces_targets(wv.take(j as int)),
                panes_targets(wv[j as int].id, wv[j as int].panes),
                target_key(),
            );
        }
        best = fold_pane_targets(&w.workspaces[j], best);
        j = j + 1;
    }
    assert(wv.take(wv.len() as int) =~= wv);
    best
}

/// The newest unread surface across all windows, as an unread target.
pub fn newest_target(windows: &Vec<AppWindow>) -> (r: Option<UnreadTarget>)
    ensures
        opt_target_view(r) == newest_unread_target(windows_view(windows@)),
{
    let ghost wv = windows_view(windows@);
    let mut best: Option<UnreadTarget> = None;
    let mut j: usize = 0;
    while j < windows.len()
        invariant
            j <= windows.len(),
            wv == windows_view(windows@),
            wv.len() == windows.len(),
            opt_target_view(best) == fold_max(None, windows_targets(wv.take(j as int)), target_key()),
        decreases windows.len() - j,
    {
        proof {
            assert(wv.take(j + 1).drop_last() =~= wv.take(j as int));
            assert(wv[j as int] == windows@[j as int]@);
            assert(wv.take(j + 1).last() == wv[j as int]);
            lemma_fold_max_concat(
                None,
                windows_targets(wv.take(j as int)),
                workspaces_targets(wv[j as int].workspaces),
                target_key(),
            );
        }
        best = fold_workspace_targets(&windows[j], best);
        j = j + 1;
    }
    proof {
        assert(wv.take(wv.len() as int) =~= wv);
        lemma_fold_max_from_none(windows_targets(wv), target_key());
    }
    best
}

/// Recomputes whether a workspace is unread, and its latest notification, from its surfaces.
pub fn workspace_unread_state_exec(panes: &Vec<Pane>) -> (r: (bool, Option<String>))
    ensures
        r.0 == workspace_unread_state(panes_view(panes@)).0,
        opt_string_view(r.1) == workspace_unread_state(panes_view(panes@)).1,
{
    let ghost pv = panes_view(panes@);
    let mut best: Option<(usize, usize)> = None;
    let mut best_key: u64 = 0;
    let ghost mut g: Option<SurfaceView> = None;
    let mut j: usize = 0;
    while j < panes.len()
        invariant
            j <= panes.len(),
            pv == panes_view(panes@),
            pv.len() == panes.len(),
            g == fold_max(None, panes_unread_surfaces(pv.take(j as int)), surface_key()),
            match best {
                None => g is None,
                Some((a, b)) => a < panes.len() && b < panes@[a as int].surfaces.len() && g == Some(
                    pv[a as int].surfaces[b as int],
                ) && best_key == surface_key()(pv[a as int].surfaces[b as int]),
            },
        decreases panes.len() - j,
    {
        let pane = &panes[j];
        let ghost sv = pv[j as int].surfaces;
        let ghost prefix = panes_unread_surfaces(pv.take(j as int));
        assert(pv[j as int] == pane@);
        let mut i: usize = 0;
        while i < pane.surfaces.len()
            invariant
                j < panes.len(),
                pane == &panes[j as int],
                i <= pane.surfaces.len(),
                pv == panes_view(panes@),
                pv.len() == panes.len(),
                sv == pv[j as int].surfaces,
                sv == pane@.surfaces,
                sv.len() == pane.surfaces.len(),
                g == fold_max(None, prefix + unread_surfaces(sv.take(i as int)), surface_key()),
                match best {
                    None => g is None,
                    Some((a, b)) => a < panes.len() && b < panes@[a as int].surfaces.len() && g == Some(
                        pv[a as int].surfaces[b as int],
                    ) && best_key == surface_key()(pv[a as int].surfaces[b as int]),
                },
            decreases pane.surfaces.len() - i,
        {
            let s = &pane.surfaces[i];
            proof {
                assert(sv.take(i + 1).drop_last() =~= sv.take(i as int));
                assert(sv[i as int] == s@);
                assert(sv.take(i + 1).last() == s@);
            }
            if s.unread {
                let k = match s.unread_sequence {
                    Some(q) => q,
                    None => 0,
                };
                proof {
                    assert(prefix + unread_surfaces(sv.take(i + 1)) =~= (prefix + unread_surfaces(sv.take(i as int))).push(s@));
                    lemma_fold_max_push(None, prefix + unread_surfaces(sv.take(i as int)), s@, surface_key());
                }
                let take = match best {
                    None => true,
                    Some(_) => k >= best_key,
                };
                if take {
                    best = Some((j, i));
                    best_key = k;
                }
                proof {
                    g = max_step(g, s@, surface_key());
                }
            } else {
                assert(prefix + unread_surfaces(sv.take(i + 1)) =~= prefix + unread_surfaces(sv.take(i as int)));
            }
            i = i + 1;
        }
        proof {
            assert(sv.take(sv.len() as int) =~= sv);
            assert(pv.take(j + 1).drop_last() =~= pv.take(j as int));
            assert(pv.take(j + 1).last() == pv[j as int]);
        }
        j = j + 1;
    }
    proof {
        assert(pv.take(pv.len() as int) =~= pv);
        lemma_fold_max_from_none(panes_unread_surfaces(pv), surface_key());
    }
    match best {
        None => (false, None),
        Some((a, b)) => {
            assert(pv[a as int].surfaces[b as int] == panes@[a as int].surfaces@[b as int]@);
            (true, clone_opt_string(&panes[a].surfaces[b].unread_message))
        },
    }
}

pub fn recompute_workspace_unread(workspace: &mut Workspace)
    ensures
        final(workspace)@ == recompute_workspace(old(workspace)@),
{
    let (unread, latest) = workspace_unread_state_exec(&workspace.panes);
    workspace.unread = unread;
    workspace.latest_notification = latest;
}

} // verus!
