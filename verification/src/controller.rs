use vstd::prelude::*;

use crate::action::{ActionView, AppAction, AppActionOutcome, OutcomeView};
use crate::ids::{PaneId, SurfaceId, WorkspaceId};
use crate::model::{AppModel, AppWindow, ModelError, Pane, SurfaceKind, Workspace, windows_view};
use crate::model_view::{pv_is, pv_ix, sv_is, sv_ix, ModelView, PaneView, SurfaceView, WindowView, WorkspaceView};
use crate::registry::{EntryView, SpawnSpecView, TerminalRegistry, TerminalRegistryError, TerminalSpawnSpec};
use crate::search::{first_where, lemma_first_where_absent, lemma_first_where_found, lemma_first_where_spec};

verus! {

#[derive(Clone, Copy, Debug, PartialEq, Eq, Structural)]
pub enum AppControllerError {
    Model(ModelError),
    TerminalRegistry(TerminalRegistryError),
    NoLatestUnreadTarget,
}

/// The application model together with one terminal per terminal surface.
#[derive(Clone, Debug)]
pub struct AppController {
    pub model: AppModel,
    pub terminals: TerminalRegistry,
}

pub struct ControllerView {
    pub model: ModelView,
    pub terminals: Map<u64, EntryView>,
}

impl View for AppController {
    type V = ControllerView;

    open spec fn view(&self) -> ControllerView {
        ControllerView { model: self.model@, terminals: self.terminals@ }
    }
}

pub open spec fn spec_of(workspace_id: WorkspaceId, pane: PaneView, s: SurfaceView) -> SpawnSpecView {
    SpawnSpecView { workspace_id, pane_id: pane.id, surface_id: s.id, cwd: pane.cwd }
}

/// The terminals a list of surfaces of `pane` needs, in order.
pub open spec fn surfaces_specs(workspace_id: WorkspaceId, pane: PaneView, s: Seq<SurfaceView>) -> Seq<
    SpawnSpecView,
>
    decreases s.len(),
{
    if s.len() == 0 {
        Seq::empty()
    } else if s.last().kind == SurfaceKind::Terminal {
        surfaces_specs(workspace_id, pane, s.drop_last()).push(spec_of(workspace_id, pane, s.last()))
    } else {
        surfaces_specs(workspace_id, pane, s.drop_last())
    }
}

pub open spec fn panes_specs(workspace_id: WorkspaceId, ps: Seq<PaneView>) -> Seq<SpawnSpecView>
    decreases ps.len(),
{
    if ps.len() == 0 {
        Seq::empty()
    } else {
        panes_specs(workspace_id, ps.drop_last()) + surfaces_specs(workspace_id, ps.last(), ps.last().surfaces)
    }
}

pub open spec fn workspaces_specs(wss: Seq<WorkspaceView>) -> Seq<SpawnSpecView>
    decreases wss.len(),
{
    if wss.len() == 0 {
        Seq::empty()
    } else {
        workspaces_specs(wss.drop_last()) + panes_specs(wss.last().id, wss.last().panes)
    }
}

/// Every terminal surface of the application, as the terminal it needs, in window,
/// workspace, pane and surface order.
pub open spec fn terminal_specs(wins: Seq<WindowView>) -> Seq<SpawnSpecView>
    decreases wins.len(),
{
    if wins.len() == 0 {
        Seq::empty()
    } else {
        terminal_specs(wins.drop_last()) + workspaces_specs(wins.last().workspaces)
    }
}

pub open spec fn spawn_one(reg: Map<u64, EntryView>, sp: SpawnSpecView) -> (
    Map<u64, EntryView>,
    Result<(), TerminalRegistryError>,
) {
    if reg.dom().contains(sp.surface_id.0) {
        (reg, Err(TerminalRegistryError::AlreadyRegistered(sp.surface_id)))
    } else {
        (reg.insert(sp.surface_id.0, EntryView::Running(sp)), Ok(()))
    }
}

/// Registers each terminal in turn, stopping at the first that is already registered.
pub open spec fn spawn_all(reg: Map<u64, EntryView>, specs: Seq<SpawnSpecView>) -> (
    Map<u64, EntryView>,
    Result<(), TerminalRegistryError>,
)
    decreases specs.len(),
{
    if specs.len() == 0 {
        (reg, Ok(()))
    } else {
        let (r, res) = spawn_all(reg, specs.drop_last());
        match res {
            Err(e) => (r, Err(e)),
            Ok(_) => spawn_one(r, specs.last()),
        }
    }
}

pub open spec fn spec_for(id: SurfaceId) -> spec_fn(SpawnSpecView) -> bool {
    |sp: SpawnSpecView| sp.surface_id == id
}

/// Registers the terminal of surface `id` unless it has one or is no terminal surface.
pub open spec fn spawn_surface(m: ModelView, reg: Map<u64, EntryView>, id: SurfaceId, spawned: Seq<SurfaceId>) -> (
    Map<u64, EntryView>,
    Seq<SurfaceId>,
) {
    let specs = terminal_specs(m.windows);
    let i = first_where(specs, spec_for(id));
    if i < 0 || reg.dom().contains(id.0) {
        (reg, spawned)
    } else {
        (reg.insert(id.0, EntryView::Running(specs[i])), spawned.push(id))
    }
}

/// Registers the selected surface's terminal when the selected surface is a terminal.
pub open spec fn spawn_selected(m: ModelView, reg: Map<u64, EntryView>, spawned: Seq<SurfaceId>) -> (
    Map<u64, EntryView>,
    Seq<SurfaceId>,
    Result<(), ModelError>,
) {
    match m.selected_pane_loc() {
        Err(e) => (reg, spawned, Err(e)),
        Ok((wi, k, p)) => {
            let pane = m.pane(wi, k, p);
            let s = sv_ix(pane.surfaces, pane.selected_surface);
            if s >= 0 && pane.surfaces[s].kind == SurfaceKind::Terminal {
                let (r2, sp2) = spawn_surface(m, reg, pane.selected_surface, spawned);
                (r2, sp2, Ok(()))
            } else {
                (reg, spawned, Ok(()))
            }
        },
    }
}

pub open spec fn remove_all(reg: Map<u64, EntryView>, ids: Seq<SurfaceId>) -> Map<u64, EntryView>
    decreases ids.len(),
{
    if ids.len() == 0 {
        reg
    } else {
        remove_all(reg, ids.drop_last()).remove(ids.last().0)
    }
}

/// The selected workspace, pane and surface.
pub open spec fn selected_ids(m: ModelView) -> Result<(WorkspaceId, PaneId, SurfaceId), ModelError> {
    match m.selected_workspace_loc() {
        Err(e) => Err(e),
        Ok((wi, k)) => {
            let ws = m.workspace(wi, k);
            let p = pv_ix(ws.panes, ws.selected_pane);
            if p < 0 {
                Err(ModelError::NoSelectedPane)
            } else {
                Ok((ws.id, ws.panes[p].id, ws.panes[p].selected_surface))
            }
        },
    }
}

pub open spec fn model_result<T>(r: Result<T, ModelError>) -> Result<(), AppControllerError> {
    match r {
        Ok(_) => Ok(()),
        Err(e) => Err(AppControllerError::Model(e)),
    }
}

/// Model, terminals, spawned and closed surfaces, and whether it went through.
pub type Step = (ModelView, Map<u64, EntryView>, Seq<SurfaceId>, Seq<SurfaceId>, Result<(), AppControllerError>);

pub open spec fn simple_step<T>(m: (ModelView, Result<T, ModelError>), reg: Map<u64, EntryView>) -> Step {
    (m.0, reg, Seq::empty(), Seq::empty(), model_result(m.1))
}

pub open spec fn then_spawn_selected<T>(m: (ModelView, Result<T, ModelError>), reg: Map<u64, EntryView>) -> Step {
    match m.1 {
        Err(e) => (m.0, reg, Seq::empty(), Seq::empty(), Err(AppControllerError::Model(e))),
        Ok(_) => {
            let (reg2, sp, r2) = spawn_selected(m.0, reg, Seq::empty());
            (m.0, reg2, sp, Seq::empty(), model_result(r2))
        },
    }
}

pub open spec fn then_remove(m: (ModelView, Result<Seq<SurfaceId>, ModelError>), reg: Map<u64, EntryView>) -> Step {
    match m.1 {
        Err(e) => (m.0, reg, Seq::empty(), Seq::empty(), Err(AppControllerError::Model(e))),
        Ok(removed) => (m.0, remove_all(reg, removed), Seq::empty(), removed, Ok(())),
    }
}

/// Selects the latest unread target's workspace, pane and surface, then marks it read.
pub open spec fn jump_to_target(m: ModelView) -> (ModelView, Result<(), AppControllerError>) {
    match m.latest_unread_target {
        None => (m, Err(AppControllerError::NoLatestUnreadTarget)),
        Some(t) => {
            let (m1, r1) = m.select_workspace(t.workspace_id);
            if r1 is Err {
                (m1, model_result(r1))
            } else {
                let (m2, r2) = m1.select_pane(t.pane_id);
                if r2 is Err {
                    (m2, model_result(r2))
                } else {
                    let (m3, r3) = m2.select_surface(t.surface_id);
                    if r3 is Err {
                        (m3, model_result(r3))
                    } else {
                        let (m4, r4) = m3.mark_surface_read(t.surface_id);
                        (m4, model_result(r4))
                    }
                }
            }
        },
    }
}

/// What an action does to the model and the terminals.
pub open spec fn run_action(m: ModelView, reg: Map<u64, EntryView>, a: ActionView) -> Step {
    match a {
        ActionView::NewWorkspace { cwd, title } => then_spawn_selected(m.create_workspace(cwd, title), reg),
        ActionView::SelectWorkspace(id) => simple_step(m.select_workspace(id), reg),
        ActionView::RenameWorkspace { workspace_id, title } => simple_step(
            m.rename_workspace(workspace_id, title),
            reg,
        ),
        ActionView::RenameSurface { surface_id, title } => simple_step(m.rename_surface(surface_id, title), reg),
        ActionView::CloseWorkspace(id) => then_remove(m.close_workspace(id), reg),
        ActionView::SplitPane(axis) => then_spawn_selected(m.split_selected_pane(axis), reg),
        ActionView::ClosePane(id) => then_remove(m.close_pane(id), reg),
        ActionView::SelectPane(id) => simple_step(m.select_pane(id), reg),
        ActionView::NewTerminalTab => {
            let (m1, r) = m.open_terminal_surface();
            match r {
                Err(e) => (m1, reg, Seq::empty(), Seq::empty(), Err(AppControllerError::Model(e))),
                Ok(sid) => {
                    let (reg2, sp) = spawn_surface(m1, reg, sid, Seq::empty());
                    (m1, reg2, sp, Seq::empty(), Ok(()))
                },
            }
        },
        ActionView::SelectSurface(id) => {
            let (m1, r1) = m.select_surface(id);
            if r1 is Err {
                simple_step((m1, r1), reg)
            } else {
                simple_step(m1.mark_surface_read(id), reg)
            }
        },
        ActionView::CloseSurface(id) => {
            let (m1, r) = m.close_surface(id);
            match r {
                Err(e) => (m1, reg, Seq::empty(), Seq::empty(), Err(AppControllerError::Model(e))),
                Ok(removed) => {
                    let (reg2, sp, r2) = spawn_selected(m1, remove_all(reg, removed), Seq::empty());
                    (m1, reg2, sp, removed, model_result(r2))
                },
            }
        },
        ActionView::JumpLatestUnread => {
            let (m1, r) = jump_to_target(m);
            (m1, reg, Seq::empty(), Seq::empty(), r)
        },
        ActionView::MarkSurfaceRead(id) => simple_step(m.mark_surface_read(id), reg),
        ActionView::SaveSessionNow => (m, reg, Seq::empty(), Seq::empty(), Ok(())),
    }
}

/// `AppController::apply`: the action runs between two readings of the selection, and the
/// outcome says what changed; an error leaves whatever the action had already done.
pub open spec fn apply_spec(c: ControllerView, a: ActionView) -> (ControllerView, Result<OutcomeView, AppControllerError>) {
    match selected_ids(c.model) {
        Err(e) => (c, Err(AppControllerError::Model(e))),
        Ok(before) => {
            let (m, reg, sp, cl, r) = run_action(c.model, c.terminals, a);
            let c2 = ControllerView { model: m, terminals: reg };
            match r {
                Err(e) => (c2, Err(e)),
                Ok(_) => match selected_ids(m) {
                    Err(e) => (c2, Err(AppControllerError::Model(e))),
                    Ok(after) => (
                        c2,
                        Ok(
                            OutcomeView {
                                selected_workspace_changed: before.0 != after.0,
                                selected_pane_changed: before.1 != after.1,
                                selected_surface_changed: before.2 != after.2,
                                spawned_surfaces: sp,
                                closed_surfaces: cl,
                                should_save_session: true,
                            },
                        ),
                    ),
                },
            }
        },
    }
}

/// The id counter has room for what the action hands out.
pub open spec fn ids_suffice(m: ModelView, a: ActionView) -> bool {
    match a {
        ActionView::NewWorkspace { .. } => m.next_id + 3 <= u64::MAX,
        ActionView::SplitPane(_) => m.split_allocates() ==> m.next_id + 2 <= u64::MAX,
        ActionView::NewTerminalTab => m.next_id < u64::MAX,
        ActionView::CloseSurface(id) => m.close_surface_replaces(id) ==> m.next_id < u64::MAX,
        _ => true,
    }
}

pub open spec fn specs_view(s: Seq<TerminalSpawnSpec>) -> Seq<SpawnSpecView> {
    s.map_values(|x: TerminalSpawnSpec| x@)
}

fn push_pane_specs(workspace_id: WorkspaceId, pane: &Pane, out: &mut Vec<TerminalSpawnSpec>)
    ensures
        specs_view(final(out)@) == specs_view(old(out)@) + surfaces_specs(workspace_id, pane@, pane@.surfaces),
{
    let ghost sv = pane@.surfaces;
    let ghost start = specs_view(out@);
    let mut i: usize = 0;
    while i < pane.surfaces.len()
        invariant
            i <= pane.surfaces.len(),
            sv == pane@.surfaces,
            sv.len() == pane.surfaces.len(),
            specs_view(out@) == start + surfaces_specs(workspace_id, pane@, sv.take(i as int)),
        decreases pane.surfaces.len() - i,
    {
        let s = &pane.surfaces[i];
        proof {
            assert(sv.take(i + 1).drop_last() =~= sv.take(i as int));
            assert(sv[i as int] == s@);
            assert(sv.take(i + 1).last() == s@);
        }
        if s.kind == SurfaceKind::Terminal {
            let ghost before = out@;
            out.push(TerminalSpawnSpec { workspace_id, pane_id: pane.id, surface_id: s.id, cwd: pane.cwd.clone() });
            proof {
                assert(specs_view(out@) =~= specs_view(before).push(spec_of(workspace_id, pane@, s@)));
                assert(start + surfaces_specs(workspace_id, pane@, sv.take(i + 1)) =~= (start + surfaces_specs(
                    workspace_id,
                    pane@,
                    sv.take(i as int),
                )).push(spec_of(workspace_id, pane@, s@)));
            }
        }
        i = i + 1;
    }
    assert(sv.take(sv.len() as int) =~= sv);
}

fn push_workspace_specs(ws: &Workspace, out: &mut Vec<TerminalSpawnSpec>)
    ensures
        specs_view(final(out)@) == specs_view(old(out)@) + panes_specs(ws.id, ws@.panes),
{
    let ghost pv = ws@.panes;
    let ghost start = specs_view(out@);
    let mut j: usize = 0;
    while j < ws.panes.len()
        invariant
            j <= ws.panes.len(),
            pv == ws@.panes,
            pv.len() == ws.panes.len(),
            specs_view(out@) == start + panes_specs(ws.id, pv.take(j as int)),
        decreases ws.panes.len() - j,
    {
        proof {
            assert(pv.take(j + 1).drop_last() =~= pv.take(j as int));
            assert(pv[j as int] == ws.panes@[j as int]@);
            assert(pv.take(j + 1).last() == pv[j as int]);
        }
        push_pane_specs(ws.id, &ws.panes[j], out);
        proof {
            assert(start + panes_specs(ws.id, pv.take(j + 1)) =~= start + panes_specs(ws.id, pv.take(j as int))
                + surfaces_specs(ws.id, pv[j as int], pv[j as int].surfaces));
        }
        j = j + 1;
    }
    assert(pv.take(pv.len() as int) =~= pv);
}

fn push_window_specs(w: &AppWindow, out: &mut Vec<TerminalSpawnSpec>)
    ensures
        specs_view(final(out)@) == specs_view(old(out)@) + workspaces_specs(w@.workspaces),
{
    let ghost wv = w@.workspaces;
    let ghost start = specs_view(out@);
    let mut j: usize = 0;
    while j < w.workspaces.len()
        invariant
            j <= w.workspaces.len(),
            wv == w@.workspaces,
            wv.len() == w.workspaces.len(),
            specs_view(out@) == start + workspaces_specs(wv.take(j as int)),
        decreases w.workspaces.len() - j,
    {
        proof {
            assert(wv.take(j + 1).drop_last() =~= wv.take(j as int));
            assert(wv[j as int] == w.workspaces@[j as int]@);
            assert(wv.take(j + 1).last() == wv[j as int]);
        }
        push_workspace_specs(&w.workspaces[j], out);
        proof {
            assert(start + workspaces_specs(wv.take(j + 1)) =~= start + workspaces_specs(wv.take(j as int))
                + panes_specs(wv[j as int].id, wv[j as int].panes));
        }
        j = j + 1;
    }
    assert(wv.take(wv.len() as int) =~= wv);
}

/// The terminal every terminal surface of the model needs, in order.
fn model_terminal_specs(model: &AppModel) -> (r: Vec<TerminalSpawnSpec>)
    ensures
        specs_view(r@) == terminal_specs(model@.windows),
{
    let ghost wv = model@.windows;
    let mut out: Vec<TerminalSpawnSpec> = Vec::new();
    let mut j: usize = 0;
    while j < model.windows.len()
        invariant
            j <= model.windows.len(),
            wv == model@.windows,
            wv == windows_view(model.windows@),
            wv.len() == model.windows.len(),
            specs_view(out@) == terminal_specs(wv.take(j as int)),
        decreases model.windows.len() - j,
    {
        proof {
            assert(wv.take(j + 1).drop_last() =~= wv.take(j as int));
            assert(wv[j as int] == model.windows@[j as int]@);
            assert(wv.take(j + 1).last() == wv[j as int]);
        }
        push_window_specs(&model.windows[j], &mut out);
        j = j + 1;
    }
    assert(wv.take(wv.len() as int) =~= wv);
    out
}

#[derive(Clone, Copy, Debug, PartialEq, Eq, Structural)]
struct SelectedIds {
    workspace_id: WorkspaceId,
    pane_id: PaneId,
    surface_id: SurfaceId,
}

impl AppController {
    fn selected_ids(&self) -> (r: Result<SelectedIds, AppControllerError>)
        ensures
            match selected_ids(self.model@) {
                Ok(t) => r == Ok::<SelectedIds, AppControllerError>(
                    SelectedIds { workspace_id: t.0, pane_id: t.1, surface_id: t.2 },
                ),
                Err(e) => r == Err::<SelectedIds, AppControllerError>(AppControllerError::Model(e)),
            },
    {
        let (i, k) = match self.model.selected_workspace_index() {
            Ok(t) => t,
            Err(e) => return Err(AppControllerError::Model(e)),
        };
        let workspace = &self.model.windows[i].workspaces[k];
        proof {
            assert(self.model@.windows[i as int] == self.model.windows@[i as int]@);
            assert(self.model@.workspace(i as int, k as int) == workspace@);
        }
        let pane = match workspace.selected_pane() {
            Some(p) => p,
            None => return Err(AppControllerError::Model(ModelError::NoSelectedPane)),
        };
        proof {
            let p = pv_ix(workspace@.panes, workspace.selected_pane);
            lemma_first_where_spec(workspace@.panes, pv_is(workspace.selected_pane));
            assert(workspace@.panes[p] == pane@);
        }
        Ok(SelectedIds { workspace_id: workspace.id, pane_id: pane.id, surface_id: pane.selected_surface })
    }
}


pub open spec fn registry_result(r: Result<(), TerminalRegistryError>) -> Result<(), AppControllerError> {
    match r {
        Ok(_) => Ok(()),
        Err(e) => Err(AppControllerError::TerminalRegistry(e)),
    }
}

pub open spec fn outcome_result_view(r: Result<AppActionOutcome, AppControllerError>) -> Result<
    OutcomeView,
    AppControllerError,
> {
    match r {
        Ok(o) => Ok(o@),
        Err(e) => Err(e),
    }
}

/// The outcome with other lists of spawned and closed surfaces.
pub open spec fn with_lists(o: OutcomeView, spawned: Seq<SurfaceId>, closed: Seq<SurfaceId>) -> OutcomeView {
    OutcomeView { spawned_surfaces: spawned, closed_surfaces: closed, ..o }
}

fn find_spec(specs: &Vec<TerminalSpawnSpec>, id: SurfaceId) -> (r: Option<usize>)
    ensures
        match r {
            Some(i) => i < specs.len() && i == first_where(specs_view(specs@), spec_for(id)),
            None => first_where(specs_view(specs@), spec_for(id)) == -1,
        },
{
    let ghost v = specs_view(specs@);
    let mut i: usize = 0;
    while i < specs.len()
        invariant
            i <= specs.len(),
            v == specs_view(specs@),
            forall|j: int| 0 <= j < i ==> !spec_for(id)(#[trigger] v[j]),
        decreases specs.len() - i,
    {
        assert(v[i as int] == specs@[i as int]@);
        if specs[i].surface_id == id {
            proof {
                lemma_first_where_found(v, spec_for(id), i as int);
            }
            return Some(i);
        }
        i = i + 1;
    }
    proof {
        lemma_first_where_absent(v, spec_for(id));
    }
    None
}

impl AppController {
    fn spawn_surface(&mut self, surface_id: SurfaceId, outcome: &mut AppActionOutcome) -> (r: Result<
        (),
        AppControllerError,
    >)
        ensures
            r == Ok::<(), AppControllerError>(()),
            final(self).model == old(self).model,
            final(self).terminals@ == spawn_surface(
                old(self).model@,
                old(self).terminals@,
                surface_id,
                old(outcome).spawned_surfaces@,
            ).0,
            final(outcome)@ == with_lists(
                old(outcome)@,
                spawn_surface(old(self).model@, old(self).terminals@, surface_id, old(outcome).spawned_surfaces@).1,
                old(outcome).closed_surfaces@,
            ),
    {
        let specs = model_terminal_specs(&self.model);
        let i = match find_spec(&specs, surface_id) {
            Some(i) => i,
            None => return Ok(()),
        };
        if !self.terminals.contains(surface_id) {
            let spec = specs[i].clone();
            proof {
                lemma_first_where_spec(specs_view(specs@), spec_for(surface_id));
            }
            assert(spec@ == specs_view(specs@)[i as int]);
            assert(spec.surface_id == surface_id);
            match self.terminals.spawn(spec) {
                Ok(()) => {},
                Err(e) => return Err(AppControllerError::TerminalRegistry(e)),
            }
            outcome.spawned_surfaces.push(surface_id);
        }
        Ok(())
    }

    fn spawn_selected_terminal_if_missing(&mut self, outcome: &mut AppActionOutcome) -> (r: Result<
        (),
        AppControllerError,
    >)
        ensures
            final(self).model == old(self).model,
            final(self).terminals@ == spawn_selected(old(self).model@, old(self).terminals@, old(outcome).spawned_surfaces@).0,
            final(outcome)@ == with_lists(
                old(outcome)@,
                spawn_selected(old(self).model@, old(self).terminals@, old(outcome).spawned_surfaces@).1,
                old(outcome).closed_surfaces@,
            ),
            r == model_result(spawn_selected(old(self).model@, old(self).terminals@, old(outcome).spawned_surfaces@).2),
    {
        let (i, k, p) = match self.model.selected_pane_index() {
            Ok(t) => t,
            Err(e) => return Err(AppControllerError::Model(e)),
        };
        let pane = &self.model.windows[i].workspaces[k].panes[p];
        proof {
            assert(self.model@.windows[i as int] == self.model.windows@[i as int]@);
            assert(self.model@.workspace(i as int, k as int) == self.model.windows@[i as int].workspaces@[k as int]@);
            assert(self.model@.pane(i as int, k as int, p as int) == pane@);
        }
        let surface_id = pane.selected_surface;
        let is_terminal = match pane.surface(surface_id) {
            Some(s) => {
                proof {
                    let x = sv_ix(pane@.surfaces, surface_id);
                    lemma_first_where_spec(pane@.surfaces, sv_is(surface_id));
                    assert(pane@.surfaces[x] == s@);
                }
                s.kind == SurfaceKind::Terminal
            },
            None => false,
        };
        if is_terminal {
            self.spawn_surface(surface_id, outcome)?;
        }
        Ok(())
    }

    fn remove_closed_surfaces(&mut self, surface_ids: Vec<SurfaceId>, outcome: &mut AppActionOutcome)
        ensures
            final(self).model == old(self).model,
            final(self).terminals@ == remove_all(old(self).terminals@, surface_ids@),
            final(outcome)@ == with_lists(
                old(outcome)@,
                old(outcome).spawned_surfaces@,
                old(outcome).closed_surfaces@ + surface_ids@,
            ),
    {
        let mut i: usize = 0;
        while i < surface_ids.len()
            invariant
                i <= surface_ids.len(),
                self.model == old(self).model,
                self.terminals@ == remove_all(old(self).terminals@, surface_ids@.take(i as int)),
                outcome@ == with_lists(
                    old(outcome)@,
                    old(outcome).spawned_surfaces@,
                    old(outcome).closed_surfaces@ + surface_ids@.take(i as int),
                ),
            decreases surface_ids.len() - i,
        {
            let id = surface_ids[i];
            proof {
                assert(surface_ids@.take(i + 1).drop_last() =~= surface_ids@.take(i as int));
                assert(surface_ids@.take(i + 1).last() == id);
            }
            self.terminals.remove(id);
            outcome.closed_surfaces.push(id);
            assert(old(outcome).closed_surfaces@ + surface_ids@.take(i + 1) =~= (old(outcome).closed_surfaces@
                + surface_ids@.take(i as int)).push(id));
            i = i + 1;
        }
        assert(surface_ids@.take(surface_ids.len() as int) =~= surface_ids@);
    }

    fn spawn_all_terminal_surfaces(&mut self) -> (r: Result<(), AppControllerError>)
        ensures
            final(self).model == old(self).model,
            final(self).terminals@ == spawn_all(old(self).terminals@, terminal_specs(old(self).model@.windows)).0,
            r == registry_result(spawn_all(old(self).terminals@, terminal_specs(old(self).model@.windows)).1),
    {
        let specs = model_terminal_specs(&self.model);
        let ghost sv = specs_view(specs@);
        let mut i: usize = 0;
        while i < specs.len()
            invariant
                i <= specs.len(),
                sv == specs_view(specs@),
                sv == terminal_specs(old(self).model@.windows),
                self.model == old(self).model,
                self.terminals@ == spawn_all(old(self).terminals@, sv.take(i as int)).0,
                spawn_all(old(self).terminals@, sv.take(i as int)).1 is Ok,
            decreases specs.len() - i,
        {
            proof {
                assert(sv.take(i + 1).drop_last() =~= sv.take(i as int));
                assert(sv.take(i + 1).last() == specs@[i as int]@);
            }
            let spec = specs[i].clone();
            match self.terminals.spawn(spec) {
                Ok(()) => {},
                Err(e) => {
                    proof {
                        assert(sv.take(sv.len() as int) =~= sv);
                        lemma_spawn_all_stops(old(self).terminals@, sv, i + 1);
                    }
                    return Err(AppControllerError::TerminalRegistry(e));
                },
            }
            i = i + 1;
        }
        assert(sv.take(sv.len() as int) =~= sv);
        Ok(())
    }
}

/// Once a spawn fails, the rest of the list changes nothing and the failure stands.
proof fn lemma_spawn_all_stops(reg: Map<u64, EntryView>, specs: Seq<SpawnSpecView>, n: int)
    requires
        0 <= n <= specs.len(),
        spawn_all(reg, specs.take(n)).1 is Err,
    ensures
        spawn_all(reg, specs) == spawn_all(reg, specs.take(n)),
    decreases specs.len() - n,
{
    if n < specs.len() {
        assert(specs.take(n + 1).drop_last() =~= specs.take(n));
        lemma_spawn_all_stops(reg, specs, n + 1);
    } else {
        assert(specs.take(n) =~= specs);
    }
}


impl AppController {
    /// A controller over `model` with a terminal for each of its terminal surfaces; refused
    /// when two terminal surfaces share an id.
    pub fn new(model: AppModel) -> (r: Result<Self, AppControllerError>)
        ensures
            match spawn_all(Map::empty(), terminal_specs(model@.windows)) {
                (reg, Ok(_)) => r matches Ok(c) && c.model == model && c.terminals@ == reg,
                (_, Err(e)) => r == Err::<AppController, AppControllerError>(AppControllerError::TerminalRegistry(e)),
            },
    {
        let mut controller = AppController { model, terminals: TerminalRegistry::new() };
        controller.spawn_all_terminal_surfaces()?;
        Ok(controller)
    }

    /// `new` on a model read back from a saved session.
    pub fn from_restored_model(model: AppModel) -> (r: Result<Self, AppControllerError>)
        ensures
            match spawn_all(Map::empty(), terminal_specs(model@.windows)) {
                (reg, Ok(_)) => r matches Ok(c) && c.model == model && c.terminals@ == reg,
                (_, Err(e)) => r == Err::<AppController, AppControllerError>(AppControllerError::TerminalRegistry(e)),
            },
    {
        Self::new(model)
    }

    fn run(&mut self, action: AppAction, outcome: &mut AppActionOutcome) -> (r: Result<(), AppControllerError>)
        requires
            ids_suffice(old(self).model@, action@),
            old(outcome).spawned_surfaces@.len() == 0,
            old(outcome).closed_surfaces@.len() == 0,
        ensures
            run_action(old(self).model@, old(self).terminals@, action@) == (
                final(self).model@,
                final(self).terminals@,
                final(outcome).spawned_surfaces@,
                final(outcome).closed_surfaces@,
                r,
            ),
            final(outcome)@ == with_lists(old(outcome)@, final(outcome).spawned_surfaces@, final(outcome).closed_surfaces@),
    {
        proof {
            assert(old(outcome).spawned_surfaces@ =~= Seq::<SurfaceId>::empty());
            assert(old(outcome).closed_surfaces@ =~= Seq::<SurfaceId>::empty());
        }
        match action {
            AppAction::NewWorkspace { cwd, title } => {
                match self.model.create_workspace(cwd.as_str(), title) {
                    Ok(_) => {},
                    Err(e) => return Err(AppControllerError::Model(e)),
                }
                self.spawn_selected_terminal_if_missing(outcome)
            },
            AppAction::SelectWorkspace(workspace_id) => match self.model.select_workspace(workspace_id) {
                Ok(_) => Ok(()),
                Err(e) => Err(AppControllerError::Model(e)),
            },
            AppAction::RenameWorkspace { workspace_id, title } => match self.model.rename_workspace(workspace_id, title) {
                Ok(_) => Ok(()),
                Err(e) => Err(AppControllerError::Model(e)),
            },
            AppAction::RenameSurface { surface_id, title } => match self.model.rename_surface(surface_id, title) {
                Ok(_) => Ok(()),
                Err(e) => Err(AppControllerError::Model(e)),
            },
            AppAction::CloseWorkspace(workspace_id) => {
                let closed = match self.model.close_workspace(workspace_id) {
                    Ok(c) => c,
                    Err(e) => return Err(AppControllerError::Model(e)),
                };
                let ghost cv = closed@;
                self.remove_closed_surfaces(closed, outcome);
                assert(outcome.closed_surfaces@ =~= cv);
                Ok(())
            },
            AppAction::SplitPane(axis) => {
                match self.model.split_selected_pane(axis) {
                    Ok(_) => {},
                    Err(e) => return Err(AppControllerError::Model(e)),
                }
                self.spawn_selected_terminal_if_missing(outcome)
            },
            AppAction::ClosePane(pane_id) => {
                let closed = match self.model.close_pane(pane_id) {
                    Ok(c) => c,
                    Err(e) => return Err(AppControllerError::Model(e)),
                };
                let ghost cv = closed@;
                self.remove_closed_surfaces(closed, outcome);
                assert(outcome.closed_surfaces@ =~= cv);
                Ok(())
            },
            AppAction::SelectPane(pane_id) => match self.model.select_pane(pane_id) {
                Ok(_) => Ok(()),
                Err(e) => Err(AppControllerError::Model(e)),
            },
            AppAction::NewTerminalTab => {
                let surface_id = match self.model.open_terminal_surface() {
                    Ok(id) => id,
                    Err(e) => return Err(AppControllerError::Model(e)),
                };
                self.spawn_surface(surface_id, outcome)
            },
            AppAction::SelectSurface(surface_id) => {
                match self.model.select_surface(surface_id) {
                    Ok(_) => {},
                    Err(e) => return Err(AppControllerError::Model(e)),
                }
                match self.model.mark_surface_read(surface_id) {
                    Ok(_) => Ok(()),
                    Err(e) => Err(AppControllerError::Model(e)),
                }
            },
            AppAction::CloseSurface(surface_id) => {
                let closed = match self.model.close_surface(surface_id) {
                    Ok(c) => c,
                    Err(e) => return Err(AppControllerError::Model(e)),
                };
                let ghost cv = closed@;
                self.remove_closed_surfaces(closed, outcome);
                assert(outcome.closed_surfaces@ =~= cv);
                self.spawn_selected_terminal_if_missing(outcome)
            },
            AppAction::JumpLatestUnread => self.jump_latest_unread(),
            AppAction::MarkSurfaceRead(surface_id) => match self.model.mark_surface_read(surface_id) {
                Ok(_) => Ok(()),
                Err(e) => Err(AppControllerError::Model(e)),
            },
            AppAction::SaveSessionNow => Ok(()),
        }
    }

    fn jump_latest_unread(&mut self) -> (r: Result<(), AppControllerError>)
        ensures
            (final(self).model@, r) == jump_to_target(old(self).model@),
            final(self).terminals == old(self).terminals,
    {
        let (workspace_id, pane_id, surface_id) = match &self.model.latest_unread_target {
            Some(t) => (t.workspace_id, t.pane_id, t.surface_id),
            None => return Err(AppControllerError::NoLatestUnreadTarget),
        };
        match self.model.select_workspace(workspace_id) {
            Ok(_) => {},
            Err(e) => return Err(AppControllerError::Model(e)),
        }
        match self.model.select_pane(pane_id) {
            Ok(_) => {},
            Err(e) => return Err(AppControllerError::Model(e)),
        }
        match self.model.select_surface(surface_id) {
            Ok(_) => {},
            Err(e) => return Err(AppControllerError::Model(e)),
        }
        match self.model.mark_surface_read(surface_id) {
            Ok(_) => Ok(()),
            Err(e) => Err(AppControllerError::Model(e)),
        }
    }

    /// Runs `action` and reports what changed; every action that goes through asks for the
    /// session to be saved.
    pub fn apply(&mut self, action: AppAction) -> (r: Result<AppActionOutcome, AppControllerError>)
        requires
            ids_suffice(old(self).model@, action@),
        ensures
            (final(self)@, outcome_result_view(r)) == apply_spec(old(self)@, action@),
    {
        let before = self.selected_ids()?;
        let mut outcome = AppActionOutcome {
            selected_workspace_changed: false,
            selected_pane_changed: false,
            selected_surface_changed: false,
            spawned_surfaces: Vec::new(),
            closed_surfaces: Vec::new(),
            should_save_session: true,
        };
        self.run(action, &mut outcome)?;
        let after = self.selected_ids()?;
        outcome.selected_workspace_changed = before.workspace_id != after.workspace_id;
        outcome.selected_pane_changed = before.pane_id != after.pane_id;
        outcome.selected_surface_changed = before.surface_id != after.surface_id;
        Ok(outcome)
    }
}
} // verus!
