use vstd::prelude::*;

use crate::ids::{PaneId, SurfaceId, WorkspaceId};
use crate::notify::TerminalNotification;
use crate::render::TerminalRendererSnapshot;
use crate::terminal_events::TerminalHealth;

verus! {

/// What a terminal is started with.
#[derive(Debug, PartialEq, Eq)]
pub struct TerminalSpawnSpec {
    pub workspace_id: WorkspaceId,
    pub pane_id: PaneId,
    pub surface_id: SurfaceId,
    pub cwd: String,
}

pub struct SpawnSpecView {
    pub workspace_id: WorkspaceId,
    pub pane_id: PaneId,
    pub surface_id: SurfaceId,
    pub cwd: Seq<char>,
}

impl View for TerminalSpawnSpec {
    type V = SpawnSpecView;

    open spec fn view(&self) -> SpawnSpecView {
        SpawnSpecView {
            workspace_id: self.workspace_id,
            pane_id: self.pane_id,
            surface_id: self.surface_id,
            cwd: self.cwd@,
        }
    }
}

/// A registered terminal: one that runs, or one whose start failed with a message.
#[derive(Debug)]
pub enum TerminalEntry {
    Running { spec: TerminalSpawnSpec },
    Failed { spec: TerminalSpawnSpec, message: String },
}

pub enum EntryView {
    Running(SpawnSpecView),
    Failed(SpawnSpecView, Seq<char>),
}

impl EntryView {
    pub open spec fn spec(self) -> SpawnSpecView {
        match self {
            EntryView::Running(s) => s,
            EntryView::Failed(s, _) => s,
        }
    }
}

impl View for TerminalEntry {
    type V = EntryView;

    open spec fn view(&self) -> EntryView {
        match self {
            TerminalEntry::Running { spec } => EntryView::Running(spec@),
            TerminalEntry::Failed { spec, message } => EntryView::Failed(spec@, message@),
        }
    }
}

impl Clone for TerminalSpawnSpec {
    fn clone(&self) -> (r: Self)
        ensures
            r@ == self@,
    {
        TerminalSpawnSpec {
            workspace_id: self.workspace_id,
            pane_id: self.pane_id,
            surface_id: self.surface_id,
            cwd: self.cwd.clone(),
        }
    }
}

impl Clone for TerminalEntry {
    fn clone(&self) -> (r: Self)
        ensures
            r@ == self@,
    {
        match self {
            TerminalEntry::Running { spec } => TerminalEntry::Running { spec: spec.clone() },
            TerminalEntry::Failed { spec, message } => TerminalEntry::Failed {
                spec: spec.clone(),
                message: message.clone(),
            },
        }
    }
}

/// The outcome of starting a terminal: `Ok` or the error message.
pub open spec fn outcome_view(o: Result<(), String>) -> Result<(), Seq<char>> {
    match o {
        Ok(()) => Ok(()),
        Err(m) => Err(m@),
    }
}

/// The entry a start with outcome `o` registers.
pub open spec fn spawned_entry(spec: SpawnSpecView, o: Result<(), Seq<char>>) -> EntryView {
    match o {
        Ok(()) => EntryView::Running(spec),
        Err(m) => EntryView::Failed(spec, m),
    }
}

/// A handle that outlives nothing: this build holds no live process behind an entry.
#[derive(Clone, Copy, Debug, PartialEq, Eq, Structural)]
pub enum TerminalEntryHandle {
    Inert,
}

/// What the UI can read of a terminal.
#[derive(Clone, Debug, PartialEq, Eq)]
pub struct TerminalEntrySnapshot {
    pub health: Option<TerminalHealth>,
    pub renderer_snapshot: Option<TerminalRendererSnapshot>,
}

impl TerminalEntry {
    /// The entry for a terminal started for `spec`: running, or failed with the start's error.
    pub fn from_spawn_outcome(spec: TerminalSpawnSpec, outcome: Result<(), String>) -> (r: Self)
        ensures
            r@ == spawned_entry(spec@, outcome_view(outcome)),
    {
        match outcome {
            Ok(()) => TerminalEntry::Running { spec },
            Err(message) => TerminalEntry::Failed { spec, message },
        }
    }

    pub fn surface_id(&self) -> (r: SurfaceId)
        ensures
            r == self@.spec().surface_id,
    {
        self.spec().surface_id
    }

    pub fn spec(&self) -> (r: &TerminalSpawnSpec)
        ensures
            r@ == self@.spec(),
    {
        match self {
            TerminalEntry::Running { spec } => spec,
            TerminalEntry::Failed { spec, .. } => spec,
        }
    }

    pub fn snapshot(&self) -> (r: Option<TerminalRendererSnapshot>)
        ensures
            r is None,
    {
        self.snapshot_state().renderer_snapshot
    }

    pub fn health(&self) -> (r: Option<TerminalHealth>)
        ensures
            r is None,
    {
        self.snapshot_state().health
    }

    /// No entry of this build has a live terminal behind it, so there is nothing to read.
    pub fn snapshot_state(&self) -> (r: TerminalEntrySnapshot)
        ensures
            r.health is None,
            r.renderer_snapshot is None,
    {
        match self {
            TerminalEntry::Running { .. } => TerminalEntrySnapshot { health: None, renderer_snapshot: None },
            TerminalEntry::Failed { .. } => TerminalEntrySnapshot { health: None, renderer_snapshot: None },
        }
    }

    pub fn weak_handle(&self) -> (r: TerminalEntryHandle)
        ensures
            r == TerminalEntryHandle::Inert,
    {
        TerminalEntryHandle::Inert
    }

    /// Input for an entry without a live terminal goes nowhere.
    pub fn send_input(&self, input: &[u8]) {
    }

    pub fn resize(&self, cols: u16, rows: u16) {
    }

    pub fn drain_notifications(&self) -> (r: Vec<TerminalNotification>)
        ensures
            r@.len() == 0,
    {
        Vec::new()
    }
}

impl TerminalEntryHandle {
    pub fn send_input(&self, input: &[u8]) {
    }

    pub fn resize(&self, cols: u16, rows: u16) {
    }
}

#[derive(Clone, Copy, Debug, PartialEq, Eq, Structural)]
pub enum TerminalRegistryError {
    AlreadyRegistered(SurfaceId),
}

/// The terminals of the application, one per surface id.
#[derive(Debug)]
pub struct TerminalRegistry {
    entries: Vec<TerminalEntry>,
}

pub open spec fn entry_key(e: TerminalEntry) -> u64 {
    e@.spec().surface_id.0
}

/// Entries in strictly increasing surface-id order (so no id occurs twice).
pub open spec fn sorted_by_key(s: Seq<TerminalEntry>) -> bool {
    forall|i: int, j: int| 0 <= i < j < s.len() ==> entry_key(#[trigger] s[i]) < entry_key(#[trigger] s[j])
}

pub open spec fn has_key(s: Seq<TerminalEntry>, k: u64) -> bool {
    exists|i: int| 0 <= i < s.len() && entry_key(s[i]) == k
}

/// The entries as a map from surface id.
pub open spec fn entries_map(s: Seq<TerminalEntry>) -> Map<u64, EntryView> {
    Map::new(
        |k: u64| has_key(s, k),
        |k: u64| s[choose|i: int| 0 <= i < s.len() && entry_key(s[i]) == k]@,
    )
}

proof fn lemma_map_at(s: Seq<TerminalEntry>, i: int)
    requires
        sorted_by_key(s),
        0 <= i < s.len(),
    ensures
        entries_map(s).dom().contains(entry_key(s[i])),
        entries_map(s)[entry_key(s[i])] == s[i]@,
{
    let k = entry_key(s[i]);
    assert(has_key(s, k));
    let c = choose|j: int| 0 <= j < s.len() && entry_key(s[j]) == k;
    if c != i {
        if c < i {
            assert(entry_key(s[c]) < entry_key(s[i]));
        } else {
            assert(entry_key(s[i]) < entry_key(s[c]));
        }
    }
}

proof fn lemma_map_same(s: Seq<TerminalEntry>, t: Seq<TerminalEntry>)
    requires
        sorted_by_key(s),
        sorted_by_key(t),
        forall|k: u64| has_key(s, k) <==> has_key(t, k),
        forall|i: int, j: int| 0 <= i < s.len() && 0 <= j < t.len() && entry_key(s[i]) == entry_key(t[j]) ==> s[i]@ == t[j]@,
    ensures
        entries_map(s) == entries_map(t),
{
    assert forall|k: u64| #[trigger] entries_map(s).dom().contains(k) implies entries_map(s)[k] == entries_map(t)[k] by {
        let i = choose|i: int| 0 <= i < s.len() && entry_key(s[i]) == k;
        let j = choose|j: int| 0 <= j < t.len() && entry_key(t[j]) == k;
        lemma_map_at(s, i);
        lemma_map_at(t, j);
    }
    assert(entries_map(s) =~= entries_map(t));
}

proof fn lemma_map_insert(s: Seq<TerminalEntry>, p: int, e: TerminalEntry)
    requires
        sorted_by_key(s),
        0 <= p <= s.len(),
        forall|i: int| 0 <= i < p ==> entry_key(#[trigger] s[i]) < entry_key(e),
        forall|i: int| p <= i < s.len() ==> entry_key(e) < entry_key(#[trigger] s[i]),
    ensures
        sorted_by_key(s.insert(p, e)),
        entries_map(s.insert(p, e)) == entries_map(s).insert(entry_key(e), e@),
{
    let t = s.insert(p, e);
    assert forall|i: int, j: int| 0 <= i < j < t.len() implies entry_key(#[trigger] t[i]) < entry_key(#[trigger] t[j]) by {
        if i < p && j < p {
        } else if i < p && j == p {
        } else if i < p {
            assert(t[j] == s[j - 1]);
        } else if i == p {
            assert(t[j] == s[j - 1]);
        } else {
            assert(t[i] == s[i - 1]);
            assert(t[j] == s[j - 1]);
        }
    }
    let m = entries_map(s).insert(entry_key(e), e@);
    assert forall|k: u64| #[trigger] entries_map(t).dom().contains(k) <==> m.dom().contains(k) by {
        if has_key(s, k) {
            let i = choose|i: int| 0 <= i < s.len() && entry_key(s[i]) == k;
            if i < p {
                assert(t[i] == s[i]);
            } else {
                assert(t[i + 1] == s[i]);
            }
        }
        if has_key(t, k) {
            let j = choose|j: int| 0 <= j < t.len() && entry_key(t[j]) == k;
            if j < p {
                assert(t[j] == s[j]);
            } else if j > p {
                assert(t[j] == s[j - 1]);
            }
        }
        if k == entry_key(e) {
            assert(t[p] == e);
        }
    }
    assert forall|k: u64| #[trigger] entries_map(t).dom().contains(k) implies entries_map(t)[k] == m[k] by {
        let j = choose|j: int| 0 <= j < t.len() && entry_key(t[j]) == k;
        lemma_map_at(t, j);
        if j < p {
            assert(t[j] == s[j]);
            lemma_map_at(s, j);
        } else if j > p {
            assert(t[j] == s[j - 1]);
            lemma_map_at(s, j - 1);
        } else {
            assert(t[j] == e);
        }
    }
    assert(entries_map(t) =~= m);
}

proof fn lemma_map_remove(s: Seq<TerminalEntry>, p: int)
    requires
        sorted_by_key(s),
        0 <= p < s.len(),
    ensures
        sorted_by_key(s.remove(p)),
        entries_map(s.remove(p)) == entries_map(s).remove(entry_key(s[p])),
{
    let t = s.remove(p);
    assert forall|i: int, j: int| 0 <= i < j < t.len() implies entry_key(#[trigger] t[i]) < entry_key(#[trigger] t[j]) by {
        if j < p {
        } else if i < p {
            assert(t[j] == s[j + 1]);
        } else {
            assert(t[i] == s[i + 1]);
            assert(t[j] == s[j + 1]);
        }
    }
    let kp = entry_key(s[p]);
    let m = entries_map(s).remove(kp);
    assert forall|k: u64| #[trigger] entries_map(t).dom().contains(k) <==> m.dom().contains(k) by {
        if has_key(t, k) {
            let j = choose|j: int| 0 <= j < t.len() && entry_key(t[j]) == k;
            if j < p {
                assert(t[j] == s[j]);
                assert(entry_key(s[j]) < kp);
            } else {
                assert(t[j] == s[j + 1]);
                assert(kp < entry_key(s[j + 1]));
            }
        }
        if has_key(s, k) && k != kp {
            let i = choose|i: int| 0 <= i < s.len() && entry_key(s[i]) == k;
            if i < p {
                assert(t[i] == s[i]);
            } else {
                assert(i != p);
                assert(t[i - 1] == s[i]);
            }
        }
    }
    assert forall|k: u64| #[trigger] entries_map(t).dom().contains(k) implies entries_map(t)[k] == m[k] by {
        let j = choose|j: int| 0 <= j < t.len() && entry_key(t[j]) == k;
        lemma_map_at(t, j);
        if j < p {
            assert(t[j] == s[j]);
            lemma_map_at(s, j);
        } else {
            assert(t[j] == s[j + 1]);
            lemma_map_at(s, j + 1);
        }
    }
    assert(entries_map(t) =~= m);
}

proof fn lemma_map_len(s: Seq<TerminalEntry>)
    requires
        sorted_by_key(s),
    ensures
        entries_map(s).dom().finite(),
        entries_map(s).dom().len() == s.len(),
    decreases s.len(),
{
    if s.len() == 0 {
        assert(entries_map(s).dom() =~= Set::<u64>::empty());
    } else {
        let t = s.drop_last();
        assert(sorted_by_key(t));
        lemma_map_len(t);
        let k = entry_key(s.last());
        assert forall|x: u64| #[trigger] entries_map(s).dom().contains(x) <==> entries_map(t).dom().insert(k).contains(x) by {
            if has_key(s, x) && x != k {
                let i = choose|i: int| 0 <= i < s.len() && entry_key(s[i]) == x;
                assert(i < s.len() - 1);
                assert(t[i] == s[i]);
            }
            if has_key(t, x) {
                let i = choose|i: int| 0 <= i < t.len() && entry_key(t[i]) == x;
                assert(t[i] == s[i]);
            }
            if x == k {
                assert(s[s.len() - 1] == s.last());
            }
        }
        assert(entries_map(s).dom() =~= entries_map(t).dom().insert(k));
        if has_key(t, k) {
            let i = choose|i: int| 0 <= i < t.len() && entry_key(t[i]) == k;
            assert(t[i] == s[i]);
            assert(entry_key(s[i]) < entry_key(s[s.len() - 1]));
        }
    }
}

impl View for TerminalRegistry {
    type V = Map<u64, EntryView>;

    /// The registered terminals, by surface id.
    closed spec fn view(&self) -> Map<u64, EntryView> {
        entries_map(self.entries@)
    }
}

impl TerminalRegistry {
    #[verifier::type_invariant]
    spec fn sorted(self) -> bool {
        sorted_by_key(self.entries@)
    }

    pub fn new() -> (r: Self)
        ensures
            r@ == Map::<u64, EntryView>::empty(),
            r@.dom().finite(),
    {
        let r = TerminalRegistry { entries: Vec::new() };
        assert(r@ =~= Map::<u64, EntryView>::empty());
        r
    }

    /// Index of the first entry whose id is at least `id`.
    fn position(&self, id: u64) -> (r: usize)
        ensures
            r <= self.entries.len(),
            forall|i: int| 0 <= i < r ==> entry_key(#[trigger] self.entries@[i]) < id,
            forall|i: int| r <= i < self.entries.len() ==> id <= entry_key(#[trigger] self.entries@[i]),
    {
        proof {
            use_type_invariant(self);
        }
        let mut i: usize = 0;
        while i < self.entries.len()
            invariant
                i <= self.entries.len(),
                sorted_by_key(self.entries@),
                forall|j: int| 0 <= j < i ==> entry_key(#[trigger] self.entries@[j]) < id,
            decreases self.entries.len() - i,
        {
            if self.entries[i].surface_id().0 >= id {
                assert forall|j: int| i <= j < self.entries.len() implies id <= entry_key(#[trigger] self.entries@[j]) by {
                    if j > i {
                        assert(entry_key(self.entries@[i as int]) < entry_key(self.entries@[j]));
                    }
                }
                return i;
            }
            i = i + 1;
        }
        i
    }

    /// Registers the terminal of `spec` as running, as when its start went through; refused
    /// when its surface already has one. Where a process is started, `spawn_with_outcome`
    /// records how the start went.
    pub fn spawn(&mut self, spec: TerminalSpawnSpec) -> (r: Result<(), TerminalRegistryError>)
        ensures
            old(self)@.dom().contains(spec.surface_id.0) ==> r == Err::<(), TerminalRegistryError>(
                TerminalRegistryError::AlreadyRegistered(spec.surface_id),
            ) && final(self)@ == old(self)@,
            !old(self)@.dom().contains(spec.surface_id.0) ==> r is Ok && final(self)@
                == old(self)@.insert(spec.surface_id.0, EntryView::Running(spec@)),
            old(self)@.dom().finite(),
            final(self)@.dom().finite(),
    {
        self.spawn_with_outcome(spec, Ok(()))
    }

    /// Registers the terminal for `spec` as its start turned out: running when it started,
    /// failed with the start's error message when it did not; refused when the surface already
    /// has a terminal.
    pub fn spawn_with_outcome(&mut self, spec: TerminalSpawnSpec, outcome: Result<(), String>) -> (r: Result<
        (),
        TerminalRegistryError,
    >)
        ensures
            old(self)@.dom().contains(spec.surface_id.0) ==> r == Err::<(), TerminalRegistryError>(
                TerminalRegistryError::AlreadyRegistered(spec.surface_id),
            ) && final(self)@ == old(self)@,
            !old(self)@.dom().contains(spec.surface_id.0) ==> r is Ok && final(self)@
                == old(self)@.insert(spec.surface_id.0, spawned_entry(spec@, outcome_view(outcome))),
            old(self)@.dom().finite(),
            final(self)@.dom().finite(),
    {
        proof {
            use_type_invariant(&*self);
            lemma_map_len(self.entries@);
        }
        let id = spec.surface_id;
        let p = self.position(id.0);
        if p < self.entries.len() && self.entries[p].surface_id().0 == id.0 {
            proof {
                lemma_map_at(self.entries@, p as int);
            }
            return Err(TerminalRegistryError::AlreadyRegistered(id));
        }
        let entry = TerminalEntry::from_spawn_outcome(spec, outcome);
        let ghost s = self.entries@;
        proof {
            assert forall|i: int| p <= i < s.len() implies entry_key(entry) < entry_key(#[trigger] s[i]) by {
                if i > p {
                    assert(entry_key(s[p as int]) < entry_key(s[i]));
                }
            }
            lemma_map_insert(s, p as int, entry);
            if has_key(s, id.0) {
                let i = choose|i: int| 0 <= i < s.len() && entry_key(s[i]) == id.0;
                assert(false);
            }
        }
        let mut entries: Vec<TerminalEntry> = Vec::new();
        std::mem::swap(&mut entries, &mut self.entries);
        entries.insert(p, entry);
        self.entries = entries;
        Ok(())
    }

    /// Takes out the entry of `surface_id`, if there is one.
    pub fn remove(&mut self, surface_id: SurfaceId) -> (r: Option<TerminalEntry>)
        ensures
            final(self)@ == old(self)@.remove(surface_id.0),
            match r {
                Some(e) => old(self)@.dom().contains(surface_id.0) && e@ == old(self)@[surface_id.0],
                None => !old(self)@.dom().contains(surface_id.0),
            },
            old(self)@.dom().finite(),
            final(self)@.dom().finite(),
    {
        proof {
            use_type_invariant(&*self);
            lemma_map_len(self.entries@);
        }
        let p = self.position(surface_id.0);
        let ghost s = self.entries@;
        if p < self.entries.len() && self.entries[p].surface_id().0 == surface_id.0 {
            proof {
                lemma_map_at(s, p as int);
                lemma_map_remove(s, p as int);
            }
            let mut entries: Vec<TerminalEntry> = Vec::new();
            std::mem::swap(&mut entries, &mut self.entries);
            let e = entries.remove(p);
            self.entries = entries;
            Some(e)
        } else {
            proof {
                if has_key(s, surface_id.0) {
                    let i = choose|i: int| 0 <= i < s.len() && entry_key(s[i]) == surface_id.0;
                    if i > p {
                        assert(entry_key(s[p as int]) < entry_key(s[i]));
                    }
                }
                assert(entries_map(s).remove(surface_id.0) =~= entries_map(s));
            }
            None
        }
    }

    pub fn contains(&self, surface_id: SurfaceId) -> (r: bool)
        ensures
            r == self@.dom().contains(surface_id.0),
            self@.dom().finite(),
    {
        match self.entry(surface_id) {
            Some(_) => true,
            None => false,
        }
    }

    pub fn len(&self) -> (r: usize)
        ensures
            r == self@.dom().len(),
            self@.dom().finite(),
    {
        proof {
            use_type_invariant(self);
            lemma_map_len(self.entries@);
        }
        self.entries.len()
    }

    pub fn is_empty(&self) -> (r: bool)
        ensures
            r == (self@.dom().len() == 0),
            r == (self@.dom() == Set::<u64>::empty()),
            self@.dom().finite(),
    {
        let n: usize = self.len();
        proof {
            vstd::set_lib::lemma_set_empty_equivalency_len(self@.dom());
        }
        n == 0
    }

    pub fn entry(&self, surface_id: SurfaceId) -> (r: Option<&TerminalEntry>)
        ensures
            match r {
                Some(e) => self@.dom().contains(surface_id.0) && e@ == self@[surface_id.0],
                None => !self@.dom().contains(surface_id.0),
            },
            self@.dom().finite(),
    {
        proof {
            use_type_invariant(self);
            lemma_map_len(self.entries@);
        }
        let p = self.position(surface_id.0);
        let ghost s = self.entries@;
        if p < self.entries.len() && self.entries[p].surface_id().0 == surface_id.0 {
            proof {
                lemma_map_at(s, p as int);
            }
            Some(&self.entries[p])
        } else {
            proof {
                if has_key(s, surface_id.0) {
                    let i = choose|i: int| 0 <= i < s.len() && entry_key(s[i]) == surface_id.0;
                    if i > p {
                        assert(entry_key(s[p as int]) < entry_key(s[i]));
                    }
                }
            }
            None
        }
    }

    /// The registered surface ids, in increasing order.
    pub fn running_surface_ids(&self) -> (r: Vec<SurfaceId>)
        ensures
            forall|i: int, j: int| 0 <= i < j < r.len() ==> (#[trigger] r@[i]).0 < (#[trigger] r@[j]).0,
            forall|k: u64| self@.dom().contains(k) <==> exists|i: int| 0 <= i < r.len() && (#[trigger] r@[i]).0 == k,
            r.len() == self@.dom().len(),
            self@.dom().finite(),
    {
        proof {
            use_type_invariant(self);
            lemma_map_len(self.entries@);
        }
        let ghost s = self.entries@;
        let mut out: Vec<SurfaceId> = Vec::new();
        let mut i: usize = 0;
        while i < self.entries.len()
            invariant
                i <= self.entries.len(),
                s == self.entries@,
                out.len() == i,
                forall|j: int| 0 <= j < i ==> (#[trigger] out@[j]).0 == entry_key(s[j]),
            decreases self.entries.len() - i,
        {
            out.push(self.entries[i].surface_id());
            i = i + 1;
        }
        assert forall|k: u64| self@.dom().contains(k) <==> exists|i: int| 0 <= i < out.len() && (#[trigger] out@[i]).0 == k by {
            if has_key(s, k) {
                let i = choose|i: int| 0 <= i < s.len() && entry_key(s[i]) == k;
                assert(out@[i].0 == k);
            }
            if exists|i: int| 0 <= i < out.len() && (#[trigger] out@[i]).0 == k {
                let i = choose|i: int| 0 <= i < out.len() && (#[trigger] out@[i]).0 == k;
                assert(entry_key(s[i]) == k);
            }
        }
        out
    }
}

impl Clone for TerminalRegistry {
    fn clone(&self) -> (r: Self)
        ensures
            r@ == self@,
    {
        proof {
            use_type_invariant(self);
        }
        let ghost s = self.entries@;
        let mut out: Vec<TerminalEntry> = Vec::new();
        let mut i: usize = 0;
        while i < self.entries.len()
            invariant
                i <= self.entries.len(),
                s == self.entries@,
                out.len() == i,
                forall|j: int| 0 <= j < i ==> (#[trigger] out@[j])@ == s[j]@,
            decreases self.entries.len() - i,
        {
            out.push(self.entries[i].clone());
            i = i + 1;
        }
        proof {
            assert(sorted_by_key(out@));
            assert forall|k: u64| has_key(s, k) <==> has_key(out@, k) by {
                if has_key(s, k) {
                    let i = choose|i: int| 0 <= i < s.len() && entry_key(s[i]) == k;
                    assert(entry_key(out@[i]) == k);
                }
                if has_key(out@, k) {
                    let i = choose|i: int| 0 <= i < out.len() && entry_key(out@[i]) == k;
                    assert(entry_key(s[i]) == k);
                }
            }
            assert forall|i: int, j: int|
                0 <= i < s.len() && 0 <= j < out.len() && entry_key(s[i]) == entry_key(out@[j]) implies s[i]@
                == out@[j]@ by {
                if i < j {
                    assert(entry_key(s[i]) < entry_key(s[j]));
                } else if j < i {
                    assert(entry_key(s[j]) < entry_key(s[i]));
                }
            }
            lemma_map_same(s, out@);
        }
        TerminalRegistry { entries: out }
    }
}

impl Default for TerminalRegistry {
    fn default() -> (r: Self)
        ensures
            r@ == Map::<u64, EntryView>::empty(),
    {
        TerminalRegistry::new()
    }
}

/// Registering a terminal for a surface that had none and then removing it gives back the
/// registry as it was.
pub proof fn law_spawn_then_remove(reg: Map<u64, EntryView>, spec: SpawnSpecView)
    requires
        !reg.dom().contains(spec.surface_id.0),
    ensures
        reg.insert(spec.surface_id.0, EntryView::Running(spec)).remove(spec.surface_id.0) == reg,
{
    assert(reg.insert(spec.surface_id.0, EntryView::Running(spec)).remove(spec.surface_id.0) =~= reg);
}


} // verus!
