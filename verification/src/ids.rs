use vstd::prelude::*;

verus! {

/// Identifier of a top-level window.
#[derive(Clone, Copy, Debug, PartialEq, Eq, Hash, PartialOrd, Ord, Structural)]
pub struct WindowId(pub u64);

/// Identifier of a workspace inside a window.
#[derive(Clone, Copy, Debug, PartialEq, Eq, Hash, PartialOrd, Ord, Structural)]
pub struct WorkspaceId(pub u64);

/// Identifier of a pane inside a workspace.
#[derive(Clone, Copy, Debug, PartialEq, Eq, Hash, PartialOrd, Ord, Structural)]
pub struct PaneId(pub u64);

/// Identifier of a surface (terminal or browser tab) inside a pane.
#[derive(Clone, Copy, Debug, PartialEq, Eq, Hash, PartialOrd, Ord, Structural)]
pub struct SurfaceId(pub u64);

/// Hands out fresh identifiers. Its view is the last identifier issued;
/// every call to one of the `next_*` methods returns one more than that.
#[derive(Clone, Copy, Debug, PartialEq, Eq, Structural)]
pub struct IdGen {
    next_id: u64,
}

impl View for IdGen {
    type V = u64;

    closed spec fn view(&self) -> u64 {
        self.next_id
    }
}

impl IdGen {
    pub fn new() -> (ids: Self)
        ensures
            ids@ == 0,
    {
        IdGen { next_id: 0 }
    }

    /// Treats `next_id` as the last identifier already issued.
    pub fn from_next_id(next_id: u64) -> (ids: Self)
        ensures
            ids@ == next_id,
    {
        IdGen { next_id }
    }

    /// Makes sure no later identifier is `<= id`; never moves the counter back.
    pub fn advance_past(&mut self, id: u64)
        ensures
            final(self)@ == if old(self)@ >= id { old(self)@ } else { id },
    {
        if self.next_id < id {
            self.next_id = id;
        }
    }

    fn next(&mut self) -> (id: u64)
        requires
            old(self)@ < u64::MAX,
        ensures
            id == old(self)@ + 1,
            final(self)@ == id,
    {
        self.next_id = self.next_id + 1;
        self.next_id
    }

    pub fn next_window(&mut self) -> (id: WindowId)
        requires
            old(self)@ < u64::MAX,
        ensures
            id.0 == old(self)@ + 1,
            final(self)@ == id.0,
    {
        WindowId(self.next())
    }

    pub fn next_workspace(&mut self) -> (id: WorkspaceId)
        requires
            old(self)@ < u64::MAX,
        ensures
            id.0 == old(self)@ + 1,
            final(self)@ == id.0,
    {
        WorkspaceId(self.next())
    }

    pub fn next_pane(&mut self) -> (id: PaneId)
        requires
            old(self)@ < u64::MAX,
        ensures
            id.0 == old(self)@ + 1,
            final(self)@ == id.0,
    {
        PaneId(self.next())
    }

    pub fn next_surface(&mut self) -> (id: SurfaceId)
        requires
            old(self)@ < u64::MAX,
        ensures
            id.0 == old(self)@ + 1,
            final(self)@ == id.0,
    {
        SurfaceId(self.next())
    }
}

/// The counter after a run of calls on a generator whose last issued identifier was `start`:
/// `None` stands for a call of one of the `next_*` methods, `Some(id)` for `advance_past(id)`.
pub open spec fn counter_after(start: u64, calls: Seq<Option<u64>>) -> u64
    decreases calls.len(),
{
    if calls.len() == 0 {
        start
    } else {
        let before = counter_after(start, calls.drop_last());
        match calls.last() {
            None => (before + 1) as u64,
            Some(id) => if before >= id { before } else { id },
        }
    }
}

/// The identifiers a run of calls hands out, in the order they are issued.
pub open spec fn ids_issued(start: u64, calls: Seq<Option<u64>>) -> Seq<u64>
    decreases calls.len(),
{
    if calls.len() == 0 {
        Seq::empty()
    } else {
        let before = ids_issued(start, calls.drop_last());
        match calls.last() {
            None => before.push((counter_after(start, calls.drop_last()) + 1) as u64),
            Some(_) => before,
        }
    }
}

/// Every `next_*` call of the run finds the counter below `u64::MAX`, as those methods require.
pub open spec fn calls_fit(start: u64, calls: Seq<Option<u64>>) -> bool {
    forall|i: int| 0 <= i < calls.len() && #[trigger] calls[i] is None ==> counter_after(start, calls.take(i)) < u64::MAX
}

/// Identifiers come out strictly increasing: over any run of `next_window`, `next_workspace`,
/// `next_pane`, `next_surface` and `advance_past` calls, each identifier issued is greater than
/// every one issued before it and than the last one issued before the run, and is at most the
/// counter at the end; a run that starts with a `next_*` call on a fresh generator issues 1 first.
pub proof fn law_ids_strictly_increase(start: u64, calls: Seq<Option<u64>>)
    requires
        calls_fit(start, calls),
    ensures
        forall|i: int, j: int| 0 <= i < j < ids_issued(start, calls).len() ==> ids_issued(start, calls)[i] < ids_issued(start, calls)[j],
        forall|i: int| 0 <= i < ids_issued(start, calls).len() ==> start < #[trigger] ids_issued(start, calls)[i] <= counter_after(start, calls),
        start <= counter_after(start, calls),
        calls.len() > 0 && calls[0] is None ==> ids_issued(start, calls).len() > 0 && ids_issued(start, calls)[0] == start + 1,
    decreases calls.len(),
{
    if calls.len() > 0 {
        let pre = calls.drop_last();
        assert forall|i: int| 0 <= i < pre.len() && #[trigger] pre[i] is None implies counter_after(start, pre.take(i)) < u64::MAX by {
            assert(calls[i] is None);
            assert(pre.take(i) =~= calls.take(i));
        }
        law_ids_strictly_increase(start, pre);
        let n = calls.len() - 1;
        assert(pre =~= calls.take(n));
        if calls.last() is None {
            assert(calls[n] is None);
            assert(counter_after(start, pre) < u64::MAX);
        }
        if calls[0] is None && pre.len() == 0 {
            assert(calls.last() == calls[0]);
        }
        if calls[0] is None && pre.len() > 0 {
            assert(pre[0] == calls[0]);
        }
    }
}

} // verus!
