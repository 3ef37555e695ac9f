//! Stateful assisted-tiling coordinator built on the window-manager and
//! workspace contracts: per-workspace layouts, slot assignments, tile-fit,
//! snapping and release back to floating.

use crate::backend_api::BackendError;
use crate::snap::{SnapIntent, SnapTarget};
use crate::tiling_layout::{fit_slot, fit_slot_spec, LayoutError, LayoutSpec, NormalizedRect, OutputArea, OutputId};
use crate::wm::{
    BackendCommandSink, Geometry, PresentationState, SizeConstraints, WindowId, WindowPlacement, WmCommand,
};
use crate::wm_manager::{WindowManager, WmError};
use crate::workspace_types::WorkspaceId;
use crate::workspaces::{is_tracked, owner, WorkspaceManager};
use vstd::prelude::*;

verus! {

/// Stable action identifier consumed by the shortcuts core.
pub const TILE_FIT_ACTION_ID: &'static str = "nexxus.tiling.tile-fit";

/// Approved default binding of the tile-fit action.
pub const DEFAULT_TILE_FIT_SHORTCUT: &'static str = "Super+T";

#[derive(Clone, Copy, Debug, PartialEq, Eq, Structural)]
pub enum TilingAction {
    TileFit,
}

/// How a tiled window reached its current target.
#[derive(Clone, Copy, Debug, PartialEq, Eq, Structural)]
pub enum TileTarget {
    LayoutSlot(usize),
    Snap(SnapTarget),
}

/// Binds one window to one output target; a workspace itself is never bound
/// to an output.
#[derive(Clone, Copy, Debug, PartialEq, Eq, Structural)]
pub struct Assignment {
    pub workspace: WorkspaceId,
    pub output: OutputId,
    pub target: TileTarget,
}

/// The record of a sink after `cmds` were handed to it in order, stopping at
/// the first refusal: at least the first command was handed, each handed
/// command but the last was accepted, and the result is success when every
/// command was accepted, else the refusal as a window-manager error.
pub open spec fn handed_in_order(
    before: Seq<(WmCommand, Result<(), BackendError>)>,
    after: Seq<(WmCommand, Result<(), BackendError>)>,
    cmds: Seq<WmCommand>,
    r: Result<(), TilingError>,
) -> bool {
    let n = before.len();
    &&& n < after.len() <= n + cmds.len()
    &&& after.subrange(0, n as int) == before
    &&& forall|q: int| n <= q < after.len() ==> (#[trigger] after[q]).0 == cmds[q - n]
    &&& forall|q: int| n <= q < after.len() - 1 ==> (#[trigger] after[q]).1 is Ok
    &&& match after.last().1 {
        Ok(()) => after.len() == n + cmds.len() && r is Ok,
        Err(e) => r == Err::<(), TilingError>(TilingError::WindowManager(WmError::Backend(e))),
    }
}

/// Geometry and backend commands produced by one tile operation.
#[derive(Clone, Copy, Debug, PartialEq, Eq)]
pub struct TilePlan {
    pub window: WindowId,
    pub workspace: WorkspaceId,
    pub output: OutputId,
    pub target: TileTarget,
    pub geometry: Geometry,
    pub commands: [WmCommand; 2],
}

impl TilePlan {
    pub fn commands(&self) -> (r: &[WmCommand; 2])
        ensures
            r == &self.commands,
    {
        &self.commands
    }
}

/// Geometry and commands produced when a tiled window returns to floating.
#[derive(Clone, Copy, Debug, PartialEq, Eq)]
pub struct UntilePlan {
    pub window: WindowId,
    pub geometry: Geometry,
    pub commands: [WmCommand; 2],
}

impl UntilePlan {
    pub fn commands(&self) -> (r: &[WmCommand; 2])
        ensures
            r == &self.commands,
    {
        &self.commands
    }
}

/// Observable hooks for UI, diagnostics and later integration.
#[derive(Clone, Copy, Debug, PartialEq, Eq, Structural)]
pub enum TilingEvent {
    LayoutChanged { workspace: WorkspaceId },
    Tiled {
        window: WindowId,
        workspace: WorkspaceId,
        output: OutputId,
        target: TileTarget,
        geometry: Geometry,
    },
    Released { window: WindowId, geometry: Geometry },
    LayoutChoicesRequested { workspace: WorkspaceId, output: OutputId },
}

#[derive(Debug)]
pub enum TilingError {
    UnknownWindow(WindowId),
    WorkspaceMismatch { window: WindowId, requested: WorkspaceId, actual: Option<WorkspaceId> },
    NoAvailableSlot { workspace: WorkspaceId, output: OutputId },
    NotTiled(WindowId),
    Layout(LayoutError),
    WindowManager(WmError),
}

/// The keys of a sequence of pairs are pairwise distinct.
pub open spec fn distinct_keys<K, V>(s: Seq<(K, V)>) -> bool {
    forall|i: int, j: int| 0 <= i < s.len() && 0 <= j < s.len() && i != j ==> s[i].0 != s[j].0
}

/// The map a sequence of pairs with distinct keys stands for.
pub open spec fn pairs_map<K, V>(s: Seq<(K, V)>) -> Map<K, V> {
    Map::new(
        |k: K| exists|i: int| 0 <= i < s.len() && (#[trigger] s[i]).0 == k,
        |k: K| s[choose|i: int| 0 <= i < s.len() && (#[trigger] s[i]).0 == k].1,
    )
}

proof fn lemma_pairs_at<K, V>(s: Seq<(K, V)>, i: int)
    requires
        distinct_keys(s),
        0 <= i < s.len(),
    ensures
        pairs_map(s).dom().contains(s[i].0),
        pairs_map(s)[s[i].0] == s[i].1,
{
    let k = s[i].0;
    assert(s[i].0 == k);
    let j = choose|j: int| 0 <= j < s.len() && (#[trigger] s[j]).0 == k;
    assert(j == i);
}

proof fn lemma_pairs_update<K, V>(s: Seq<(K, V)>, i: int, v: V)
    requires
        distinct_keys(s),
        0 <= i < s.len(),
    ensures
        distinct_keys(s.update(i, (s[i].0, v))),
        pairs_map(s.update(i, (s[i].0, v))) == pairs_map(s).insert(s[i].0, v),
{
    let t = s.update(i, (s[i].0, v));
    assert(distinct_keys(t)) by {
        assert forall|a: int, b: int| 0 <= a < t.len() && 0 <= b < t.len() && a != b implies t[a].0 != t[b].0 by {
            assert(t[a].0 == s[a].0 && t[b].0 == s[b].0);
        }
    }
    assert forall|k: K| pairs_map(t).dom().contains(k) <==> pairs_map(s).insert(s[i].0, v).dom().contains(k) by {
        if pairs_map(s).dom().contains(k) {
            let j = choose|j: int| 0 <= j < s.len() && (#[trigger] s[j]).0 == k;
            assert(t[j].0 == k);
        }
        if pairs_map(t).dom().contains(k) {
            let j = choose|j: int| 0 <= j < t.len() && (#[trigger] t[j]).0 == k;
            assert(s[j].0 == k);
        }
        assert(t[i].0 == s[i].0);
    }
    assert forall|k: K| #[trigger] pairs_map(t).dom().contains(k) implies pairs_map(t)[k] == pairs_map(s).insert(s[i].0, v)[k] by {
        let j = choose|j: int| 0 <= j < t.len() && (#[trigger] t[j]).0 == k;
        lemma_pairs_at(t, j);
        if j != i {
            assert(t[j] == s[j]);
            lemma_pairs_at(s, j);
        }
    }
    assert(pairs_map(t) =~= pairs_map(s).insert(s[i].0, v));
}

proof fn lemma_pairs_push<K, V>(s: Seq<(K, V)>, k: K, v: V)
    requires
        distinct_keys(s),
        !pairs_map(s).dom().contains(k),
    ensures
        distinct_keys(s.push((k, v))),
        pairs_map(s.push((k, v))) == pairs_map(s).insert(k, v),
{
    let t = s.push((k, v));
    assert(distinct_keys(t)) by {
        assert forall|a: int, b: int| 0 <= a < t.len() && 0 <= b < t.len() && a != b implies t[a].0 != t[b].0 by {
            if a < s.len() && b < s.len() {
                assert(t[a] == s[a] && t[b] == s[b]);
            } else if a < s.len() {
                assert(t[a] == s[a]);
                assert(s[a].0 == s[a].0);
            } else {
                assert(t[b] == s[b]);
                assert(s[b].0 == s[b].0);
            }
        }
    }
    assert forall|x: K| pairs_map(t).dom().contains(x) <==> pairs_map(s).insert(k, v).dom().contains(x) by {
        if pairs_map(s).dom().contains(x) {
            let j = choose|j: int| 0 <= j < s.len() && (#[trigger] s[j]).0 == x;
            assert(t[j].0 == x);
        }
        if pairs_map(t).dom().contains(x) {
            let j = choose|j: int| 0 <= j < t.len() && (#[trigger] t[j]).0 == x;
            if j < s.len() {
                assert(s[j].0 == x);
            }
        }
        assert(t[s.len() as int].0 == k);
    }
    assert forall|x: K| #[trigger] pairs_map(t).dom().contains(x) implies pairs_map(t)[x] == pairs_map(s).insert(k, v)[x] by {
        let j = choose|j: int| 0 <= j < t.len() && (#[trigger] t[j]).0 == x;
        lemma_pairs_at(t, j);
        if j < s.len() {
            assert(t[j] == s[j]);
            lemma_pairs_at(s, j);
        }
    }
    assert(pairs_map(t) =~= pairs_map(s).insert(k, v));
}

proof fn lemma_pairs_remove<K, V>(s: Seq<(K, V)>, i: int)
    requires
        distinct_keys(s),
        0 <= i < s.len(),
    ensures
        distinct_keys(s.remove(i)),
        pairs_map(s.remove(i)) == pairs_map(s).remove(s[i].0),
{
    let t = s.remove(i);
    let k = s[i].0;
    assert(distinct_keys(t)) by {
        assert forall|a: int, b: int| 0 <= a < t.len() && 0 <= b < t.len() && a != b implies t[a].0 != t[b].0 by {
            let a1 = if a < i { a } else { a + 1 };
            let b1 = if b < i { b } else { b + 1 };
            assert(t[a] == s[a1] && t[b] == s[b1]);
        }
    }
    assert forall|x: K| pairs_map(t).dom().contains(x) <==> pairs_map(s).remove(k).dom().contains(x) by {
        if pairs_map(s).dom().contains(x) && x != k {
            let j = choose|j: int| 0 <= j < s.len() && (#[trigger] s[j]).0 == x;
            if j < i {
                assert(t[j].0 == x);
            } else {
                assert(j != i);
                assert(t[j - 1].0 == x);
            }
        }
        if pairs_map(t).dom().contains(x) {
            let j = choose|j: int| 0 <= j < t.len() && (#[trigger] t[j]).0 == x;
            let j1 = if j < i { j } else { j + 1 };
            assert(s[j1].0 == x);
            assert(j1 != i);
        }
    }
    assert forall|x: K| #[trigger] pairs_map(t).dom().contains(x) implies pairs_map(t)[x] == pairs_map(s).remove(k)[x] by {
        let j = choose|j: int| 0 <= j < t.len() && (#[trigger] t[j]).0 == x;
        lemma_pairs_at(t, j);
        let j1 = if j < i { j } else { j + 1 };
        assert(t[j] == s[j1]);
        lemma_pairs_at(s, j1);
    }
    assert(pairs_map(t) =~= pairs_map(s).remove(k));
}

/// An assignment that a layout change for `workspace` drops: a layout slot of
/// that workspace, at or past `limit` when there is one.
pub open spec fn dropped(a: Assignment, workspace: WorkspaceId, limit: Option<usize>) -> bool {
    a.workspace == workspace && match a.target {
        TileTarget::LayoutSlot(slot) => match limit {
            Some(n) => slot >= n,
            None => true,
        },
        TileTarget::Snap(_) => false,
    }
}

/// Owns per-workspace layouts and the runtime tile assignments.
pub struct TilingEngine {
    default_layout: LayoutSpec,
    layouts: Vec<(WorkspaceId, LayoutSpec)>,
    assignments: Vec<(WindowId, Assignment)>,
    events: Vec<TilingEvent>,
}

impl TilingEngine {
    /// The fallback layout's slots.
    pub closed spec fn default_slots(&self) -> Seq<NormalizedRect> {
        self.default_layout.spec_slots()
    }

    /// The explicit layouts, by workspace.
    pub closed spec fn layout_map(&self) -> Map<WorkspaceId, Seq<NormalizedRect>> {
        pairs_map(self.layouts@).map_values(|l: LayoutSpec| l.spec_slots())
    }

    /// The slots a workspace tiles into.
    pub open spec fn slots_for(&self, workspace: WorkspaceId) -> Seq<NormalizedRect> {
        if self.layout_map().dom().contains(workspace) {
            self.layout_map()[workspace]
        } else {
            self.default_slots()
        }
    }

    /// The tile assignments, by window.
    pub closed spec fn assignment_map(&self) -> Map<WindowId, Assignment> {
        pairs_map(self.assignments@)
    }

    /// Events not yet drained, oldest first.
    pub closed spec fn pending(&self) -> Seq<TilingEvent> {
        self.events@
    }

    pub closed spec fn wf(&self) -> bool {
        &&& distinct_keys(self.layouts@)
        &&& distinct_keys(self.assignments@)
    }

    /// A neutral two-column fallback and nothing else.
    pub fn new() -> (r: Self)
        ensures
            r.wf(),
            r.default_slots() == Seq::new(2, |c: int| crate::tiling_layout::column_slot(2, c)),
            r.layout_map() == Map::<WorkspaceId, Seq<NormalizedRect>>::empty(),
            r.assignment_map() == Map::<WindowId, Assignment>::empty(),
            r.pending().len() == 0,
    {
        let default_layout = LayoutSpec::balanced_columns(2).unwrap();
        let r = TilingEngine {
            default_layout,
            layouts: Vec::new(),
            assignments: Vec::new(),
            events: Vec::new(),
        };
        proof {
            assert(pairs_map(r.layouts@) =~= Map::<WorkspaceId, LayoutSpec>::empty());
            assert(r.layout_map() =~= Map::<WorkspaceId, Seq<NormalizedRect>>::empty());
            assert(r.assignment_map() =~= Map::<WindowId, Assignment>::empty());
        }
        r
    }

    /// Replaces the fallback used by workspaces without an explicit layout.
    pub fn set_default_layout(&mut self, layout: LayoutSpec)
        requires
            old(self).wf(),
        ensures
            final(self).wf(),
            final(self).default_slots() == layout.spec_slots(),
            final(self).layout_map() == old(self).layout_map(),
            final(self).assignment_map() == old(self).assignment_map(),
            final(self).pending() == old(self).pending(),
    {
        self.default_layout = layout;
    }

    fn layout_index(&self, workspace: WorkspaceId) -> (r: Option<usize>)
        requires
            self.wf(),
        ensures
            r is None <==> !pairs_map(self.layouts@).dom().contains(workspace),
            r matches Some(i) ==> i < self.layouts@.len() && self.layouts@[i as int].0 == workspace,
    {
        let mut i: usize = 0;
        while i < self.layouts.len()
            invariant
                i <= self.layouts@.len(),
                forall|k: int| 0 <= k < i ==> (#[trigger] self.layouts@[k]).0 != workspace,
            decreases self.layouts@.len() - i,
        {
            if self.layouts[i].0 == workspace {
                return Some(i);
            }
            i = i + 1;
        }
        None
    }

    fn assignment_index(&self, window: WindowId) -> (r: Option<usize>)
        requires
            self.wf(),
        ensures
            r is None <==> !self.assignment_map().dom().contains(window),
            r matches Some(i) ==> i < self.assignments@.len() && self.assignments@[i as int].0 == window,
    {
        let mut i: usize = 0;
        while i < self.assignments.len()
            invariant
                i <= self.assignments@.len(),
                forall|k: int| 0 <= k < i ==> (#[trigger] self.assignments@[k]).0 != window,
            decreases self.assignments@.len() - i,
        {
            if self.assignments[i].0 == window {
                return Some(i);
            }
            i = i + 1;
        }
        None
    }

    /// Drops the assignments a layout change for `workspace` invalidates.
    fn retain_assignments(&mut self, workspace: WorkspaceId, limit: Option<usize>)
        requires
            old(self).wf(),
        ensures
            final(self).wf(),
            final(self).assignment_map() == old(self).assignment_map().restrict(
                old(self).assignment_map().dom().filter(
                    |w: WindowId| !dropped(old(self).assignment_map()[w], workspace, limit),
                ),
            ),
            final(self).default_slots() == old(self).default_slots(),
            final(self).layout_map() == old(self).layout_map(),
            final(self).pending() == old(self).pending(),
    {
        let ghost before = self.assignments@;
        let mut kept: Vec<(WindowId, Assignment)> = Vec::new();
        let mut i: usize = 0;
        while i < self.assignments.len()
            invariant
                self.assignments@ == before,
                distinct_keys(before),
                i <= before.len(),
                distinct_keys(kept@),
                forall|q: int| 0 <= q < kept@.len() ==> exists|j: int| 0 <= j < i && before[j] == #[trigger] kept@[q],
                forall|j: int| 0 <= j < i && !dropped(before[j].1, workspace, limit) ==> exists|q: int| 0 <= q < kept@.len() && #[trigger] kept@[q] == before[j],
                forall|q: int| 0 <= q < kept@.len() ==> !dropped((#[trigger] kept@[q]).1, workspace, limit),
            decreases before.len() - i,
        {
            let entry = self.assignments[i];
            let drop = entry.1.workspace == workspace && match entry.1.target {
                TileTarget::LayoutSlot(slot) => match limit {
                    Some(n) => slot >= n,
                    None => true,
                },
                TileTarget::Snap(_) => false,
            };
            if !drop {
                let ghost k0 = kept@;
                kept.push(entry);
                proof {
                    assert forall|a: int, b: int| 0 <= a < kept@.len() && 0 <= b < kept@.len() && a != b implies kept@[a].0 != kept@[b].0 by {
                        if a < k0.len() && b < k0.len() {
                            assert(kept@[a] == k0[a] && kept@[b] == k0[b]);
                        } else if a < k0.len() {
                            assert(kept@[a] == k0[a]);
                            let j = choose|j: int| 0 <= j < i && before[j] == #[trigger] k0[a];
                            assert(before[j].0 != before[i as int].0);
                        } else {
                            assert(kept@[b] == k0[b]);
                            let j = choose|j: int| 0 <= j < i && before[j] == #[trigger] k0[b];
                            assert(before[j].0 != before[i as int].0);
                        }
                    }
                    assert forall|q: int| 0 <= q < kept@.len() implies exists|j: int| 0 <= j < i + 1 && before[j] == #[trigger] kept@[q] by {
                        if q < k0.len() {
                            assert(kept@[q] == k0[q]);
                        } else {
                            assert(before[i as int] == kept@[q]);
                        }
                    }
                    assert forall|j: int| 0 <= j < i + 1 && !dropped(before[j].1, workspace, limit) implies exists|q: int| 0 <= q < kept@.len() && #[trigger] kept@[q] == before[j] by {
                        if j < i {
                            let q = choose|q: int| 0 <= q < k0.len() && #[trigger] k0[q] == before[j];
                            assert(kept@[q] == k0[q]);
                        } else {
                            assert(kept@[k0.len() as int] == before[j]);
                        }
                    }
                    assert forall|q: int| 0 <= q < kept@.len() implies !dropped((#[trigger] kept@[q]).1, workspace, limit) by {
                        if q < k0.len() {
                            assert(kept@[q] == k0[q]);
                        }
                    }
                }
            }
            i = i + 1;
        }
        let ghost old_map = pairs_map(before);
        self.assignments = kept;
        proof {
            let t = self.assignments@;
            let want = old_map.restrict(old_map.dom().filter(|w: WindowId| !dropped(old_map[w], workspace, limit)));
            assert forall|w: WindowId| pairs_map(t).dom().contains(w) <==> want.dom().contains(w) by {
                if pairs_map(t).dom().contains(w) {
                    let q = choose|q: int| 0 <= q < t.len() && (#[trigger] t[q]).0 == w;
                    let j = choose|j: int| 0 <= j < before.len() && before[j] == #[trigger] t[q];
                    lemma_pairs_at(before, j);
                }
                if want.dom().contains(w) {
                    let j = choose|j: int| 0 <= j < before.len() && (#[trigger] before[j]).0 == w;
                    lemma_pairs_at(before, j);
                    let q = choose|q: int| 0 <= q < t.len() && #[trigger] t[q] == before[j];
                    assert(t[q].0 == w);
                }
            }
            assert forall|w: WindowId| #[trigger] pairs_map(t).dom().contains(w) implies pairs_map(t)[w] == want[w] by {
                let q = choose|q: int| 0 <= q < t.len() && (#[trigger] t[q]).0 == w;
                lemma_pairs_at(t, q);
                let j = choose|j: int| 0 <= j < before.len() && before[j] == #[trigger] t[q];
                lemma_pairs_at(before, j);
            }
            assert(pairs_map(t) =~= want);
        }
    }

    /// Sets the layout of one workspace; assignments to slots past the new
    /// layout are dropped so they cannot go stale.
    pub fn set_layout(&mut self, workspace: WorkspaceId, layout: LayoutSpec)
        requires
            old(self).wf(),
        ensures
            final(self).wf(),
            final(self).layout_map() == old(self).layout_map().insert(workspace, layout.spec_slots()),
            final(self).assignment_map() == old(self).assignment_map().restrict(
                old(self).assignment_map().dom().filter(
                    |w: WindowId|
                        !dropped(
                            old(self).assignment_map()[w],
                            workspace,
                            Some(layout.spec_slots().len() as usize),
                        ),
                ),
            ),
            final(self).default_slots() == old(self).default_slots(),
            final(self).pending() == old(self).pending().push(TilingEvent::LayoutChanged { workspace }),
    {
        let new_len = layout.len();
        let ghost slots = layout.spec_slots();
        let ghost before = self.layouts@;
        match self.layout_index(workspace) {
            Some(i) => {
                self.layouts.set(i, (workspace, layout));
                proof {
                    lemma_pairs_update(before, i as int, layout);
                }
            },
            None => {
                self.layouts.push((workspace, layout));
                proof {
                    lemma_pairs_push(before, workspace, layout);
                }
            },
        }
        proof {
            assert(self.layout_map() =~= pairs_map(before).map_values(|l: LayoutSpec| l.spec_slots()).insert(workspace, slots));
        }
        self.retain_assignments(workspace, Some(new_len));
        self.events.push(TilingEvent::LayoutChanged { workspace });
    }

    /// Removes the explicit layout of a workspace and its slot assignments.
    pub fn clear_layout(&mut self, workspace: WorkspaceId)
        requires
            old(self).wf(),
        ensures
            final(self).wf(),
            final(self).layout_map() == old(self).layout_map().remove(workspace),
            final(self).assignment_map() == old(self).assignment_map().restrict(
                old(self).assignment_map().dom().filter(
                    |w: WindowId| !dropped(old(self).assignment_map()[w], workspace, None),
                ),
            ),
            final(self).default_slots() == old(self).default_slots(),
            final(self).pending() == old(self).pending().push(TilingEvent::LayoutChanged { workspace }),
    {
        let ghost before = self.layouts@;
        match self.layout_index(workspace) {
            Some(i) => {
                self.layouts.remove(i);
                proof {
                    lemma_pairs_remove(before, i as int);
                }
            },
            None => {
                proof {
                    assert(pairs_map(before).remove(workspace) =~= pairs_map(before));
                }
            },
        }
        proof {
            assert(self.layout_map() =~= pairs_map(before).map_values(|l: LayoutSpec| l.spec_slots()).remove(workspace));
        }
        self.retain_assignments(workspace, None);
        self.events.push(TilingEvent::LayoutChanged { workspace });
    }

    /// The layout a workspace tiles into: its own, else the fallback.
    pub fn layout_for(&self, workspace: WorkspaceId) -> (r: &LayoutSpec)
        requires
            self.wf(),
        ensures
            r.spec_slots() == self.slots_for(workspace),
    {
        match self.layout_index(workspace) {
            Some(i) => {
                proof {
                    lemma_pairs_at(self.layouts@, i as int);
                }
                &self.layouts[i].1
            },
            None => &self.default_layout,
        }
    }

    pub fn assignment(&self, window: WindowId) -> (r: Option<Assignment>)
        requires
            self.wf(),
        ensures
            r == if self.assignment_map().dom().contains(window) {
                Some(self.assignment_map()[window])
            } else {
                None::<Assignment>
            },
    {
        match self.assignment_index(window) {
            Some(i) => {
                proof {
                    lemma_pairs_at(self.assignments@, i as int);
                }
                Some(self.assignments[i].1)
            },
            None => None,
        }
    }

    /// Records an assignment, replacing the window's previous one.
    fn assign(&mut self, window: WindowId, a: Assignment)
        requires
            old(self).wf(),
        ensures
            final(self).wf(),
            final(self).assignment_map() == old(self).assignment_map().insert(window, a),
            final(self).default_slots() == old(self).default_slots(),
            final(self).layout_map() == old(self).layout_map(),
            final(self).pending() == old(self).pending(),
    {
        let ghost before = self.assignments@;
        match self.assignment_index(window) {
            Some(i) => {
                self.assignments.set(i, (window, a));
                proof {
                    lemma_pairs_update(before, i as int, a);
                }
            },
            None => {
                self.assignments.push((window, a));
                proof {
                    lemma_pairs_push(before, window, a);
                }
            },
        }
    }

    /// Drops the runtime assignment of a destroyed or moved window.
    pub fn forget_window(&mut self, window: WindowId)
        requires
            old(self).wf(),
        ensures
            final(self).wf(),
            final(self).assignment_map() == old(self).assignment_map().remove(window),
            final(self).default_slots() == old(self).default_slots(),
            final(self).layout_map() == old(self).layout_map(),
            final(self).pending() == old(self).pending(),
    {
        let ghost before = self.assignments@;
        match self.assignment_index(window) {
            Some(i) => {
                self.assignments.remove(i);
                proof {
                    lemma_pairs_remove(before, i as int);
                }
            },
            None => {
                proof {
                    assert(pairs_map(before).remove(window) =~= pairs_map(before));
                }
            },
        }
    }

    /// Hands out the pending events in the order they were generated.
    pub fn drain_events(&mut self) -> (r: Vec<TilingEvent>)
        requires
            old(self).wf(),
        ensures
            final(self).wf(),
            r@ == old(self).pending(),
            final(self).pending().len() == 0,
            final(self).default_slots() == old(self).default_slots(),
            final(self).layout_map() == old(self).layout_map(),
            final(self).assignment_map() == old(self).assignment_map(),
    {
        let mut drained: Vec<TilingEvent> = Vec::new();
        std::mem::swap(&mut drained, &mut self.events);
        drained
    }
}


/// The workspace the window belongs to, as the workspace manager reports it.
pub open spec fn membership(workspaces: WorkspaceManager, window: WindowId) -> Option<WorkspaceId> {
    if is_tracked(workspaces.spaces(), window) {
        Some(owner(workspaces.spaces(), window))
    } else {
        None
    }
}

/// A fitted geometry respects the window's bounds, so clamping keeps it.
proof fn lemma_fit_admitted(area: OutputArea, slot: NormalizedRect, c: SizeConstraints)
    requires
        fit_slot_spec(area, slot, c) is Ok,
    ensures
        c.admits(fit_slot_spec(area, slot, c)->Ok_0),
        c.clamp_width_spec(fit_slot_spec(area, slot, c)->Ok_0.width) == fit_slot_spec(area, slot, c)->Ok_0.width,
        c.clamp_height_spec(fit_slot_spec(area, slot, c)->Ok_0.height) == fit_slot_spec(area, slot, c)->Ok_0.height,
        fit_slot_spec(area, slot, c)->Ok_0.width > 0,
        fit_slot_spec(area, slot, c)->Ok_0.height > 0,
{
}

impl TilingEngine {
    /// Slot `s` is taken by another window's assignment on this workspace and
    /// output.
    pub open spec fn slot_used(
        self,
        workspace: WorkspaceId,
        output: OutputId,
        window: WindowId,
        s: usize,
    ) -> bool {
        exists|w: WindowId|
            w != window && self.assignment_map().dom().contains(w) && (#[trigger] self.assignment_map()[w])
                == (Assignment { workspace, output, target: TileTarget::LayoutSlot(s) })
    }

    /// `s` is the first free slot of the workspace's layout.
    pub open spec fn first_free(
        self,
        workspace: WorkspaceId,
        output: OutputId,
        window: WindowId,
        s: usize,
    ) -> bool {
        &&& s < self.slots_for(workspace).len()
        &&& !self.slot_used(workspace, output, window, s)
        &&& forall|t: usize| t < s ==> self.slot_used(workspace, output, window, t)
    }

    /// The slot tile-fit picks: the window's own slot when it still fits the
    /// layout, else the first free one.
    pub open spec fn keeps_slot(self, workspace: WorkspaceId, output: OutputId, window: WindowId) -> bool {
        let m = self.assignment_map();
        m.dom().contains(window) && m[window].workspace == workspace && m[window].output == output
            && (m[window].target matches TileTarget::LayoutSlot(s) && s < self.slots_for(workspace).len())
    }

    pub open spec fn chosen_slot(self, workspace: WorkspaceId, output: OutputId, window: WindowId) -> Option<
        usize,
    > {
        let m = self.assignment_map();
        if self.keeps_slot(workspace, output, window) {
            Some(m[window].target->LayoutSlot_0)
        } else if exists|s: usize| self.first_free(workspace, output, window, s) {
            Some(choose|s: usize| self.first_free(workspace, output, window, s))
        } else {
            None
        }
    }

    /// `after`, `wm_after` and `plan` are what tiling `window` gives.
    pub open spec fn tiled(
        self,
        after: TilingEngine,
        wm: WindowManager,
        wm_after: WindowManager,
        plan: TilePlan,
        window: WindowId,
        workspace: WorkspaceId,
        output: OutputId,
        target: TileTarget,
        geometry: Geometry,
    ) -> bool {
        &&& plan.window == window
        &&& plan.workspace == workspace
        &&& plan.output == output
        &&& plan.target == target
        &&& plan.geometry == geometry
        &&& plan.commands@ == seq![
            WmCommand::RequestMove { window, x: geometry.x, y: geometry.y },
            WmCommand::RequestResize { window, width: geometry.width, height: geometry.height },
        ]
        &&& wm_after.placed_from(&wm, window, WindowPlacement::Tiled)
        &&& after.wf()
        &&& after.assignment_map() == self.assignment_map().insert(
            window,
            Assignment { workspace, output, target },
        )
        &&& after.pending() == self.pending().push(
            TilingEvent::Tiled { window, workspace, output, target, geometry },
        )
        &&& after.layout_map() == self.layout_map()
        &&& after.default_slots() == self.default_slots()
    }

    fn slot_in_use(&self, workspace: WorkspaceId, output: OutputId, window: WindowId, s: usize) -> (r: bool)
        requires
            self.wf(),
        ensures
            r == self.slot_used(workspace, output, window, s),
    {
        let a = Assignment { workspace, output, target: TileTarget::LayoutSlot(s) };
        let mut i: usize = 0;
        while i < self.assignments.len()
            invariant
                self.wf(),
                a == (Assignment { workspace, output, target: TileTarget::LayoutSlot(s) }),
                i <= self.assignments@.len(),
                forall|k: int|
                    0 <= k < i ==> !((#[trigger] self.assignments@[k]).0 != window && self.assignments@[k].1 == a),
            decreases self.assignments@.len() - i,
        {
            let entry = self.assignments[i];
            if entry.0 != window && entry.1 == a {
                proof {
                    lemma_pairs_at(self.assignments@, i as int);
                    assert(entry == self.assignments@[i as int]);
                    assert(self.assignment_map()[entry.0] == a);
                    assert(entry.0 != window && self.assignment_map().dom().contains(entry.0)
                        && self.assignment_map()[entry.0] == a);
                    assert(self.slot_used(workspace, output, window, s));
                }
                return true;
            }
            i = i + 1;
        }
        proof {
            if self.slot_used(workspace, output, window, s) {
                let w = choose|w: WindowId|
                    w != window && self.assignment_map().dom().contains(w) && (#[trigger] self.assignment_map()[w]) == a;
                let k = choose|k: int| 0 <= k < self.assignments@.len() && (#[trigger] self.assignments@[k]).0 == w;
                lemma_pairs_at(self.assignments@, k);
            }
        }
        false
    }

    fn select_layout_slot(&self, workspace: WorkspaceId, output: OutputId, window: WindowId) -> (r: Result<
        usize,
        TilingError,
    >)
        requires
            self.wf(),
        ensures
            match self.chosen_slot(workspace, output, window) {
                Some(s) => r matches Ok(x) && x == s,
                None => r matches Err(e) && e == (TilingError::NoAvailableSlot { workspace, output }),
            },
    {
        let layout_len = self.layout_for(workspace).len();
        match self.assignment_index(window) {
            Some(i) => {
                proof {
                    lemma_pairs_at(self.assignments@, i as int);
                }
                let a = self.assignments[i].1;
                if a.workspace == workspace && a.output == output {
                    if let TileTarget::LayoutSlot(slot) = a.target {
                        if slot < layout_len {
                            return Ok(slot);
                        }
                    }
                }
            },
            None => {},
        }
        proof {
            if self.assignment_map().dom().contains(window) {
                let i = choose|i: int| 0 <= i < self.assignments@.len() && (#[trigger] self.assignments@[i]).0 == window;
                lemma_pairs_at(self.assignments@, i);
            }
        }
        let mut s: usize = 0;
        while s < layout_len
            invariant
                self.wf(),
                !self.keeps_slot(workspace, output, window),
                layout_len == self.slots_for(workspace).len(),
                s <= layout_len,
                forall|t: usize| t < s ==> self.slot_used(workspace, output, window, t),
            decreases layout_len - s,
        {
            if !self.slot_in_use(workspace, output, window, s) {
                proof {
                    assert(self.first_free(workspace, output, window, s));
                    let c = choose|c: usize| self.first_free(workspace, output, window, c);
                    if c < s {
                        assert(self.slot_used(workspace, output, window, c));
                    } else if c > s {
                        assert(self.slot_used(workspace, output, window, s));
                    }
                }
                return Ok(s);
            }
            s = s + 1;
        }
        proof {
            if exists|c: usize| self.first_free(workspace, output, window, c) {
                let c = choose|c: usize| self.first_free(workspace, output, window, c);
                assert(self.slot_used(workspace, output, window, c));
            }
        }
        Err(TilingError::NoAvailableSlot { workspace, output })
    }

    /// Puts a normal window into the tiled placement.
    fn apply_tiled_state(&self, wm: &mut WindowManager, window: WindowId) -> (r: Result<(), TilingError>)
        requires
            old(wm).wf(),
            old(wm).has(window),
        ensures
            final(wm).wf(),
            old(wm).win(window).presentation != PresentationState::Normal ==> (r matches Err(e) && e
                == TilingError::WindowManager(
                WmError::InvalidState {
                    window,
                    operation: "tile-fit",
                    state: old(wm).win(window).presentation,
                },
            ) && *final(wm) == *old(wm)),
            old(wm).win(window).presentation == PresentationState::Normal ==> (r is Ok
                && final(wm).placed_from(old(wm), window, WindowPlacement::Tiled)),
    {
        let state = match wm.window(window) {
            Some(w) => w.presentation,
            None => return Err(TilingError::UnknownWindow(window)),
        };
        if state != PresentationState::Normal {
            return Err(
                TilingError::WindowManager(
                    WmError::InvalidState { window, operation: "tile-fit", state },
                ),
            );
        }
        match wm.set_placement(window, WindowPlacement::Tiled) {
            Ok(()) => Ok(()),
            Err(e) => Err(TilingError::WindowManager(e)),
        }
    }

    /// Builds the plan of a tile: move and resize commands for the geometry.
    fn make_tile_plan(
        &self,
        wm: &WindowManager,
        window: WindowId,
        workspace: WorkspaceId,
        output: OutputId,
        target: TileTarget,
        geometry: Geometry,
    ) -> (r: Result<TilePlan, TilingError>)
        requires
            wm.wf(),
            wm.has(window),
            wm.win(window).presentation == PresentationState::Normal,
            wm.win(window).constraints.admits(geometry),
            wm.win(window).constraints.validation() is Ok,
        ensures
            r matches Ok(plan) && plan.window == window && plan.workspace == workspace && plan.output
                == output && plan.target == target && plan.geometry == geometry && plan.commands@ == seq![
                WmCommand::RequestMove { window, x: geometry.x, y: geometry.y },
                WmCommand::RequestResize { window, width: geometry.width, height: geometry.height },
            ],
    {
        let first = match wm.request_move(window, geometry.x, geometry.y) {
            Ok(c) => c,
            Err(e) => return Err(TilingError::WindowManager(e)),
        };
        let second = match wm.request_resize(window, geometry.width, geometry.height) {
            Ok(c) => c,
            Err(e) => return Err(TilingError::WindowManager(e)),
        };
        let plan = TilePlan { window, workspace, output, target, geometry, commands: [first, second] };
        proof {
            assert(plan.commands@ =~= seq![first, second]);
        }
        Ok(plan)
    }

    /// Fits one window into the first free slot of the workspace's layout on
    /// this output; a window already holding a slot keeps it.
    pub fn tile_fit(
        &mut self,
        workspaces: &WorkspaceManager,
        wm: &mut WindowManager,
        workspace: WorkspaceId,
        area: OutputArea,
        window: WindowId,
    ) -> (r: Result<TilePlan, TilingError>)
        requires
            old(self).wf(),
            workspaces.wf(),
            old(wm).wf(),
        ensures
            final(self).wf(),
            final(wm).wf(),
            ({
                let actual = membership(*workspaces, window);
                let chosen = old(self).chosen_slot(workspace, area.output, window);
                let w = old(wm).win(window);
                if actual != Some(workspace) {
                    &&& r matches Err(e) && e == (TilingError::WorkspaceMismatch {
                        window,
                        requested: workspace,
                        actual,
                    })
                    &&& *final(self) == *old(self) && *final(wm) == *old(wm)
                } else if !old(wm).has(window) {
                    &&& r matches Err(e) && e == TilingError::UnknownWindow(window)
                    &&& *final(self) == *old(self) && *final(wm) == *old(wm)
                } else if chosen is None {
                    &&& r matches Err(e) && e == (TilingError::NoAvailableSlot {
                        workspace,
                        output: area.output,
                    })
                    &&& *final(self) == *old(self) && *final(wm) == *old(wm)
                } else if fit_slot_spec(
                    area,
                    old(self).slots_for(workspace)[chosen->Some_0 as int],
                    w.constraints,
                ) is Err {
                    &&& r matches Err(e) && e == TilingError::Layout(
                        fit_slot_spec(
                            area,
                            old(self).slots_for(workspace)[chosen->Some_0 as int],
                            w.constraints,
                        )->Err_0,
                    )
                    &&& *final(self) == *old(self) && *final(wm) == *old(wm)
                } else if w.presentation != PresentationState::Normal {
                    &&& r matches Err(e) && e == TilingError::WindowManager(
                        WmError::InvalidState { window, operation: "tile-fit", state: w.presentation },
                    )
                    &&& *final(self) == *old(self) && *final(wm) == *old(wm)
                } else {
                    &&& r is Ok
                    &&& old(self).tiled(
                        *final(self),
                        *old(wm),
                        *final(wm),
                        r->Ok_0,
                        window,
                        workspace,
                        area.output,
                        TileTarget::LayoutSlot(chosen->Some_0),
                        fit_slot_spec(
                            area,
                            old(self).slots_for(workspace)[chosen->Some_0 as int],
                            w.constraints,
                        )->Ok_0,
                    )
                }
            }),
    {
        match self.validate_membership(workspaces, workspace, window) {
            Ok(()) => {},
            Err(e) => return Err(e),
        }
        let constraints = match self.window_constraints(wm, window) {
            Ok(c) => c,
            Err(e) => return Err(e),
        };
        let slot_index = match self.select_layout_slot(workspace, area.output, window) {
            Ok(s) => s,
            Err(e) => return Err(e),
        };
        let slot = match self.layout_for(workspace).slot(slot_index) {
            Some(slot) => slot,
            None => return Err(TilingError::NoAvailableSlot { workspace, output: area.output }),
        };
        proof {
            let m = self.assignment_map();
            if !self.keeps_slot(workspace, area.output, window) {
                let c = choose|c: usize| self.first_free(workspace, area.output, window, c);
                assert(self.first_free(workspace, area.output, window, c));
            }
        }
        let geometry = match fit_slot(area, slot, constraints) {
            Ok(g) => g,
            Err(e) => return Err(TilingError::Layout(e)),
        };
        proof {
            lemma_fit_admitted(area, slot, constraints);
        }
        match self.apply_tiled_state(wm, window) {
            Ok(()) => {},
            Err(e) => return Err(e),
        }
        let target = TileTarget::LayoutSlot(slot_index);
        let plan = match self.make_tile_plan(wm, window, workspace, area.output, target, geometry) {
            Ok(p) => p,
            Err(e) => return Err(e),
        };
        self.assign(window, Assignment { workspace, output: area.output, target });
        self.events.push(
            TilingEvent::Tiled { window, workspace, output: area.output, target, geometry },
        );
        Ok(plan)
    }

    /// The approved tile-fit semantics for the active workspace.
    pub fn tile_fit_active(
        &mut self,
        workspaces: &WorkspaceManager,
        wm: &mut WindowManager,
        area: OutputArea,
        window: WindowId,
    ) -> (r: Result<TilePlan, TilingError>)
        requires
            old(self).wf(),
            workspaces.wf(),
            old(wm).wf(),
        ensures
            final(self).wf(),
            final(wm).wf(),
            ({
                let workspace = workspaces.current();
                let actual = membership(*workspaces, window);
                let chosen = old(self).chosen_slot(workspace, area.output, window);
                let w = old(wm).win(window);
                if actual != Some(workspace) {
                    &&& r matches Err(e) && e == (TilingError::WorkspaceMismatch {
                        window,
                        requested: workspace,
                        actual,
                    })
                    &&& *final(self) == *old(self) && *final(wm) == *old(wm)
                } else if !old(wm).has(window) {
                    &&& r matches Err(e) && e == TilingError::UnknownWindow(window)
                    &&& *final(self) == *old(self) && *final(wm) == *old(wm)
                } else if chosen is None {
                    &&& r matches Err(e) && e == (TilingError::NoAvailableSlot {
                        workspace,
                        output: area.output,
                    })
                    &&& *final(self) == *old(self) && *final(wm) == *old(wm)
                } else if fit_slot_spec(
                    area,
                    old(self).slots_for(workspace)[chosen->Some_0 as int],
                    w.constraints,
                ) is Err {
                    &&& r matches Err(e) && e == TilingError::Layout(
                        fit_slot_spec(
                            area,
                            old(self).slots_for(workspace)[chosen->Some_0 as int],
                            w.constraints,
                        )->Err_0,
                    )
                    &&& *final(self) == *old(self) && *final(wm) == *old(wm)
                } else if w.presentation != PresentationState::Normal {
                    &&& r matches Err(e) && e == TilingError::WindowManager(
                        WmError::InvalidState { window, operation: "tile-fit", state: w.presentation },
                    )
                    &&& *final(self) == *old(self) && *final(wm) == *old(wm)
                } else {
                    &&& r is Ok
                    &&& old(self).tiled(
                        *final(self),
                        *old(wm),
                        *final(wm),
                        r->Ok_0,
                        window,
                        workspace,
                        area.output,
                        TileTarget::LayoutSlot(chosen->Some_0),
                        fit_slot_spec(
                            area,
                            old(self).slots_for(workspace)[chosen->Some_0 as int],
                            w.constraints,
                        )->Ok_0,
                    )
                }
            }),
    {
        let workspace = workspaces.active_id();
        self.tile_fit(workspaces, wm, workspace, area, window)
    }

    fn validate_membership(&self, workspaces: &WorkspaceManager, workspace: WorkspaceId, window: WindowId) -> (r:
        Result<(), TilingError>)
        requires
            workspaces.wf(),
        ensures
            membership(*workspaces, window) == Some(workspace) ==> r is Ok,
            membership(*workspaces, window) != Some(workspace) ==> (r matches Err(e) && e == (
            TilingError::WorkspaceMismatch {
                window,
                requested: workspace,
                actual: membership(*workspaces, window),
            })),
    {
        let actual = workspaces.workspace_of(window);
        if actual != Some(workspace) {
            return Err(TilingError::WorkspaceMismatch { window, requested: workspace, actual });
        }
        Ok(())
    }

    fn window_constraints(&self, wm: &WindowManager, window: WindowId) -> (r: Result<
        SizeConstraints,
        TilingError,
    >)
        requires
            wm.wf(),
        ensures
            wm.has(window) ==> r == Ok::<SizeConstraints, TilingError>(wm.win(window).constraints),
            !wm.has(window) ==> (r matches Err(e) && e == TilingError::UnknownWindow(window)),
    {
        match wm.window(window) {
            Some(w) => Ok(w.constraints),
            None => Err(TilingError::UnknownWindow(window)),
        }
    }
}


impl TilingEngine {
    /// Applies a snap intent for a window of the active workspace. Asking for
    /// the layout chooser changes no window state; it only emits the hook.
    pub fn apply_snap(
        &mut self,
        intent: SnapIntent,
        workspaces: &WorkspaceManager,
        wm: &mut WindowManager,
        area: OutputArea,
        window: WindowId,
    ) -> (r: Result<Option<TilePlan>, TilingError>)
        requires
            old(self).wf(),
            workspaces.wf(),
            old(wm).wf(),
        ensures
            final(self).wf(),
            final(wm).wf(),
            ({
                let workspace = workspaces.current();
                let actual = membership(*workspaces, window);
                let w = old(wm).win(window);
                if actual != Some(workspace) {
                    &&& r matches Err(e) && e == (TilingError::WorkspaceMismatch {
                        window,
                        requested: workspace,
                        actual,
                    })
                    &&& *final(self) == *old(self) && *final(wm) == *old(wm)
                } else {
                    match intent {
                        SnapIntent::ShowLayoutChoices => {
                            &&& r matches Ok(p) && p is None
                            &&& *final(wm) == *old(wm)
                            &&& final(self).pending() == old(self).pending().push(
                                TilingEvent::LayoutChoicesRequested { workspace, output: area.output },
                            )
                            &&& final(self).assignment_map() == old(self).assignment_map()
                            &&& final(self).layout_map() == old(self).layout_map()
                            &&& final(self).default_slots() == old(self).default_slots()
                        },
                        SnapIntent::Tile { target, slot } => if !old(wm).has(window) {
                            &&& r matches Err(e) && e == TilingError::UnknownWindow(window)
                            &&& *final(self) == *old(self) && *final(wm) == *old(wm)
                        } else if fit_slot_spec(area, slot, w.constraints) is Err {
                            &&& r matches Err(e) && e == TilingError::Layout(
                                fit_slot_spec(area, slot, w.constraints)->Err_0,
                            )
                            &&& *final(self) == *old(self) && *final(wm) == *old(wm)
                        } else if w.presentation != PresentationState::Normal {
                            &&& r matches Err(e) && e == TilingError::WindowManager(
                                WmError::InvalidState { window, operation: "tile-fit", state: w.presentation },
                            )
                            &&& *final(self) == *old(self) && *final(wm) == *old(wm)
                        } else {
                            &&& r matches Ok(p) && p is Some
                            &&& old(self).tiled(
                                *final(self),
                                *old(wm),
                                *final(wm),
                                r->Ok_0->Some_0,
                                window,
                                workspace,
                                area.output,
                                TileTarget::Snap(target),
                                fit_slot_spec(area, slot, w.constraints)->Ok_0,
                            )
                        },
                    }
                }
            }),
    {
        let workspace = workspaces.active_id();
        match self.validate_membership(workspaces, workspace, window) {
            Ok(()) => {},
            Err(e) => return Err(e),
        }
        match intent {
            SnapIntent::ShowLayoutChoices => {
                self.events.push(TilingEvent::LayoutChoicesRequested { workspace, output: area.output });
                Ok(None)
            },
            SnapIntent::Tile { target, slot } => {
                let constraints = match self.window_constraints(wm, window) {
                    Ok(c) => c,
                    Err(e) => return Err(e),
                };
                let geometry = match fit_slot(area, slot, constraints) {
                    Ok(g) => g,
                    Err(e) => return Err(TilingError::Layout(e)),
                };
                proof {
                    lemma_fit_admitted(area, slot, constraints);
                }
                match self.apply_tiled_state(wm, window) {
                    Ok(()) => {},
                    Err(e) => return Err(e),
                }
                let tile_target = TileTarget::Snap(target);
                let plan = match self.make_tile_plan(wm, window, workspace, area.output, tile_target, geometry) {
                    Ok(p) => p,
                    Err(e) => return Err(e),
                };
                self.assign(window, Assignment { workspace, output: area.output, target: tile_target });
                self.events.push(
                    TilingEvent::Tiled {
                        window,
                        workspace,
                        output: area.output,
                        target: tile_target,
                        geometry,
                    },
                );
                Ok(Some(plan))
            },
        }
    }

    /// Takes a window out of tiling and brings back the floating geometry the
    /// window manager remembered before the first tile.
    pub fn untile(&mut self, wm: &mut WindowManager, window: WindowId) -> (r: Result<UntilePlan, TilingError>)
        requires
            old(self).wf(),
            old(wm).wf(),
        ensures
            final(self).wf(),
            final(wm).wf(),
            !old(wm).has(window) ==> (r matches Err(e) && e == TilingError::UnknownWindow(window)
                && *final(self) == *old(self) && *final(wm) == *old(wm)),
            old(wm).has(window) && old(wm).win(window).placement != WindowPlacement::Tiled ==> (r matches Err(
                e,
            ) && e == TilingError::NotTiled(window) && *final(self) == *old(self) && *final(wm)
                == *old(wm)),
            old(wm).has(window) && old(wm).win(window).placement == WindowPlacement::Tiled
                && old(wm).win(window).presentation != PresentationState::Normal ==> (r matches Err(e) && e
                == TilingError::WindowManager(
                WmError::InvalidState {
                    window,
                    operation: "change placement",
                    state: old(wm).win(window).presentation,
                },
            ) && *final(self) == *old(self) && final(wm).same_state(old(wm))),
            old(wm).has(window) && old(wm).win(window).placement == WindowPlacement::Tiled
                && old(wm).win(window).presentation == PresentationState::Normal ==> ({
                let g = old(wm).win(window).floating_geometry;
                &&& r matches Ok(plan) && plan.window == window && plan.geometry == g && plan.commands@
                    == seq![
                    WmCommand::RequestMove { window, x: g.x, y: g.y },
                    WmCommand::RequestResize { window, width: g.width, height: g.height },
                ]
                &&& final(wm).placed_from(old(wm), window, WindowPlacement::Floating)
                &&& final(self).assignment_map() == old(self).assignment_map().remove(window)
                &&& final(self).pending() == old(self).pending().push(
                    TilingEvent::Released { window, geometry: g },
                )
                &&& final(self).layout_map() == old(self).layout_map()
                &&& final(self).default_slots() == old(self).default_slots()
            }),
    {
        let placement = match wm.window(window) {
            Some(w) => w.placement,
            None => return Err(TilingError::UnknownWindow(window)),
        };
        if placement != WindowPlacement::Tiled {
            return Err(TilingError::NotTiled(window));
        }
        proof {
            wm.lemma_wf();
        }
        match wm.set_placement(window, WindowPlacement::Floating) {
            Ok(()) => {},
            Err(e) => return Err(TilingError::WindowManager(e)),
        }
        proof {
            wm.lemma_wf();
        }
        let geometry = match wm.window(window) {
            Some(w) => w.geometry,
            None => return Err(TilingError::UnknownWindow(window)),
        };
        let first = match wm.request_move(window, geometry.x, geometry.y) {
            Ok(c) => c,
            Err(e) => return Err(TilingError::WindowManager(e)),
        };
        let second = match wm.request_resize(window, geometry.width, geometry.height) {
            Ok(c) => c,
            Err(e) => return Err(TilingError::WindowManager(e)),
        };
        self.forget_window(window);
        self.events.push(TilingEvent::Released { window, geometry });
        let plan = UntilePlan { window, geometry, commands: [first, second] };
        proof {
            assert(plan.commands@ =~= seq![first, second]);
        }
        Ok(plan)
    }

    /// Called when a manual move or resize starts: a tiled window returns to
    /// floating, a floating one is left as it is.
    pub fn release_for_manual_operation(&mut self, wm: &mut WindowManager, window: WindowId) -> (r:
        Result<Option<UntilePlan>, TilingError>)
        requires
            old(self).wf(),
            old(wm).wf(),
        ensures
            final(self).wf(),
            final(wm).wf(),
            !old(wm).has(window) ==> (r matches Err(e) && e == TilingError::UnknownWindow(window)
                && *final(self) == *old(self) && *final(wm) == *old(wm)),
            old(wm).has(window) && old(wm).win(window).placement == WindowPlacement::Floating ==> (r matches Ok(
                p,
            ) && p is None && *final(wm) == *old(wm) && final(self).assignment_map() == old(
                self,
            ).assignment_map().remove(window) && final(self).pending() == old(self).pending()
                && final(self).layout_map() == old(self).layout_map() && final(self).default_slots()
                == old(self).default_slots()),
            old(wm).has(window) && old(wm).win(window).placement == WindowPlacement::Tiled
                && old(wm).win(window).presentation != PresentationState::Normal ==> (r matches Err(e) && e
                == TilingError::WindowManager(
                WmError::InvalidState {
                    window,
                    operation: "change placement",
                    state: old(wm).win(window).presentation,
                },
            ) && *final(self) == *old(self) && final(wm).same_state(old(wm))),
            old(wm).has(window) && old(wm).win(window).placement == WindowPlacement::Tiled
                && old(wm).win(window).presentation == PresentationState::Normal ==> ({
                let g = old(wm).win(window).floating_geometry;
                &&& r matches Ok(p) && p matches Some(plan) && plan.window == window && plan.geometry == g
                    && plan.commands@ == seq![
                    WmCommand::RequestMove { window, x: g.x, y: g.y },
                    WmCommand::RequestResize { window, width: g.width, height: g.height },
                ]
                &&& final(wm).placed_from(old(wm), window, WindowPlacement::Floating)
                &&& final(self).assignment_map() == old(self).assignment_map().remove(window)
                &&& final(self).pending() == old(self).pending().push(
                    TilingEvent::Released { window, geometry: g },
                )
                &&& final(self).layout_map() == old(self).layout_map()
                &&& final(self).default_slots() == old(self).default_slots()
            }),
    {
        let placement = match wm.window(window) {
            Some(w) => w.placement,
            None => return Err(TilingError::UnknownWindow(window)),
        };
        if placement == WindowPlacement::Floating {
            self.forget_window(window);
            return Ok(None);
        }
        match self.untile(wm, window) {
            Ok(plan) => Ok(Some(plan)),
            Err(e) => Err(e),
        }
    }

    /// Hands the commands of a tile plan to the backend, in order, stopping at
    /// the first failure.
    pub fn dispatch_tile_plan<S: BackendCommandSink>(
        &self,
        wm: &WindowManager,
        sink: &mut S,
        plan: &TilePlan,
    ) -> (r: Result<(), TilingError>)
        ensures
            handed_in_order(old(sink).submitted()@, final(sink).submitted()@, plan.commands@, r),
    {
        let commands = plan.commands();
        let ghost before = sink.submitted()@;
        let mut i: usize = 0;
        while i < 2
            invariant
                i <= 2,
                commands@ == plan.commands@,
                before == old(sink).submitted()@,
                sink.submitted()@.len() == before.len() + i,
                sink.submitted()@.subrange(0, before.len() as int) == before,
                forall|q: int|
                    before.len() <= q < sink.submitted()@.len() ==> (#[trigger] sink.submitted()@[q]).0
                        == commands@[q - before.len()] && sink.submitted()@[q].1 is Ok,
            decreases 2 - i,
        {
            let ghost prior = sink.submitted()@;
            let outcome = wm.dispatch(sink, &commands[i]);
            proof {
                assert(sink.submitted()@.subrange(0, before.len() as int) =~= prior.subrange(0, before.len() as int));
                assert(sink.submitted()@[before.len() + i] == sink.submitted()@.last());
            }
            match outcome {
                Ok(()) => {},
                Err(e) => {
                    return Err(TilingError::WindowManager(e));
                },
            }
            i = i + 1;
        }
        Ok(())
    }

    /// Hands the commands of an untile plan to the backend, in order, stopping
    /// at the first failure.
    pub fn dispatch_untile_plan<S: BackendCommandSink>(
        &self,
        wm: &WindowManager,
        sink: &mut S,
        plan: &UntilePlan,
    ) -> (r: Result<(), TilingError>)
        ensures
            handed_in_order(old(sink).submitted()@, final(sink).submitted()@, plan.commands@, r),
    {
        let commands = plan.commands();
        let ghost before = sink.submitted()@;
        let mut i: usize = 0;
        while i < 2
            invariant
                i <= 2,
                commands@ == plan.commands@,
                before == old(sink).submitted()@,
                sink.submitted()@.len() == before.len() + i,
                sink.submitted()@.subrange(0, before.len() as int) == before,
                forall|q: int|
                    before.len() <= q < sink.submitted()@.len() ==> (#[trigger] sink.submitted()@[q]).0
                        == commands@[q - before.len()] && sink.submitted()@[q].1 is Ok,
            decreases 2 - i,
        {
            let ghost prior = sink.submitted()@;
            let outcome = wm.dispatch(sink, &commands[i]);
            proof {
                assert(sink.submitted()@.subrange(0, before.len() as int) =~= prior.subrange(0, before.len() as int));
                assert(sink.submitted()@[before.len() + i] == sink.submitted()@.last());
            }
            match outcome {
                Ok(()) => {},
                Err(e) => {
                    return Err(TilingError::WindowManager(e));
                },
            }
            i = i + 1;
        }
        Ok(())
    }
}

impl Default for TilingEngine {
    fn default() -> (r: Self)
        ensures
            r.wf(),
            r.default_slots() == Seq::new(2, |c: int| crate::tiling_layout::column_slot(2, c)),
            r.layout_map() == Map::<WorkspaceId, Seq<NormalizedRect>>::empty(),
            r.assignment_map() == Map::<WindowId, Assignment>::empty(),
            r.pending().len() == 0,
    {
        TilingEngine::new()
    }
}

} // verus!
