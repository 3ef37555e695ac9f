//! The workspace bar's view of the workspace manager: a mirror of names,
//! order and the active workspace, kept up to date by events, and the
//! pointer interaction that turns clicks into actions. The bar owns no
//! workspaces; the workspace manager stays the source of truth.

use crate::text::str_eq;
use crate::workspace_types::WorkspaceEvent;
use crate::workspace_types::WorkspaceId;
use crate::workspaces::{activation, Workspace, WorkspaceError, WorkspaceManager};
use vstd::prelude::*;

verus! {

/// One item shown on the bar. No window state is kept here.
#[derive(Clone, Debug, PartialEq, Eq)]
pub struct WorkspaceBarEntry {
    pub id: WorkspaceId,
    pub name: String,
    pub active: bool,
}

/// An entry as plain values: identifier, name and whether it is active.
pub type EntryView = (WorkspaceId, Seq<char>, bool);

pub open spec fn entry_view(e: WorkspaceBarEntry) -> EntryView {
    (e.id, e.name@, e.active)
}

pub open spec fn entry_views(s: Seq<WorkspaceBarEntry>) -> Seq<EntryView> {
    s.map_values(|e: WorkspaceBarEntry| entry_view(e))
}

/// Actions produced by interaction with the bar.
#[derive(Clone, Copy, Debug, PartialEq, Eq, Structural)]
pub enum WorkspaceBarAction {
    Activate(WorkspaceId),
    OpenWorkspaceSettings,
}

/// The bar's presentation model, in the order the workspace manager gives.
#[derive(Clone, Debug, PartialEq, Eq)]
pub struct WorkspaceBarModel {
    entries: Vec<WorkspaceBarEntry>,
}

impl View for WorkspaceBarModel {
    type V = Seq<EntryView>;

    closed spec fn view(&self) -> Seq<EntryView> {
        entry_views(self.entries@)
    }
}

/// The bar entries mirroring a list of workspaces and the active one.
pub open spec fn mirrored(s: Seq<Workspace>, active: WorkspaceId) -> Seq<EntryView> {
    s.map_values(
        |w: Workspace| (w.spec_definition().id, w.spec_definition().name@, w.spec_definition().id == active),
    )
}

/// The first entry marked active.
pub open spec fn first_active(s: Seq<EntryView>) -> Option<WorkspaceId>
    decreases s.len(),
{
    if s.len() == 0 {
        None
    } else if s[0].2 {
        Some(s[0].0)
    } else {
        first_active(s.drop_first())
    }
}

/// The position of the first entry with this identifier, or the length.
pub open spec fn position(s: Seq<EntryView>, id: WorkspaceId) -> int
    decreases s.len(),
{
    if s.len() == 0 {
        0
    } else if s[0].0 == id {
        0
    } else {
        1 + position(s.drop_first(), id)
    }
}

/// The entries without those of one workspace.
pub open spec fn removed(s: Seq<EntryView>, id: WorkspaceId) -> Seq<EntryView>
    decreases s.len(),
{
    if s.len() == 0 {
        s
    } else if s[0].0 == id {
        removed(s.drop_first(), id)
    } else {
        seq![s[0]] + removed(s.drop_first(), id)
    }
}

/// The entries with exactly one workspace marked active.
pub open spec fn activated(s: Seq<EntryView>, id: WorkspaceId) -> Seq<EntryView> {
    s.map_values(|e: EntryView| (e.0, e.1, e.0 == id))
}

/// What an event does to the bar: the new entries and whether anything
/// visible changed. Window membership events change nothing visible.
pub open spec fn after_event(s: Seq<EntryView>, event: WorkspaceEvent) -> (Seq<EntryView>, bool) {
    match event {
        WorkspaceEvent::Created { workspace, name, .. } => {
            if position(s, workspace) < s.len() {
                (s, false)
            } else {
                (s.push((workspace, name@, false)), true)
            }
        },
        WorkspaceEvent::Removed { workspace } => {
            let r = removed(s, workspace);
            (r, r.len() != s.len())
        },
        WorkspaceEvent::Renamed { workspace, new_name, .. } => {
            let i = position(s, workspace);
            if i >= s.len() || s[i].1 == new_name@ {
                (s, false)
            } else {
                (s.update(i, (s[i].0, new_name@, s[i].2)), true)
            }
        },
        WorkspaceEvent::Activated { current, .. } => {
            let r = activated(s, current);
            (r, r != s)
        },
        _ => (s, false),
    }
}

proof fn lemma_position_bounds(s: Seq<EntryView>, id: WorkspaceId)
    ensures
        0 <= position(s, id) <= s.len(),
        position(s, id) < s.len() ==> s[position(s, id)].0 == id,
        forall|j: int| 0 <= j < position(s, id) ==> s[j].0 != id,
    decreases s.len(),
{
    if s.len() > 0 && s[0].0 != id {
        lemma_position_bounds(s.drop_first(), id);
        assert forall|j: int| 0 <= j < position(s, id) implies s[j].0 != id by {
            if j > 0 {
                assert(s[j] == s.drop_first()[j - 1]);
            }
        }
    }
}

proof fn lemma_position_of_first(s: Seq<EntryView>, id: WorkspaceId, i: int)
    requires
        0 <= i < s.len(),
        s[i].0 == id,
        forall|j: int| 0 <= j < i ==> s[j].0 != id,
    ensures
        position(s, id) == i,
    decreases s.len(),
{
    if i > 0 {
        assert(s.drop_first()[i - 1] == s[i]);
        assert forall|j: int| 0 <= j < i - 1 implies s.drop_first()[j].0 != id by {
            assert(s.drop_first()[j] == s[j + 1]);
        }
        lemma_position_of_first(s.drop_first(), id, i - 1);
    }
}

proof fn lemma_removed_step(s: Seq<EntryView>, id: WorkspaceId, i: int)
    requires
        0 <= i < s.len(),
    ensures
        removed(s.take(i + 1), id) == removed(s.take(i), id) + (if s[i].0 == id {
            Seq::<EntryView>::empty()
        } else {
            seq![s[i]]
        }),
    decreases i,
{
    let t = s.take(i + 1);
    if i == 0 {
        assert(t.drop_first() =~= Seq::<EntryView>::empty());
        assert(s.take(0) =~= Seq::<EntryView>::empty());
        assert(t[0] == s[0]);
        assert(removed(t.drop_first(), id) =~= Seq::<EntryView>::empty());
        if s[0].0 == id {
            assert(removed(t, id) =~= Seq::<EntryView>::empty());
        } else {
            assert(removed(t, id) =~= seq![s[0]]);
        }
    } else {
        let d = s.drop_first();
        lemma_removed_step(d, id, i - 1);
        assert(t.drop_first() =~= d.take(i));
        assert(s.take(i).drop_first() =~= d.take(i - 1));
        assert(d[i - 1] == s[i]);
        assert(t[0] == s[0]);
        assert(s.take(i)[0] == s[0]);
        if s[0].0 == id {
        } else {
            assert(removed(t, id) =~= seq![s[0]] + removed(d.take(i), id));
            assert(removed(s.take(i), id) =~= seq![s[0]] + removed(d.take(i - 1), id));
        }
    }
}

proof fn lemma_first_active_prefix(s: Seq<EntryView>, i: int)
    requires
        0 <= i <= s.len(),
        forall|j: int| 0 <= j < i ==> !s[j].2,
    ensures
        first_active(s) == first_active(s.skip(i)),
    decreases i,
{
    if i > 0 {
        assert(!s[0].2);
        assert(first_active(s) == first_active(s.drop_first()));
        assert(s.drop_first().skip(i - 1) =~= s.skip(i));
        assert forall|j: int| 0 <= j < i - 1 implies !s.drop_first()[j].2 by {
            assert(s.drop_first()[j] == s[j + 1]);
        }
        lemma_first_active_prefix(s.drop_first(), i - 1);
    } else {
        assert(s.skip(0) =~= s);
    }
}

impl WorkspaceBarModel {
    /// A snapshot of the manager: its workspaces, in its order, with the
    /// active one marked.
    pub fn from_manager(manager: &WorkspaceManager) -> (r: Self)
        ensures
            r@ == mirrored(manager.spaces(), manager.current()),
    {
        let active = manager.active_id();
        let spaces = manager.workspaces();
        let mut entries: Vec<WorkspaceBarEntry> = Vec::new();
        let mut i: usize = 0;
        while i < spaces.len()
            invariant
                i <= spaces@.len(),
                spaces@ == manager.spaces(),
                active == manager.current(),
                entries@.len() == i,
                entry_views(entries@) == mirrored(spaces@.take(i as int), active),
            decreases spaces@.len() - i,
        {
            let w = &spaces[i];
            let ghost old_entries = entries@;
            let key = w.key();
            let entry = WorkspaceBarEntry { id: key, name: w.label().to_owned(), active: key == active };
            entries.push(entry);
            proof {
                let d = spaces@[i as int].spec_definition();
                assert(entry_view(entry) == (d.id, d.name@, d.id == active));
                assert(entry_views(entries@)[i as int] == entry_view(entry));
                assert(spaces@.take(i + 1) =~= spaces@.take(i as int).push(spaces@[i as int]));
                let m = mirrored(spaces@.take(i + 1), active);
                assert forall|j: int| 0 <= j < i + 1 implies entry_views(entries@)[j] == m[j] by {
                    if j < i {
                        assert(entries@[j] == old_entries[j]);
                        assert(entry_views(old_entries)[j] == mirrored(spaces@.take(i as int), active)[j]);
                    }
                }
                assert(entry_views(entries@) =~= m);
            }
            i = i + 1;
        }
        proof {
            assert(spaces@.take(spaces@.len() as int) =~= spaces@);
        }
        WorkspaceBarModel { entries }
    }

    pub fn entries(&self) -> (r: &[WorkspaceBarEntry])
        ensures
            entry_views(r@) == self@,
    {
        self.entries.as_slice()
    }

    /// The active workspace as the bar shows it.
    pub fn active_id(&self) -> (r: Option<WorkspaceId>)
        ensures
            r == first_active(self@),
    {
        let mut i: usize = 0;
        while i < self.entries.len()
            invariant
                i <= self.entries@.len(),
                forall|j: int| 0 <= j < i ==> !(#[trigger] self.entries@[j]).active,
            decreases self.entries@.len() - i,
        {
            if self.entries[i].active {
                proof {
                    let s = self@;
                    lemma_first_active_prefix(s, i as int);
                    assert(s.skip(i as int)[0] == s[i as int]);
                }
                return Some(self.entries[i].id);
            }
            i = i + 1;
        }
        proof {
            let s = self@;
            lemma_first_active_prefix(s, s.len() as int);
        }
        None
    }

    fn find(&self, id: WorkspaceId) -> (r: usize)
        ensures
            r == position(self@, id),
    {
        let mut i: usize = 0;
        while i < self.entries.len()
            invariant
                i <= self.entries@.len(),
                forall|j: int| 0 <= j < i ==> (#[trigger] self.entries@[j]).id != id,
            decreases self.entries@.len() - i,
        {
            if self.entries[i].id == id {
                proof {
                    lemma_position_of_first(self@, id, i as int);
                }
                return i;
            }
            i = i + 1;
        }
        proof {
            lemma_position_bounds(self@, id);
            if position(self@, id) < self@.len() {
                assert(self@[position(self@, id)].0 == id);
            }
        }
        i
    }

    /// Applies an event of the workspace manager. Returns whether anything
    /// visible changed; window membership events never change the bar.
    pub fn apply_event(&mut self, event: &WorkspaceEvent) -> (changed: bool)
        ensures
            (final(self)@, changed) == after_event(old(self)@, *event),
    {
        match event {
            WorkspaceEvent::Created { workspace, name, .. } => {
                let i = self.find(*workspace);
                if i < self.entries.len() {
                    return false;
                }
                self.entries.push(WorkspaceBarEntry { id: *workspace, name: name.clone(), active: false });
                proof {
                    assert(self@ =~= old(self)@.push((*workspace, name@, false)));
                }
                true
            },
            WorkspaceEvent::Removed { workspace } => {
                let ghost s = old(self)@;
                let mut kept: Vec<WorkspaceBarEntry> = Vec::new();
                let mut i: usize = 0;
                while i < self.entries.len()
                    invariant
                        i <= self.entries@.len(),
                        s == entry_views(self.entries@),
                        entry_views(kept@) == removed(s.take(i as int), *workspace),
                    decreases self.entries@.len() - i,
                {
                    proof {
                        lemma_removed_step(s, *workspace, i as int);
                    }
                    if self.entries[i].id != *workspace {
                        let e = &self.entries[i];
                        kept.push(WorkspaceBarEntry { id: e.id, name: e.name.clone(), active: e.active });
                        proof {
                            assert(entry_views(kept@) =~= removed(s.take(i as int), *workspace) + seq![
                                s[i as int]]);
                        }
                    } else {
                        proof {
                            assert(removed(s.take(i as int), *workspace) + Seq::<EntryView>::empty()
                                =~= removed(s.take(i as int), *workspace));
                        }
                    }
                    i = i + 1;
                }
                proof {
                    assert(s.take(s.len() as int) =~= s);
                }
                let before = self.entries.len();
                let after = kept.len();
                self.entries = kept;
                before != after
            },
            WorkspaceEvent::Renamed { workspace, new_name, .. } => {
                let i = self.find(*workspace);
                if i >= self.entries.len() {
                    return false;
                }
                if str_eq(self.entries[i].name.as_str(), new_name.as_str()) {
                    return false;
                }
                let entry = WorkspaceBarEntry {
                    id: self.entries[i].id,
                    name: new_name.clone(),
                    active: self.entries[i].active,
                };
                self.entries.set(i, entry);
                proof {
                    assert(self@ =~= old(self)@.update(
                        i as int,
                        (old(self)@[i as int].0, new_name@, old(self)@[i as int].2),
                    ));
                }
                true
            },
            WorkspaceEvent::Activated { current, .. } => {
                let ghost s = old(self)@;
                let mut next: Vec<WorkspaceBarEntry> = Vec::new();
                let mut changed = false;
                let mut i: usize = 0;
                while i < self.entries.len()
                    invariant
                        i <= self.entries@.len(),
                        s == entry_views(self.entries@),
                        next@.len() == i,
                        entry_views(next@) == activated(s, *current).take(i as int),
                        changed == exists|j: int| 0 <= j < i && #[trigger] s[j].2 != (s[j].0 == *current),
                    decreases self.entries@.len() - i,
                {
                    let e = &self.entries[i];
                    let active = e.id == *current;
                    if e.active != active {
                        changed = true;
                    }
                    let fresh = WorkspaceBarEntry { id: e.id, name: e.name.clone(), active };
                    next.push(fresh);
                    proof {
                        assert(s[i as int] == entry_view(self.entries@[i as int]));
                        assert(entry_views(next@)[i as int] == entry_view(fresh));
                        assert(activated(s, *current)[i as int] == (s[i as int].0, s[i as int].1, s[i as int].0
                            == *current));
                        assert(entry_views(next@) =~= activated(s, *current).take(i + 1));
                        if changed && !(s[i as int].2 != (s[i as int].0 == *current)) {
                            let j = choose|j: int| 0 <= j < i && #[trigger] s[j].2 != (s[j].0 == *current);
                            assert(0 <= j < i + 1);
                        }
                    }
                    i = i + 1;
                }
                proof {
                    let r = activated(s, *current);
                    assert(r.take(s.len() as int) =~= r);
                    if changed {
                        let j = choose|j: int| 0 <= j < s.len() && #[trigger] s[j].2 != (s[j].0 == *current);
                        assert(r[j] != s[j]);
                    } else {
                        assert forall|j: int| 0 <= j < s.len() implies r[j] == s[j] by {
                            assert(!(s[j].2 != (s[j].0 == *current)));
                        }
                        assert(r =~= s);
                    }
                }
                self.entries = next;
                changed
            },
            _ => false,
        }
    }
}

/// What a run of events does to the bar, in order: the final entries and
/// whether any of them changed something visible.
pub open spec fn after_events(s: Seq<EntryView>, events: Seq<WorkspaceEvent>) -> (Seq<EntryView>, bool)
    decreases events.len(),
{
    if events.len() == 0 {
        (s, false)
    } else {
        let (p, c) = after_events(s, events.drop_last());
        let (q, d) = after_event(p, events.last());
        (q, c || d)
    }
}

impl WorkspaceBarModel {
    /// Applies copies of events already handed out by the coordinator, in
    /// order. Returns whether anything visible changed, so the caller knows
    /// whether to lay out and redraw.
    pub fn apply_events(&mut self, events: &[WorkspaceEvent]) -> (changed: bool)
        ensures
            (final(self)@, changed) == after_events(old(self)@, events@),
    {
        let mut changed = false;
        let mut i: usize = 0;
        while i < events.len()
            invariant
                i <= events@.len(),
                (self@, changed) == after_events(old(self)@, events@.take(i as int)),
            decreases events@.len() - i,
        {
            let c = self.apply_event(&events[i]);
            proof {
                assert(events@.take(i + 1).drop_last() =~= events@.take(i as int));
                assert(events@.take(i + 1).last() == events@[i as int]);
            }
            changed = changed || c;
            i = i + 1;
        }
        proof {
            assert(events@.take(events@.len() as int) =~= events@);
        }
        changed
    }

    /// Carries out the part of an action that belongs to the bar. Activation
    /// is done by the workspace manager and mirrored here; the settings
    /// request is handed back to the coordinator. Returns the action to
    /// forward, if any, and whether the bar must be redrawn.
    pub fn dispatch_action(&mut self, manager: &mut WorkspaceManager, action: WorkspaceBarAction) -> (r:
        Result<(Option<WorkspaceBarAction>, bool), WorkspaceError>)
        requires
            old(manager).wf(),
        ensures
            final(manager).wf(),
            match action {
                WorkspaceBarAction::Activate(id) => if !old(manager).has(id) {
                    &&& r == Err::<(Option<WorkspaceBarAction>, bool), WorkspaceError>(
                        WorkspaceError::WorkspaceNotFound(id),
                    )
                    &&& *final(manager) == *old(manager)
                    &&& final(self)@ == old(self)@
                } else {
                    let previous = old(manager).current();
                    &&& activation(*old(manager), *final(manager), id)
                    &&& r == Ok::<(Option<WorkspaceBarAction>, bool), WorkspaceError>(
                        (None, previous != id),
                    )
                    &&& final(self)@ == if previous != id {
                        after_event(
                            old(self)@,
                            WorkspaceEvent::Activated { previous, current: id },
                        ).0
                    } else {
                        old(self)@
                    }
                },
                WorkspaceBarAction::OpenWorkspaceSettings => {
                    &&& r == Ok::<(Option<WorkspaceBarAction>, bool), WorkspaceError>(
                        (Some(action), false),
                    )
                    &&& *final(manager) == *old(manager)
                    &&& final(self)@ == old(self)@
                },
            },
    {
        match action {
            WorkspaceBarAction::Activate(id) => {
                let previous = manager.active_id();
                match manager.activate(id) {
                    Err(e) => Err(e),
                    Ok(()) => {
                        if previous != id {
                            self.apply_event(&WorkspaceEvent::Activated { previous, current: id });
                        }
                        Ok((None, previous != id))
                    },
                }
            },
            WorkspaceBarAction::OpenWorkspaceSettings => Ok((Some(action), false)),
        }
    }
}

/// What a pointer is over on the bar.
#[derive(Clone, Copy, Debug, PartialEq, Eq, Structural)]
pub enum WorkspaceBarTarget {
    Workspace(WorkspaceId),
    Settings,
}

/// Transient pointer state: no timers, no animation.
#[derive(Clone, Copy, Debug, PartialEq, Eq, Structural)]
pub struct InteractionState {
    pub hovered: Option<WorkspaceBarTarget>,
    pub pressed: Option<WorkspaceBarTarget>,
}

impl Default for InteractionState {
    fn default() -> (r: Self)
        ensures
            r.hovered is None,
            r.pressed is None,
    {
        InteractionState { hovered: None, pressed: None }
    }
}

/// The action of a target.
pub open spec fn action_of(t: WorkspaceBarTarget) -> WorkspaceBarAction {
    match t {
        WorkspaceBarTarget::Workspace(id) => WorkspaceBarAction::Activate(id),
        WorkspaceBarTarget::Settings => WorkspaceBarAction::OpenWorkspaceSettings,
    }
}

impl InteractionState {
    /// The pointer moved over `target` (found by hit-testing the layout).
    /// Returns whether the hovered target changed.
    pub fn pointer_move(&mut self, target: Option<WorkspaceBarTarget>) -> (changed: bool)
        ensures
            final(self).hovered == target,
            final(self).pressed == old(self).pressed,
            changed == (old(self).hovered != target),
    {
        let changed = self.hovered != target;
        self.hovered = target;
        changed
    }

    /// A button went down over `target`. Returns whether the pressed target
    /// changed.
    pub fn pointer_press(&mut self, target: Option<WorkspaceBarTarget>) -> (changed: bool)
        ensures
            final(self).pressed == target,
            final(self).hovered == old(self).hovered,
            changed == (old(self).pressed != target),
    {
        let changed = self.pressed != target;
        self.pressed = target;
        changed
    }

    /// The button went up over `target`. An action comes only when press and
    /// release were over the same target, so a drag never activates anything.
    pub fn pointer_release(&mut self, target: Option<WorkspaceBarTarget>) -> (r: Option<
        WorkspaceBarAction,
    >)
        ensures
            final(self).pressed is None,
            final(self).hovered == old(self).hovered,
            r == match target {
                Some(t) => if old(self).pressed == Some(t) {
                    Some(action_of(t))
                } else {
                    None
                },
                None => None::<WorkspaceBarAction>,
            },
    {
        let pressed = self.pressed;
        self.pressed = None;
        if pressed != target {
            return None;
        }
        match target {
            Some(WorkspaceBarTarget::Workspace(id)) => Some(WorkspaceBarAction::Activate(id)),
            Some(WorkspaceBarTarget::Settings) => Some(WorkspaceBarAction::OpenWorkspaceSettings),
            None => None,
        }
    }
}

} // verus!
