//! Deterministic workspace lifecycle, window membership, most-recently-used
//! order and configuration snapshots.

use crate::config::ConfigError;
use crate::text::{lemma_trimmed_idempotent, is_blank, str_eq, str_is_blank, trim, trimmed};
use crate::wm::WindowId;
use crate::workspace_types::{
    DynamicPolicy, PlacementRule, WorkspaceConfig, WorkspaceDefinition, WorkspaceEvent, WorkspaceId,
    WorkspaceKind,
};
use vstd::prelude::*;

verus! {

/// Schema version of the persisted workspace configuration.
pub const WORKSPACE_CONFIG_SCHEMA: u32 = 1;

/// Longest accepted workspace name, in UTF-8 bytes.
pub const MAX_WORKSPACE_NAME_BYTES: usize = 128;

/// The windows of a sequence are strictly ascending by identifier value.
pub open spec fn ascending(s: Seq<WindowId>) -> bool {
    forall|i: int, j: int| 0 <= i < j < s.len() ==> s[i].value() < s[j].value()
}

/// Runtime workspace state: a logical context, with no monitor attached.
#[derive(Clone, Debug, PartialEq, Eq)]
pub struct Workspace {
    pub id: WorkspaceId,
    pub name: String,
    pub kind: WorkspaceKind,
    windows: Vec<WindowId>,
}

impl Workspace {
    /// The resident windows, ascending by identifier.
    pub closed spec fn members(&self) -> Seq<WindowId> {
        self.windows@
    }

    /// The workspace holds this window.
    pub open spec fn holds(&self, window: WindowId) -> bool {
        self.members().contains(window)
    }

    pub open spec fn wf(&self) -> bool {
        ascending(self.members())
    }

    /// The persistent part of the workspace.
    pub closed spec fn spec_definition(&self) -> WorkspaceDefinition {
        WorkspaceDefinition { id: self.id, name: self.name, kind: self.kind }
    }

    pub(crate) fn from_definition(definition: WorkspaceDefinition) -> (r: Workspace)
        ensures
            r.spec_definition() == definition,
            r.members() == Seq::<WindowId>::empty(),
            r.wf(),
    {
        Workspace {
            id: definition.id,
            name: definition.name,
            kind: definition.kind,
            windows: Vec::new(),
        }
    }

    /// The identifier of the workspace.
    pub fn key(&self) -> (r: WorkspaceId)
        ensures
            r == self.spec_definition().id,
    {
        self.id
    }

    /// The display name of the workspace.
    pub fn label(&self) -> (r: &str)
        ensures
            r@ == self.spec_definition().name@,
    {
        self.name.as_str()
    }

    /// The resident windows, ascending by identifier.
    pub fn windows(&self) -> (r: Vec<WindowId>)
        ensures
            r@ == self.members(),
    {
        self.windows.clone()
    }

    pub fn window_count(&self) -> (r: usize)
        ensures
            r == self.members().len(),
    {
        self.windows.len()
    }

    pub(crate) fn is_empty(&self) -> (r: bool)
        ensures
            r == (self.members().len() == 0),
    {
        self.windows.len() == 0
    }

    pub(crate) fn definition(&self) -> (r: WorkspaceDefinition)
        ensures
            r == self.spec_definition(),
    {
        WorkspaceDefinition { id: self.id, name: self.name.clone(), kind: self.kind }
    }

    /// Adds a window, keeping the ascending order; a present window stays once.
    pub(crate) fn insert_window(&mut self, window: WindowId)
        requires
            old(self).wf(),
        ensures
            final(self).wf(),
            final(self).spec_definition() == old(self).spec_definition(),
            forall|w: WindowId| final(self).holds(w) <==> (old(self).holds(w) || w == window),
    {
        let n = self.windows.len();
        let mut p: usize = 0;
        while p < n && self.windows[p].get() < window.get()
            invariant
                n == self.windows.len(),
                p <= n,
                ascending(self.windows@),
                forall|j: int| 0 <= j < p ==> (#[trigger] self.windows@[j]).value() < window.value(),
            decreases n - p,
        {
            p = p + 1;
        }
        if p < n && self.windows[p].get() == window.get() {
            proof {
                crate::wm::lemma_window_id_value_injective(self.windows@[p as int], window);
            }
            return;
        }
        proof {
            assert forall|j: int| p <= j < n implies window.value() < (#[trigger] self.windows@[j]).value() by {
                if j > p {
                    assert(self.windows@[p as int].value() < self.windows@[j].value());
                }
            }
        }
        let ghost before = self.windows@;
        self.windows.insert(p, window);
        proof {
            lemma_ascending_insert(before, p as int, window);
        }
    }

    /// Removes a window if it is present.
    pub(crate) fn remove_window(&mut self, window: WindowId)
        requires
            old(self).wf(),
        ensures
            final(self).wf(),
            final(self).spec_definition() == old(self).spec_definition(),
            forall|w: WindowId| final(self).holds(w) <==> (old(self).holds(w) && w != window),
    {
        let n = self.windows.len();
        let mut p: usize = 0;
        while p < n && self.windows[p].get() != window.get()
            invariant
                n == self.windows.len(),
                p <= n,
                forall|j: int| 0 <= j < p ==> (#[trigger] self.windows@[j]) != window,
            decreases n - p,
        {
            proof {
                crate::wm::lemma_window_id_value_injective(self.windows@[p as int], window);
            }
            p = p + 1;
        }
        if p < n {
            let ghost before = self.windows@;
            self.windows.remove(p);
            proof {
                crate::wm::lemma_window_id_value_injective(before[p as int], window);
                lemma_ascending_remove(before, p as int);
            }
        }
    }
}

proof fn lemma_ascending_insert(s: Seq<WindowId>, p: int, w: WindowId)
    requires
        ascending(s),
        0 <= p <= s.len(),
        forall|j: int| 0 <= j < p ==> (#[trigger] s[j]).value() < w.value(),
        forall|j: int| p <= j < s.len() ==> w.value() < (#[trigger] s[j]).value(),
    ensures
        ascending(s.insert(p, w)),
        forall|k: WindowId| s.insert(p, w).contains(k) <==> (s.contains(k) || k == w),
{
    let t = s.insert(p, w);
    assert forall|a: int, b: int| 0 <= a < b < t.len() implies t[a].value() < t[b].value() by {
        if a < p && b < p {
            assert(t[a] == s[a] && t[b] == s[b]);
        } else if a < p && b == p {
            assert(t[a] == s[a]);
        } else if a < p {
            assert(t[a] == s[a] && t[b] == s[b - 1]);
        } else if a == p {
            assert(t[b] == s[b - 1]);
        } else {
            assert(t[a] == s[a - 1] && t[b] == s[b - 1]);
        }
    }
    assert forall|k: WindowId| t.contains(k) <==> (s.contains(k) || k == w) by {
        if s.contains(k) {
            let j = choose|j: int| 0 <= j < s.len() && s[j] == k;
            if j < p {
                assert(t[j] == k);
            } else {
                assert(t[j + 1] == k);
            }
        }
        if k == w {
            assert(t[p] == w);
        }
        if t.contains(k) {
            let j = choose|j: int| 0 <= j < t.len() && t[j] == k;
            if j < p {
                assert(s[j] == k);
            } else if j > p {
                assert(s[j - 1] == k);
            }
        }
    }
}

proof fn lemma_ascending_remove(s: Seq<WindowId>, p: int)
    requires
        ascending(s),
        0 <= p < s.len(),
    ensures
        ascending(s.remove(p)),
        forall|k: WindowId| s.remove(p).contains(k) <==> (s.contains(k) && k != s[p]),
{
    let t = s.remove(p);
    assert forall|a: int, b: int| 0 <= a < b < t.len() implies t[a].value() < t[b].value() by {
        let a2 = if a < p {
            a
        } else {
            a + 1
        };
        let b2 = if b < p {
            b
        } else {
            b + 1
        };
        assert(t[a] == s[a2]);
        assert(t[b] == s[b2]);
    }
    assert forall|k: WindowId| t.contains(k) <==> (s.contains(k) && k != s[p]) by {
        if s.contains(k) && k != s[p] {
            let j = choose|j: int| 0 <= j < s.len() && s[j] == k;
            if j < p {
                assert(t[j] == k);
            } else {
                assert(t[j - 1] == k);
            }
        }
        if t.contains(k) {
            let j = choose|j: int| 0 <= j < t.len() && t[j] == k;
            if j < p {
                assert(s[j] == k);
                assert(s[j].value() < s[p].value());
            } else {
                assert(s[j + 1] == k);
                assert(s[p].value() < s[j + 1].value());
            }
        }
    }
}


#[derive(Debug)]
pub enum WorkspaceError {
    Config(ConfigError),
    NoWorkspaces,
    WorkspaceNotFound(WorkspaceId),
    ActiveWorkspaceMissing(WorkspaceId),
    DuplicateId(WorkspaceId),
    DuplicateName(String),
    InvalidName,
    NameTooLong(usize),
    IdExhausted,
    LastWorkspace,
    WindowAlreadyTracked(WindowId),
    WindowNotTracked(WindowId),
    InvalidApplicationId,
    DuplicateApplicationRule(String),
    RuleTargetMissing(WorkspaceId),
}

/// Length of the UTF-8 encoding of a text.
pub open spec fn utf8_len(s: Seq<char>) -> nat {
    vstd::utf8::encode_utf8(s).len()
}

/// A name is accepted once trimmed, when it is not empty and fits the byte limit.
pub open spec fn name_check(name: Seq<char>) -> Result<Seq<char>, WorkspaceError> {
    let t = trimmed(name);
    if t.len() == 0 {
        Err(WorkspaceError::InvalidName)
    } else if utf8_len(t) > MAX_WORKSPACE_NAME_BYTES {
        Err(WorkspaceError::NameTooLong(MAX_WORKSPACE_NAME_BYTES))
    } else {
        Ok(t)
    }
}

fn normalize_name(name: &str) -> (r: Result<String, WorkspaceError>)
    ensures
        match name_check(name@) {
            Ok(t) => r matches Ok(s) && s@ == t,
            Err(e) => r matches Err(x) && x == e,
        },
{
    let normalized = trim(name);
    if normalized.as_str().unicode_len() == 0 {
        return Err(WorkspaceError::InvalidName);
    }
    if normalized.as_str().as_bytes().len() > MAX_WORKSPACE_NAME_BYTES {
        return Err(WorkspaceError::NameTooLong(MAX_WORKSPACE_NAME_BYTES));
    }
    Ok(normalized)
}

/// The identifiers of a sequence of workspaces.
pub closed spec fn space_ids(s: Seq<Workspace>) -> Seq<WorkspaceId> {
    s.map_values(|w: Workspace| w.id)
}

/// Some workspace of the sequence has this identifier.
pub closed spec fn has_space(s: Seq<Workspace>, id: WorkspaceId) -> bool {
    exists|i: int| 0 <= i < s.len() && (#[trigger] s[i]).id == id
}

/// Position of the workspace with this identifier.
pub closed spec fn space_at(s: Seq<Workspace>, id: WorkspaceId) -> int {
    choose|i: int| 0 <= i < s.len() && (#[trigger] s[i]).id == id
}

/// The workspace with this identifier.
pub closed spec fn space_of(s: Seq<Workspace>, id: WorkspaceId) -> Workspace {
    s[space_at(s, id)]
}

pub closed spec fn distinct_ids(s: Seq<Workspace>) -> bool {
    forall|i: int, j: int| 0 <= i < s.len() && 0 <= j < s.len() && i != j ==> s[i].id != s[j].id
}

/// No window is resident in two workspaces.
pub open spec fn disjoint_members(s: Seq<Workspace>) -> bool {
    forall|i: int, j: int, w: WindowId|
        #![trigger s[i].holds(w), s[j].holds(w)]
        0 <= i < s.len() && 0 <= j < s.len() && i != j && s[i].holds(w) ==> !s[j].holds(w)
}

/// Some workspace of the sequence holds the window.
pub open spec fn is_tracked(s: Seq<Workspace>, w: WindowId) -> bool {
    exists|i: int| 0 <= i < s.len() && (#[trigger] s[i]).holds(w)
}

/// The identifier of the workspace holding the window.
pub closed spec fn owner(s: Seq<Workspace>, w: WindowId) -> WorkspaceId {
    s[choose|i: int| 0 <= i < s.len() && (#[trigger] s[i]).holds(w)].id
}

/// What the workspace-sequence helpers mean, in terms of each workspace's
/// definition: the identifiers in order, whether one has an identifier, and
/// which one that is when identifiers are distinct.
pub proof fn lemma_space_lookup(s: Seq<Workspace>, id: WorkspaceId)
    ensures
        space_ids(s) == s.map_values(|w: Workspace| w.spec_definition().id),
        has_space(s, id) <==> exists|i: int| 0 <= i < s.len() && (#[trigger] s[i]).spec_definition().id == id,
        distinct_ids(s) <==> forall|i: int, j: int|
            0 <= i < s.len() && 0 <= j < s.len() && i != j ==> s[i].spec_definition().id
                != s[j].spec_definition().id,
        has_space(s, id) ==> 0 <= space_at(s, id) < s.len() && space_of(s, id) == s[space_at(s, id)]
            && space_of(s, id).spec_definition().id == id,
        distinct_ids(s) ==> forall|i: int|
            0 <= i < s.len() && (#[trigger] s[i]).spec_definition().id == id ==> space_at(s, id) == i
                && space_of(s, id) == s[i],
{
    assert(space_ids(s) =~= s.map_values(|w: Workspace| w.spec_definition().id));
}

/// Which workspace owns a window: one that holds it.
pub proof fn lemma_window_owner(s: Seq<Workspace>, w: WindowId)
    ensures
        is_tracked(s, w) ==> exists|i: int|
            0 <= i < s.len() && (#[trigger] s[i]).holds(w) && owner(s, w) == s[i].spec_definition().id,
        is_tracked(s, w) && disjoint_members(s) ==> forall|i: int|
            0 <= i < s.len() && (#[trigger] s[i]).holds(w) ==> owner(s, w) == s[i].spec_definition().id,
{
    if is_tracked(s, w) {
        let k = choose|i: int| 0 <= i < s.len() && (#[trigger] s[i]).holds(w);
        assert(s[k].holds(w) && owner(s, w) == s[k].spec_definition().id);
    }
}

/// A configuration that loads is given back by the loaded manager: the
/// definitions in order, the active workspace, the policy and the rules are
/// the configuration's, which is what `config_snapshot` returns.
pub proof fn lemma_snapshot_round_trip(m: WorkspaceManager, c: WorkspaceConfig)
    requires
        m.built_from(c),
    ensures
        m.spaces().map_values(|w: Workspace| w.spec_definition()) == c.workspaces@,
        m.current() == c.active,
        m.policy() == c.dynamic_policy,
        m.rules() == c.placement_rules@,
{
    assert(m.spaces().map_values(|w: Workspace| w.spec_definition()) =~= c.workspaces@);
}

/// The name of a workspace, as text.
pub open spec fn ws_name(w: Workspace) -> Seq<char> {
    w.spec_definition().name@
}

/// The application a placement rule is for, as text.
pub open spec fn rule_app(r: PlacementRule) -> Seq<char> {
    r.application_id@
}

/// Every name is already normalized and no two workspaces share one.
pub open spec fn names_ok(s: Seq<Workspace>) -> bool {
    &&& forall|i: int| 0 <= i < s.len() ==> name_check(#[trigger] ws_name(s[i])) == Ok::<
        Seq<char>,
        WorkspaceError,
    >(ws_name(s[i]))
    &&& forall|i: int, j: int|
        0 <= i < s.len() && 0 <= j < s.len() && i != j ==> #[trigger] ws_name(s[i]) != #[trigger] ws_name(s[j])
}

/// Every rule names an application and no two name the same one.
pub open spec fn rules_ok(r: Seq<PlacementRule>) -> bool {
    &&& forall|k: int| 0 <= k < r.len() ==> !is_blank(#[trigger] rule_app(r[k]))
    &&& forall|a: int, b: int|
        0 <= a < r.len() && 0 <= b < r.len() && a != b ==> #[trigger] rule_app(r[a]) != #[trigger] rule_app(r[b])
}

proof fn lemma_names_remove(s: Seq<Workspace>, k: int)
    requires
        names_ok(s),
        0 <= k < s.len(),
    ensures
        names_ok(s.remove(k)),
{
    let t = s.remove(k);
    assert forall|i: int| 0 <= i < t.len() implies name_check(#[trigger] ws_name(t[i])) == Ok::<
        Seq<char>,
        WorkspaceError,
    >(ws_name(t[i])) by {
        if i < k {
            assert(t[i] == s[i]);
            assert(name_check(ws_name(s[i])) == Ok::<Seq<char>, WorkspaceError>(ws_name(s[i])));
        } else {
            assert(t[i] == s[i + 1]);
            assert(name_check(ws_name(s[i + 1])) == Ok::<Seq<char>, WorkspaceError>(ws_name(s[i + 1])));
        }
    }
    assert forall|i: int, j: int|
        0 <= i < t.len() && 0 <= j < t.len() && i != j implies #[trigger] ws_name(t[i]) != #[trigger] ws_name(t[j]) by {
        let si = if i < k { i } else { i + 1 };
        let sj = if j < k { j } else { j + 1 };
        assert(t[i] == s[si]);
        assert(t[j] == s[sj]);
        assert(ws_name(s[si]) != ws_name(s[sj]));
    }
}

proof fn lemma_names_update(s: Seq<Workspace>, k: int, w: Workspace)
    requires
        names_ok(s),
        0 <= k < s.len(),
        name_check(ws_name(w)) == Ok::<Seq<char>, WorkspaceError>(ws_name(w)),
        forall|j: int| 0 <= j < s.len() && j != k ==> #[trigger] ws_name(s[j]) != ws_name(w),
    ensures
        names_ok(s.update(k, w)),
{
    let t = s.update(k, w);
    assert forall|i: int| 0 <= i < t.len() implies name_check(#[trigger] ws_name(t[i])) == Ok::<
        Seq<char>,
        WorkspaceError,
    >(ws_name(t[i])) by {
        if i != k {
            assert(t[i] == s[i]);
            assert(name_check(ws_name(s[i])) == Ok::<Seq<char>, WorkspaceError>(ws_name(s[i])));
        }
    }
    assert forall|i: int, j: int|
        0 <= i < t.len() && 0 <= j < t.len() && i != j implies #[trigger] ws_name(t[i]) != #[trigger] ws_name(t[j]) by {
        if i != k {
            assert(t[i] == s[i]);
            assert(ws_name(s[i]) == ws_name(s[i]));
        }
        if j != k {
            assert(t[j] == s[j]);
            assert(ws_name(s[j]) == ws_name(s[j]));
        }
    }
}

proof fn lemma_names_push(s: Seq<Workspace>, w: Workspace)
    requires
        names_ok(s),
        name_check(ws_name(w)) == Ok::<Seq<char>, WorkspaceError>(ws_name(w)),
        forall|j: int| 0 <= j < s.len() ==> #[trigger] ws_name(s[j]) != ws_name(w),
    ensures
        names_ok(s.push(w)),
{
    let t = s.push(w);
    assert forall|i: int| 0 <= i < t.len() implies name_check(#[trigger] ws_name(t[i])) == Ok::<
        Seq<char>,
        WorkspaceError,
    >(ws_name(t[i])) by {
        if i < s.len() {
            assert(t[i] == s[i]);
            assert(name_check(ws_name(s[i])) == Ok::<Seq<char>, WorkspaceError>(ws_name(s[i])));
        }
    }
    assert forall|i: int, j: int|
        0 <= i < t.len() && 0 <= j < t.len() && i != j implies #[trigger] ws_name(t[i]) != #[trigger] ws_name(t[j]) by {
        if i < s.len() {
            assert(t[i] == s[i]);
            assert(ws_name(s[i]) == ws_name(s[i]));
        }
        if j < s.len() {
            assert(t[j] == s[j]);
            assert(ws_name(s[j]) == ws_name(s[j]));
        }
    }
}

proof fn lemma_names_same(s0: Seq<Workspace>, s: Seq<Workspace>)
    requires
        names_ok(s0),
        s.len() == s0.len(),
        forall|j: int| 0 <= j < s.len() ==> (#[trigger] s[j]).spec_definition() == s0[j].spec_definition(),
    ensures
        names_ok(s),
{
    assert forall|i: int| 0 <= i < s.len() implies name_check(#[trigger] ws_name(s[i])) == Ok::<
        Seq<char>,
        WorkspaceError,
    >(ws_name(s[i])) by {
        assert(ws_name(s[i]) == ws_name(s0[i]));
    }
    assert forall|i: int, j: int|
        0 <= i < s.len() && 0 <= j < s.len() && i != j implies #[trigger] ws_name(s[i]) != #[trigger] ws_name(s[j]) by {
        assert(ws_name(s[i]) == ws_name(s0[i]));
        assert(ws_name(s[j]) == ws_name(s0[j]));
    }
}

/// The sequence with every occurrence of `x` left out, order kept.
pub open spec fn without(s: Seq<WorkspaceId>, x: WorkspaceId) -> Seq<WorkspaceId>
    decreases s.len(),
{
    if s.len() == 0 {
        s
    } else if s.last() == x {
        without(s.drop_last(), x)
    } else {
        without(s.drop_last(), x).push(s.last())
    }
}

/// Most-recently-used order after `id` is brought to the front.
pub open spec fn touch(m: Seq<WorkspaceId>, id: WorkspaceId) -> Seq<WorkspaceId> {
    seq![id] + without(m, id)
}

/// The placement rules that do not target `id`, order kept.
pub open spec fn rules_without(s: Seq<PlacementRule>, id: WorkspaceId) -> Seq<PlacementRule>
    decreases s.len(),
{
    if s.len() == 0 {
        s
    } else if s.last().workspace == id {
        rules_without(s.drop_last(), id)
    } else {
        rules_without(s.drop_last(), id).push(s.last())
    }
}

proof fn lemma_space_at(s: Seq<Workspace>, i: int)
    requires
        distinct_ids(s),
        0 <= i < s.len(),
    ensures
        has_space(s, s[i].id),
        space_at(s, s[i].id) == i,
        space_of(s, s[i].id) == s[i],
{
    assert(s[i].id == s[i].id);
}

proof fn lemma_push_contains(s: Seq<WorkspaceId>, a: WorkspaceId)
    ensures
        forall|y: WorkspaceId| s.push(a).contains(y) <==> (s.contains(y) || y == a),
{
    assert forall|y: WorkspaceId| s.push(a).contains(y) <==> (s.contains(y) || y == a) by {
        if s.contains(y) {
            let k = choose|k: int| 0 <= k < s.len() && s[k] == y;
            assert(s.push(a)[k] == y);
        }
        if y == a {
            assert(s.push(a)[s.len() as int] == a);
        }
        if s.push(a).contains(y) {
            let k = choose|k: int| 0 <= k < s.len() + 1 && s.push(a)[k] == y;
            if k < s.len() {
                assert(s[k] == y);
            }
        }
    }
}

proof fn lemma_without(s: Seq<WorkspaceId>, x: WorkspaceId)
    ensures
        forall|y: WorkspaceId| without(s, x).contains(y) <==> (s.contains(y) && y != x),
        s.no_duplicates() ==> without(s, x).no_duplicates(),
        !s.contains(x) ==> without(s, x) == s,
        without(s, x).len() <= s.len(),
    decreases s.len(),
{
    if s.len() > 0 {
        let d = s.drop_last();
        let a = s.last();
        lemma_without(d, x);
        let w = without(d, x);
        assert(s =~= d.push(a));
        lemma_push_contains(d, a);
        lemma_push_contains(w, a);
        if a == x {
            assert(without(s, x) == w);
        } else {
            assert(without(s, x) == w.push(a));
        }
        assert forall|y: WorkspaceId| without(s, x).contains(y) <==> (s.contains(y) && y != x) by {
            assert(s.contains(y) <==> (d.contains(y) || y == a));
        }
        if s.no_duplicates() {
            assert(d.no_duplicates()) by {
                assert forall|i: int, j: int| 0 <= i < d.len() && 0 <= j < d.len() && i != j implies d[i] != d[j] by {
                    assert(d[i] == s[i] && d[j] == s[j]);
                }
            }
            assert(!d.contains(a)) by {
                if d.contains(a) {
                    let k = choose|k: int| 0 <= k < d.len() && d[k] == a;
                    assert(s[k] == s[s.len() - 1]);
                }
            }
            if a != x {
                assert(!w.contains(a));
                assert forall|i: int, j: int| 0 <= i < w.push(a).len() && 0 <= j < w.push(a).len() && i != j implies w.push(a)[i] != w.push(a)[j] by {
                    if i < w.len() && j < w.len() {
                    } else if i < w.len() {
                        assert(w.contains(w[i]));
                    } else if j < w.len() {
                        assert(w.contains(w[j]));
                    }
                }
            }
        }
        if !s.contains(x) {
            assert(s[s.len() - 1] == a);
        }
    }
}

proof fn lemma_without_first(s: Seq<WorkspaceId>, x: WorkspaceId)
    requires
        s.len() > 0,
        s[0] != x,
    ensures
        without(s, x).len() > 0,
        without(s, x)[0] == s[0],
    decreases s.len(),
{
    let d = s.drop_last();
    reveal_with_fuel(without, 2);
    if s.len() > 1 {
        assert(d[0] == s[0]);
        lemma_without_first(d, x);
        let w = without(d, x);
        if s.last() == x {
            assert(without(s, x) == w);
        } else {
            assert(without(s, x) == w.push(s.last()));
            assert(w.push(s.last())[0] == w[0]);
        }
    } else {
        assert(d.len() == 0);
        assert(s.last() == s[0]);
        assert(without(d, x) == d);
    }
}


/// Identifiers of a sequence of definitions.
pub open spec fn def_ids(defs: Seq<WorkspaceDefinition>) -> Seq<WorkspaceId> {
    defs.map_values(|d: WorkspaceDefinition| d.id)
}

/// What is wrong with the definition at position `i`, given those before it.
pub open spec fn definition_error(defs: Seq<WorkspaceDefinition>, i: int) -> Option<WorkspaceError> {
    let d = defs[i];
    match name_check(d.name@) {
        Err(e) => Some(e),
        Ok(t) => if t != d.name@ {
            Some(WorkspaceError::InvalidName)
        } else if exists|j: int| 0 <= j < i && (#[trigger] defs[j]).id == d.id {
            Some(WorkspaceError::DuplicateId(d.id))
        } else if exists|j: int| 0 <= j < i && (#[trigger] defs[j]).name@ == d.name@ {
            Some(WorkspaceError::DuplicateName(d.name))
        } else {
            None
        },
    }
}

/// The first error among the definitions before position `n`.
pub open spec fn definitions_error(defs: Seq<WorkspaceDefinition>, n: int) -> Option<WorkspaceError>
    decreases n,
{
    if n <= 0 {
        None
    } else {
        match definitions_error(defs, n - 1) {
            Some(e) => Some(e),
            None => definition_error(defs, n - 1),
        }
    }
}

/// What is wrong with the placement rule at position `i`, given those before it.
pub open spec fn rule_error(rules: Seq<PlacementRule>, known: Seq<WorkspaceId>, i: int) -> Option<
    WorkspaceError,
> {
    let r = rules[i];
    if is_blank(r.application_id@) {
        Some(WorkspaceError::InvalidApplicationId)
    } else if exists|j: int| 0 <= j < i && (#[trigger] rules[j]).application_id@ == r.application_id@ {
        Some(WorkspaceError::DuplicateApplicationRule(r.application_id))
    } else if !known.contains(r.workspace) {
        Some(WorkspaceError::RuleTargetMissing(r.workspace))
    } else {
        None
    }
}

/// The first error among the placement rules before position `n`.
pub open spec fn rules_error(rules: Seq<PlacementRule>, known: Seq<WorkspaceId>, n: int) -> Option<
    WorkspaceError,
>
    decreases n,
{
    if n <= 0 {
        None
    } else {
        match rules_error(rules, known, n - 1) {
            Some(e) => Some(e),
            None => rule_error(rules, known, n - 1),
        }
    }
}

/// The error a configuration is refused with, if any.
pub open spec fn config_error(config: WorkspaceConfig) -> Option<WorkspaceError> {
    let defs = config.workspaces@;
    if defs.len() == 0 {
        Some(WorkspaceError::NoWorkspaces)
    } else if definitions_error(defs, defs.len() as int) is Some {
        definitions_error(defs, defs.len() as int)
    } else if !def_ids(defs).contains(config.active) {
        Some(WorkspaceError::ActiveWorkspaceMissing(config.active))
    } else {
        rules_error(config.placement_rules@, def_ids(defs), config.placement_rules@.len() as int)
    }
}

/// The largest identifier value among the definitions, zero for none.
pub open spec fn max_id(defs: Seq<WorkspaceDefinition>) -> u32
    decreases defs.len(),
{
    if defs.len() == 0 {
        0
    } else {
        let m = max_id(defs.drop_last());
        if defs.last().id.value() > m {
            defs.last().id.value()
        } else {
            m
        }
    }
}

/// The identifier value after `m`, unless the space is exhausted.
pub open spec fn successor(m: u32) -> Option<u32> {
    if m < u32::MAX {
        Some((m + 1) as u32)
    } else {
        None
    }
}

proof fn lemma_definitions_ok(defs: Seq<WorkspaceDefinition>, n: int)
    requires
        definitions_error(defs, n) is None,
        n <= defs.len(),
    ensures
        forall|i: int| 0 <= i < n ==> definition_error(defs, i) is None,
    decreases n,
{
    if n > 0 {
        lemma_definitions_ok(defs, n - 1);
    }
}

proof fn lemma_rules_ok(rules: Seq<PlacementRule>, known: Seq<WorkspaceId>, n: int)
    requires
        rules_error(rules, known, n) is None,
        n <= rules.len(),
    ensures
        forall|i: int| 0 <= i < n ==> rule_error(rules, known, i) is None,
    decreases n,
{
    if n > 0 {
        lemma_rules_ok(rules, known, n - 1);
    }
}

proof fn lemma_definitions_clear(defs: Seq<WorkspaceDefinition>, n: int)
    requires
        0 <= n <= defs.len(),
        forall|i: int| 0 <= i < n ==> definition_error(defs, i) is None,
    ensures
        definitions_error(defs, n) is None,
    decreases n,
{
    if n > 0 {
        lemma_definitions_clear(defs, n - 1);
    }
}

proof fn lemma_rules_clear(rules: Seq<PlacementRule>, known: Seq<WorkspaceId>, n: int)
    requires
        0 <= n <= rules.len(),
        forall|i: int| 0 <= i < n ==> rule_error(rules, known, i) is None,
    ensures
        rules_error(rules, known, n) is None,
    decreases n,
{
    if n > 0 {
        lemma_rules_clear(rules, known, n - 1);
    }
}

proof fn lemma_max_id(defs: Seq<WorkspaceDefinition>)
    ensures
        forall|i: int| 0 <= i < defs.len() ==> (#[trigger] defs[i]).id.value() <= max_id(defs),
    decreases defs.len(),
{
    if defs.len() > 0 {
        let d = defs.drop_last();
        lemma_max_id(d);
        assert forall|i: int| 0 <= i < defs.len() implies (#[trigger] defs[i]).id.value() <= max_id(defs) by {
            if i < defs.len() - 1 {
                assert(defs[i] == d[i]);
            }
        }
    }
}

/// The identifiers of the definitions, in order.
fn definition_ids(defs: &Vec<WorkspaceDefinition>) -> (ids: Vec<WorkspaceId>)
    ensures
        ids@ == def_ids(defs@),
{
    let n = defs.len();
    let mut ids: Vec<WorkspaceId> = Vec::new();
    let mut i: usize = 0;
    while i < n
        invariant
            n == defs@.len(),
            i <= n,
            ids@ == def_ids(defs@).take(i as int),
        decreases n - i,
    {
        ids.push(defs[i].id);
        proof {
            assert(def_ids(defs@).take(i + 1) =~= def_ids(defs@).take(i as int).push(defs@[i as int].id));
        }
        i = i + 1;
    }
    proof {
        assert(def_ids(defs@).take(n as int) =~= def_ids(defs@));
    }
    ids
}

/// Checks a persisted configuration: at least one workspace, every name
/// already normalized, identifiers and names unique, the active workspace
/// among them, and every placement rule valid and aimed at a known workspace.
fn validate_config(config: &WorkspaceConfig) -> (r: Result<(), WorkspaceError>)
    ensures
        match config_error(*config) {
            Some(e) => r matches Err(x) && x == e,
            None => r is Ok,
        },
{
    if config.workspaces.len() == 0 {
        return Err(WorkspaceError::NoWorkspaces);
    }
    match validate_definitions(&config.workspaces) {
        Err(e) => return Err(e),
        Ok(()) => {},
    }
    let ids = definition_ids(&config.workspaces);
    if !contains_id(&ids, config.active) {
        return Err(WorkspaceError::ActiveWorkspaceMissing(config.active));
    }
    validate_rules(&config.placement_rules, &ids)
}

fn validate_definitions(defs: &Vec<WorkspaceDefinition>) -> (r: Result<(), WorkspaceError>)
    ensures
        match definitions_error(defs@, defs@.len() as int) {
            Some(e) => r matches Err(x) && x == e,
            None => r is Ok,
        },
{
    let n = defs.len();
    let mut i: usize = 0;
    while i < n
        invariant
            n == defs@.len(),
            i <= n,
            definitions_error(defs@, i as int) is None,
        decreases n - i,
    {
        let d = &defs[i];
        match normalize_name(d.name.as_str()) {
            Err(e) => {
                proof {
                    lemma_definitions_extend(defs@, i as int);
                }
                return Err(e);
            },
            Ok(t) => {
                if t != d.name {
                    proof {
                        lemma_definitions_extend(defs@, i as int);
                    }
                    return Err(WorkspaceError::InvalidName);
                }
            },
        }
        let mut j: usize = 0;
        while j < i
            invariant
                n == defs@.len(),
                j <= i < n,
                d == defs@[i as int],
                definitions_error(defs@, i as int) is None,
                name_check(d.name@) == Ok::<Seq<char>, WorkspaceError>(d.name@),
                forall|k: int| 0 <= k < j ==> (#[trigger] defs@[k]).id != d.id,
            decreases i - j,
        {
            if defs[j].id == d.id {
                proof {
                    lemma_definitions_extend(defs@, i as int);
                }
                return Err(WorkspaceError::DuplicateId(d.id));
            }
            j = j + 1;
        }
        let mut j: usize = 0;
        while j < i
            invariant
                n == defs@.len(),
                j <= i < n,
                d == defs@[i as int],
                definitions_error(defs@, i as int) is None,
                name_check(d.name@) == Ok::<Seq<char>, WorkspaceError>(d.name@),
                forall|k: int| 0 <= k < i ==> (#[trigger] defs@[k]).id != d.id,
                forall|k: int| 0 <= k < j ==> (#[trigger] defs@[k]).name@ != d.name@,
            decreases i - j,
        {
            if defs[j].name == d.name {
                proof {
                    lemma_definitions_extend(defs@, i as int);
                }
                return Err(WorkspaceError::DuplicateName(d.name.clone()));
            }
            j = j + 1;
        }
        proof {
            lemma_definitions_extend(defs@, i as int);
        }
        i = i + 1;
    }
    Ok(())
}

proof fn lemma_definitions_extend(defs: Seq<WorkspaceDefinition>, i: int)
    requires
        0 <= i < defs.len(),
        definitions_error(defs, i) is None,
    ensures
        definitions_error(defs, i + 1) == definition_error(defs, i),
        definition_error(defs, i) is Some ==> definitions_error(defs, defs.len() as int)
            == definition_error(defs, i),
{
    if definition_error(defs, i) is Some {
        lemma_definitions_stable(defs, i + 1, defs.len() as int);
    }
}

proof fn lemma_definitions_stable(defs: Seq<WorkspaceDefinition>, k: int, n: int)
    requires
        definitions_error(defs, k) is Some,
        k <= n,
    ensures
        definitions_error(defs, n) == definitions_error(defs, k),
    decreases n - k,
{
    if k < n {
        lemma_definitions_stable(defs, k, n - 1);
    }
}

proof fn lemma_rules_stable(rules: Seq<PlacementRule>, known: Seq<WorkspaceId>, k: int, n: int)
    requires
        rules_error(rules, known, k) is Some,
        k <= n,
    ensures
        rules_error(rules, known, n) == rules_error(rules, known, k),
    decreases n - k,
{
    if k < n {
        lemma_rules_stable(rules, known, k, n - 1);
    }
}

proof fn lemma_rules_extend(rules: Seq<PlacementRule>, known: Seq<WorkspaceId>, i: int)
    requires
        0 <= i < rules.len(),
        rules_error(rules, known, i) is None,
    ensures
        rules_error(rules, known, i + 1) == rule_error(rules, known, i),
        rule_error(rules, known, i) is Some ==> rules_error(rules, known, rules.len() as int)
            == rule_error(rules, known, i),
{
    if rule_error(rules, known, i) is Some {
        lemma_rules_stable(rules, known, i + 1, rules.len() as int);
    }
}

fn contains_id(ids: &Vec<WorkspaceId>, id: WorkspaceId) -> (r: bool)
    ensures
        r == ids@.contains(id),
{
    let mut i: usize = 0;
    while i < ids.len()
        invariant
            i <= ids@.len(),
            forall|k: int| 0 <= k < i ==> ids@[k] != id,
        decreases ids@.len() - i,
    {
        if ids[i] == id {
            return true;
        }
        i = i + 1;
    }
    false
}

fn validate_rules(rules: &Vec<PlacementRule>, known: &Vec<WorkspaceId>) -> (r: Result<(), WorkspaceError>)
    ensures
        match rules_error(rules@, known@, rules@.len() as int) {
            Some(e) => r matches Err(x) && x == e,
            None => r is Ok,
        },
{
    let n = rules.len();
    let mut i: usize = 0;
    while i < n
        invariant
            n == rules@.len(),
            i <= n,
            rules_error(rules@, known@, i as int) is None,
        decreases n - i,
    {
        let rule = &rules[i];
        if str_is_blank(rule.application_id.as_str()) {
            proof {
                lemma_rules_extend(rules@, known@, i as int);
            }
            return Err(WorkspaceError::InvalidApplicationId);
        }
        let mut j: usize = 0;
        while j < i
            invariant
                n == rules@.len(),
                j <= i < n,
                rule == rules@[i as int],
                rules_error(rules@, known@, i as int) is None,
                !is_blank(rule.application_id@),
                forall|k: int| 0 <= k < j ==> (#[trigger] rules@[k]).application_id@ != rule.application_id@,
            decreases i - j,
        {
            if rules[j].application_id == rule.application_id {
                proof {
                    lemma_rules_extend(rules@, known@, i as int);
                }
                return Err(WorkspaceError::DuplicateApplicationRule(rule.application_id.clone()));
            }
            j = j + 1;
        }
        if !contains_id(known, rule.workspace) {
            proof {
                lemma_rules_extend(rules@, known@, i as int);
            }
            return Err(WorkspaceError::RuleTargetMissing(rule.workspace));
        }
        proof {
            lemma_rules_extend(rules@, known@, i as int);
        }
        i = i + 1;
    }
    Ok(())
}


/// Owns workspace state while keeping graphics backends and monitor topology out
/// of the model. Window geometry stays with the window manager.
pub struct WorkspaceManager {
    workspaces: Vec<Workspace>,
    active: WorkspaceId,
    mru: Vec<WorkspaceId>,
    dynamic_policy: DynamicPolicy,
    placement_rules: Vec<PlacementRule>,
    next_id: Option<u32>,
    events: Vec<WorkspaceEvent>,
}

/// What activating workspace `id` does: it becomes active and most recently
/// used, an `Activated` event is queued when the active workspace changed,
/// and nothing else moves.
pub open spec fn activation(before: WorkspaceManager, after: WorkspaceManager, id: WorkspaceId) -> bool {
    &&& after.current() == id
    &&& after.recency() == touch(before.recency(), id)
    &&& after.pending() == if before.current() == id {
        before.pending()
    } else {
        before.pending().push(WorkspaceEvent::Activated { previous: before.current(), current: id })
    }
    &&& after.spaces() == before.spaces()
    &&& after.policy() == before.policy()
    &&& after.rules() == before.rules()
    &&& after.next_raw() == before.next_raw()
}

impl WorkspaceManager {
    /// The workspaces, in creation order.
    pub closed spec fn spaces(&self) -> Seq<Workspace> {
        self.workspaces@
    }

    /// The active workspace.
    pub closed spec fn current(&self) -> WorkspaceId {
        self.active
    }

    /// Most-recently-used order, most recent first.
    pub closed spec fn recency(&self) -> Seq<WorkspaceId> {
        self.mru@
    }

    pub closed spec fn policy(&self) -> DynamicPolicy {
        self.dynamic_policy
    }

    pub closed spec fn rules(&self) -> Seq<PlacementRule> {
        self.placement_rules@
    }

    /// The value the next created workspace gets, if any is left.
    pub closed spec fn next_raw(&self) -> Option<u32> {
        self.next_id
    }

    /// Events not yet drained, oldest first.
    pub closed spec fn pending(&self) -> Seq<WorkspaceEvent> {
        self.events@
    }

    /// The workspace with this identifier.
    pub open spec fn space(&self, id: WorkspaceId) -> Workspace {
        space_of(self.spaces(), id)
    }

    pub open spec fn has(&self, id: WorkspaceId) -> bool {
        has_space(self.spaces(), id)
    }

    /// The invariant every operation keeps.
    pub closed spec fn wf(&self) -> bool {
        let s = self.spaces();
        &&& s.len() >= 1
        &&& distinct_ids(s)
        &&& forall|i: int| 0 <= i < s.len() ==> (#[trigger] s[i]).wf()
        &&& disjoint_members(s)
        &&& has_space(s, self.active)
        &&& self.mru@.len() >= 1
        &&& self.mru@[0] == self.active
        &&& self.mru@.no_duplicates()
        &&& forall|k: int| 0 <= k < self.mru@.len() ==> has_space(s, #[trigger] self.mru@[k])
        &&& forall|i: int| 0 <= i < s.len() ==> self.mru@.contains(#[trigger] s[i].id)
        &&& (self.next_id matches Some(n) ==> forall|i: int|
            0 <= i < s.len() ==> (#[trigger] s[i]).id.value() < n)
        &&& forall|k: int|
            0 <= k < self.placement_rules@.len() ==> has_space(
                s,
                (#[trigger] self.placement_rules@[k]).workspace,
            )
        &&& names_ok(s)
        &&& rules_ok(self.placement_rules@)
    }

    /// The manager that a valid configuration gives.
    pub open spec fn built_from(&self, config: WorkspaceConfig) -> bool {
        let defs = config.workspaces@;
        &&& self.spaces().len() == defs.len()
        &&& forall|i: int|
            0 <= i < defs.len() ==> (#[trigger] self.spaces()[i]).spec_definition() == defs[i]
                && self.spaces()[i].members().len() == 0
        &&& self.current() == config.active
        &&& self.recency() == touch(def_ids(defs), config.active)
        &&& self.policy() == config.dynamic_policy
        &&& self.rules() == config.placement_rules@
        &&& self.next_raw() == successor(max_id(defs))
        &&& self.pending().len() == 0
    }

    /// Creates a minimal valid manager holding one fixed workspace named by the
    /// caller.
    pub fn with_single_fixed(name: String) -> (r: Result<Self, WorkspaceError>)
        ensures
            match name_check(name@) {
                Err(e) => r matches Err(x) && x == e,
                Ok(t) => if t != name@ {
                    r matches Err(x) && x == WorkspaceError::InvalidName
                } else {
                    r matches Ok(m) && m.wf() && m.spaces().len() == 1 && m.current().value() == 1
                        && m.spaces()[0].spec_definition() == (WorkspaceDefinition {
                        id: m.current(),
                        name,
                        kind: WorkspaceKind::Fixed,
                    }) && m.spaces()[0].members().len() == 0 && m.recency() == seq![m.current()] && m.policy()
                        == DynamicPolicy::RemoveEmptyInactive && m.rules().len() == 0
                        && m.next_raw() == Some(2u32) && m.pending().len() == 0
                },
            },
    {
        let id = match WorkspaceId::new(1) {
            Ok(id) => id,
            Err(_) => return Err(WorkspaceError::IdExhausted),
        };
        let ghost nm = name;
        let mut defs: Vec<WorkspaceDefinition> = Vec::new();
        defs.push(WorkspaceDefinition { id, name, kind: WorkspaceKind::Fixed });
        let config = WorkspaceConfig {
            active: id,
            dynamic_policy: DynamicPolicy::RemoveEmptyInactive,
            workspaces: defs,
            placement_rules: Vec::new(),
        };
        proof {
            let d = config.workspaces@;
            reveal_with_fuel(definitions_error, 2);
            reveal_with_fuel(max_id, 2);
            assert(d.len() == 1);
            assert(def_ids(d)[0] == id);
            assert(def_ids(d).contains(id));
            assert(definitions_error(d, 1) == definition_error(d, 0));
            assert(rules_error(config.placement_rules@, def_ids(d), 0) is None);
        }
        let r = Self::from_config(config);
        proof {
            if r is Ok {
                let m = r->Ok_0;
                let d = config.workspaces@;
                lemma_without(def_ids(d), id);
                assert(def_ids(d) =~= seq![id]);
                assert(without(def_ids(d), id).len() == 0) by {
                    if without(def_ids(d), id).len() > 0 {
                        let y = without(def_ids(d), id)[0];
                        assert(without(def_ids(d), id).contains(y));
                        assert(def_ids(d).contains(y));
                        let k = choose|k: int| 0 <= k < def_ids(d).len() && def_ids(d)[k] == y;
                        assert(k == 0);
                    }
                }
                assert(m.recency() =~= seq![m.current()]);
                assert(m.spaces()[0].spec_definition() == d[0]);
            }
        }
        r
    }

    /// Reconstructs the persistent workspace definitions. Window membership
    /// starts empty: restoring running windows belongs to session state.
    pub fn from_config(config: WorkspaceConfig) -> (r: Result<Self, WorkspaceError>)
        ensures
            match config_error(config) {
                Some(e) => r matches Err(x) && x == e,
                None => r matches Ok(m) && m.wf() && m.built_from(config),
            },
    {
        match validate_config(&config) {
            Err(e) => return Err(e),
            Ok(()) => {},
        }
        let ghost defs = config.workspaces@;
        let n = config.workspaces.len();
        let ids = definition_ids(&config.workspaces);
        proof {
            lemma_definitions_ok(defs, n as int);
            lemma_rules_ok(config.placement_rules@, def_ids(defs), config.placement_rules@.len() as int);
            lemma_max_id(defs);
        }
        let active = config.active;
        let mut workspaces: Vec<Workspace> = Vec::new();
        let mut maximum: u32 = 0;
        let mut i: usize = 0;
        while i < n
            invariant
                n == defs.len(),
                defs == config.workspaces@,
                i <= n,
                workspaces@.len() == i,
                forall|k: int| 0 <= k < i ==> (#[trigger] workspaces@[k]).spec_definition() == defs[k]
                    && workspaces@[k].members().len() == 0,
                maximum == max_id(defs.take(i as int)),
            decreases n - i,
        {
            let d = config.workspaces[i].duplicate();
            let value = d.id.get();
            if value > maximum {
                maximum = value;
            }
            workspaces.push(Workspace::from_definition(d));
            proof {
                assert(defs.take(i + 1).drop_last() =~= defs.take(i as int));
            }
            i = i + 1;
        }
        proof {
            assert(defs.take(n as int) =~= defs);
        }
        let mut mru: Vec<WorkspaceId> = Vec::new();
        mru.push(active);
        let mut i: usize = 0;
        while i < n
            invariant
                n == ids@.len(),
                ids@ == def_ids(defs),
                i <= n,
                mru@ == seq![active] + without(ids@.take(i as int), active),
            decreases n - i,
        {
            let id = ids[i];
            if id != active {
                mru.push(id);
            }
            proof {
                assert(ids@.take(i + 1).drop_last() =~= ids@.take(i as int));
                assert(ids@.take(i + 1).last() == id);
            }
            i = i + 1;
        }
        proof {
            assert(ids@.take(n as int) =~= ids@);
        }
        let m = WorkspaceManager {
            workspaces,
            active,
            mru,
            dynamic_policy: config.dynamic_policy,
            placement_rules: config.placement_rules,
            next_id: maximum.checked_add(1),
            events: Vec::new(),
        };
        proof {
            let s = m.workspaces@;
            lemma_defs_names_ok(s, defs);
            lemma_rules_error_ok(config.placement_rules@, def_ids(defs));
            assert(space_ids(s) =~= def_ids(defs));
            assert forall|i: int, j: int| 0 <= i < s.len() && 0 <= j < s.len() && i != j implies s[i].id != s[j].id by {
                assert(s[i].id == defs[i].id && s[j].id == defs[j].id);
                if i < j {
                    assert(definition_error(defs, j) is None);
                } else {
                    assert(definition_error(defs, i) is None);
                }
            }
            assert forall|id: WorkspaceId| def_ids(defs).contains(id) implies has_space(s, id) by {
                let k = choose|k: int| 0 <= k < def_ids(defs).len() && def_ids(defs)[k] == id;
                assert(s[k].id == id);
            }
            assert forall|i: int| 0 <= i < s.len() implies (#[trigger] s[i]).wf() by {
                assert(s[i].members().len() == 0);
            }
            lemma_without(def_ids(defs), active);
            lemma_push_contains(seq![active], active);
            assert(def_ids(defs).no_duplicates()) by {
                assert forall|i: int, j: int| 0 <= i < def_ids(defs).len() && 0 <= j < def_ids(defs).len() && i != j implies def_ids(defs)[i] != def_ids(defs)[j] by {
                    assert(s[i].id != s[j].id);
                }
            }
            let w = without(def_ids(defs), active);
            assert(m.mru@ == touch(def_ids(defs), active));
            assert forall|a: int, b: int| 0 <= a < m.mru@.len() && 0 <= b < m.mru@.len() && a != b implies m.mru@[a] != m.mru@[b] by {
                if a > 0 && b > 0 {
                    assert(m.mru@[a] == w[a - 1] && m.mru@[b] == w[b - 1]);
                } else if a == 0 {
                    assert(m.mru@[b] == w[b - 1]);
                    assert(w.contains(w[b - 1]));
                } else {
                    assert(m.mru@[a] == w[a - 1]);
                    assert(w.contains(w[a - 1]));
                }
            }
            assert forall|k: int| 0 <= k < m.mru@.len() implies has_space(s, #[trigger] m.mru@[k]) by {
                if k > 0 {
                    assert(m.mru@[k] == w[k - 1]);
                    assert(w.contains(w[k - 1]));
                }
            }
            assert forall|k: int| 0 <= k < m.placement_rules@.len() implies has_space(
                s,
                (#[trigger] m.placement_rules@[k]).workspace,
            ) by {
                assert(rule_error(config.placement_rules@, def_ids(defs), k) is None);
            }
            assert forall|i: int| 0 <= i < s.len() implies m.mru@.contains(#[trigger] s[i].id) by {
                if s[i].id == active {
                    assert(m.mru@[0] == active);
                } else {
                    assert(def_ids(defs)[i] == s[i].id);
                    assert(def_ids(defs).contains(s[i].id));
                    assert(w.contains(s[i].id));
                    let k = choose|k: int| 0 <= k < w.len() && w[k] == s[i].id;
                    assert(m.mru@[k + 1] == s[i].id);
                }
            }
            if m.next_id is Some {
                assert forall|i: int| 0 <= i < s.len() implies (#[trigger] s[i]).id.value() < m.next_id->Some_0 by {
                    assert(defs[i].id.value() <= max_id(defs));
                }
            }
        }
        Ok(m)
    }
}


proof fn lemma_owner(s: Seq<Workspace>, i: int, w: WindowId)
    requires
        disjoint_members(s),
        0 <= i < s.len(),
        s[i].holds(w),
    ensures
        is_tracked(s, w),
        owner(s, w) == s[i].id,
{
    let j = choose|j: int| 0 <= j < s.len() && (#[trigger] s[j]).holds(w);
    if j != i {
        assert(!s[j].holds(w));
    }
}

proof fn lemma_touch_front(m: Seq<WorkspaceId>)
    requires
        m.len() >= 1,
        m.no_duplicates(),
    ensures
        touch(m, m[0]) == m,
{
    let x = m[0];
    let t = m.drop_first();
    assert(m =~= seq![x] + t);
    assert(!t.contains(x)) by {
        if t.contains(x) {
            let k = choose|k: int| 0 <= k < t.len() && t[k] == x;
            assert(m[k + 1] == m[0]);
        }
    }
    lemma_without_prepend(x, t, x);
    lemma_without(t, x);
}

proof fn lemma_without_prepend(a: WorkspaceId, t: Seq<WorkspaceId>, x: WorkspaceId)
    ensures
        without(seq![a] + t, x) == if a == x {
            without(t, x)
        } else {
            seq![a] + without(t, x)
        },
    decreases t.len(),
{
    if t.len() > 0 {
        let d = t.drop_last();
        lemma_without_prepend(a, d, x);
        assert((seq![a] + t).drop_last() =~= seq![a] + d);
        assert((seq![a] + t).last() == t.last());
        if a != x {
            assert((seq![a] + without(d, x)).push(t.last()) =~= seq![a] + without(d, x).push(t.last()));
        }
    } else {
        assert(seq![a] + t =~= seq![a]);
        reveal_with_fuel(without, 2);
        assert(seq![a].drop_last() =~= Seq::<WorkspaceId>::empty());
        if a != x {
            assert(seq![a] + t =~= Seq::<WorkspaceId>::empty().push(a));
        }
    }
}

impl Workspace {
    pub(crate) fn contains_window(&self, window: WindowId) -> (r: bool)
        ensures
            r == self.holds(window),
    {
        let mut i: usize = 0;
        while i < self.windows.len()
            invariant
                i <= self.windows@.len(),
                forall|k: int| 0 <= k < i ==> self.windows@[k] != window,
            decreases self.windows@.len() - i,
        {
            if self.windows[i] == window {
                return true;
            }
            i = i + 1;
        }
        false
    }
}

impl WorkspaceManager {
    fn position(&self, id: WorkspaceId) -> (r: Option<usize>)
        requires
            distinct_ids(self.spaces()),
        ensures
            r is None <==> !has_space(self.spaces(), id),
            r matches Some(i) ==> i < self.spaces().len() && self.spaces()[i as int].id == id
                && space_at(self.spaces(), id) == i,
    {
        let mut i: usize = 0;
        while i < self.workspaces.len()
            invariant
                i <= self.workspaces@.len(),
                distinct_ids(self.workspaces@),
                forall|k: int| 0 <= k < i ==> (#[trigger] self.workspaces@[k]).id != id,
            decreases self.workspaces@.len() - i,
        {
            if self.workspaces[i].id == id {
                proof {
                    lemma_space_at(self.workspaces@, i as int);
                }
                return Some(i);
            }
            i = i + 1;
        }
        None
    }

    pub fn active_id(&self) -> (r: WorkspaceId)
        ensures
            r == self.current(),
    {
        self.active
    }

    pub fn active(&self) -> (r: &Workspace)
        requires
            self.wf(),
        ensures
            *r == self.space(self.current()),
    {
        match self.position(self.active) {
            Some(i) => &self.workspaces[i],
            None => &self.workspaces[0],
        }
    }

    pub fn workspace(&self, id: WorkspaceId) -> (r: Option<&Workspace>)
        requires
            self.wf(),
        ensures
            r is Some <==> self.has(id),
            r matches Some(w) ==> *w == self.space(id),
    {
        match self.position(id) {
            Some(i) => Some(&self.workspaces[i]),
            None => None,
        }
    }

    /// The workspaces, in creation order.
    pub fn workspaces(&self) -> (r: &[Workspace])
        ensures
            r@ == self.spaces(),
    {
        self.workspaces.as_slice()
    }

    /// Most-recently-used order, most recent first.
    pub fn mru_order(&self) -> (r: &[WorkspaceId])
        ensures
            r@ == self.recency(),
    {
        self.mru.as_slice()
    }

    /// The most recently used workspace other than the active one.
    pub fn previous_mru(&self) -> (r: Option<WorkspaceId>)
        requires
            self.wf(),
        ensures
            r == if self.recency().len() > 1 {
                Some(self.recency()[1])
            } else {
                None::<WorkspaceId>
            },
    {
        let mut i: usize = 0;
        while i < self.mru.len()
            invariant
                i <= self.mru@.len(),
                self.wf(),
                forall|k: int| 0 <= k < i ==> self.mru@[k] == self.active,
            decreases self.mru@.len() - i,
        {
            if self.mru[i] != self.active {
                proof {
                    if i > 1 {
                        assert(self.mru@[0] == self.mru@[1]);
                    }
                }
                return Some(self.mru[i]);
            }
            i = i + 1;
        }
        proof {
            if self.mru@.len() > 1 {
                assert(self.mru@[0] == self.mru@[1]);
            }
        }
        None
    }

    /// The windows of the active workspace, ascending by identifier.
    pub fn active_windows(&self) -> (r: Vec<WindowId>)
        requires
            self.wf(),
        ensures
            r@ == self.space(self.current()).members(),
    {
        self.active().windows()
    }

    /// The workspace a window belongs to, if it is tracked.
    pub fn workspace_of(&self, window: WindowId) -> (r: Option<WorkspaceId>)
        requires
            self.wf(),
        ensures
            r == if is_tracked(self.spaces(), window) {
                Some(owner(self.spaces(), window))
            } else {
                None::<WorkspaceId>
            },
    {
        let mut i: usize = 0;
        while i < self.workspaces.len()
            invariant
                i <= self.workspaces@.len(),
                self.wf(),
                forall|k: int| 0 <= k < i ==> !(#[trigger] self.workspaces@[k]).holds(window),
            decreases self.workspaces@.len() - i,
        {
            if self.workspaces[i].contains_window(window) {
                proof {
                    lemma_owner(self.workspaces@, i as int, window);
                }
                return Some(self.workspaces[i].id);
            }
            i = i + 1;
        }
        None
    }

    pub fn dynamic_policy(&self) -> (r: DynamicPolicy)
        ensures
            r == self.policy(),
    {
        self.dynamic_policy
    }

    pub fn set_dynamic_policy(&mut self, policy: DynamicPolicy)
        requires
            old(self).wf(),
        ensures
            final(self).wf(),
            final(self).policy() == policy,
            final(self).spaces() == old(self).spaces(),
            final(self).current() == old(self).current(),
            final(self).recency() == old(self).recency(),
            final(self).rules() == old(self).rules(),
            final(self).next_raw() == old(self).next_raw(),
            final(self).pending() == old(self).pending(),
    {
        self.dynamic_policy = policy;
    }

    pub fn placement_rules(&self) -> (r: &[PlacementRule])
        ensures
            r@ == self.rules(),
    {
        self.placement_rules.as_slice()
    }

    fn ids(&self) -> (r: Vec<WorkspaceId>)
        ensures
            r@ == space_ids(self.spaces()),
    {
        let mut ids: Vec<WorkspaceId> = Vec::new();
        let mut i: usize = 0;
        while i < self.workspaces.len()
            invariant
                i <= self.workspaces@.len(),
                ids@ == space_ids(self.workspaces@).take(i as int),
            decreases self.workspaces@.len() - i,
        {
            ids.push(self.workspaces[i].id);
            proof {
                assert(space_ids(self.workspaces@).take(i + 1) =~= space_ids(self.workspaces@).take(
                    i as int,
                ).push(self.workspaces@[i as int].id));
            }
            i = i + 1;
        }
        proof {
            assert(space_ids(self.workspaces@).take(i as int) =~= space_ids(self.workspaces@));
        }
        ids
    }

    /// Replaces the placement rules, only once every rule has been validated.
    pub fn set_placement_rules(&mut self, rules: Vec<PlacementRule>) -> (r: Result<(), WorkspaceError>)
        requires
            old(self).wf(),
        ensures
            final(self).wf(),
            match rules_error(rules@, space_ids(old(self).spaces()), rules@.len() as int) {
                Some(e) => r matches Err(x) && x == e && final(self).rules() == old(self).rules(),
                None => r is Ok && final(self).rules() == rules@,
            },
            final(self).spaces() == old(self).spaces(),
            final(self).current() == old(self).current(),
            final(self).recency() == old(self).recency(),
            final(self).policy() == old(self).policy(),
            final(self).next_raw() == old(self).next_raw(),
            final(self).pending() == old(self).pending(),
    {
        let ids = self.ids();
        match validate_rules(&rules, &ids) {
            Err(e) => return Err(e),
            Ok(()) => {},
        }
        proof {
            lemma_rules_ok(rules@, ids@, rules@.len() as int);
            lemma_rules_error_ok(rules@, ids@);
            assert forall|k: int| 0 <= k < rules@.len() implies has_space(
                self.workspaces@,
                (#[trigger] rules@[k]).workspace,
            ) by {
                assert(rule_error(rules@, ids@, k) is None);
                let j = choose|j: int| 0 <= j < ids@.len() && ids@[j] == rules@[k].workspace;
                assert(self.workspaces@[j].id == rules@[k].workspace);
            }
        }
        self.placement_rules = rules;
        Ok(())
    }

    fn touch_mru(&mut self, id: WorkspaceId)
        ensures
            final(self).recency() == touch(old(self).recency(), id),
            final(self).spaces() == old(self).spaces(),
            final(self).current() == old(self).current(),
            final(self).policy() == old(self).policy(),
            final(self).rules() == old(self).rules(),
            final(self).next_raw() == old(self).next_raw(),
            final(self).pending() == old(self).pending(),
    {
        let kept = retain_other(&self.mru, id);
        let mut mru: Vec<WorkspaceId> = Vec::new();
        mru.push(id);
        let mut i: usize = 0;
        while i < kept.len()
            invariant
                i <= kept@.len(),
                mru@ == seq![id] + kept@.take(i as int),
            decreases kept@.len() - i,
        {
            mru.push(kept[i]);
            proof {
                assert(seq![id] + kept@.take(i + 1) =~= (seq![id] + kept@.take(i as int)).push(kept@[i as int]));
            }
            i = i + 1;
        }
        proof {
            assert(kept@.take(i as int) =~= kept@);
        }
        self.mru = mru;
    }

    /// Makes a workspace active and most recently used.
    pub fn activate(&mut self, id: WorkspaceId) -> (r: Result<(), WorkspaceError>)
        requires
            old(self).wf(),
        ensures
            final(self).wf(),
            !old(self).has(id) ==> (r matches Err(e) && e == WorkspaceError::WorkspaceNotFound(id)
                && *final(self) == *old(self)),
            old(self).has(id) ==> r is Ok && activation(*old(self), *final(self), id),
    {
        if self.position(id).is_none() {
            return Err(WorkspaceError::WorkspaceNotFound(id));
        }
        let ghost before = *self;
        if self.active == id {
            self.touch_mru(id);
            proof {
                lemma_touch_front(before.mru@);
            }
            return Ok(());
        }
        let previous = self.active;
        self.active = id;
        self.touch_mru(id);
        self.events.push(WorkspaceEvent::Activated { previous, current: id });
        proof {
            lemma_touch_wf(before.mru@, id, before.workspaces@);
            assert forall|i: int| 0 <= i < self.workspaces@.len() implies self.mru@.contains(#[trigger] self.workspaces@[i].id) by {
                assert(before.mru@.contains(before.workspaces@[i].id));
            }
        }
        Ok(())
    }
}

/// The sequence without `x`, as a new vector.
fn retain_other(v: &Vec<WorkspaceId>, x: WorkspaceId) -> (r: Vec<WorkspaceId>)
    ensures
        r@ == without(v@, x),
{
    let mut out: Vec<WorkspaceId> = Vec::new();
    let mut i: usize = 0;
    while i < v.len()
        invariant
            i <= v@.len(),
            out@ == without(v@.take(i as int), x),
        decreases v@.len() - i,
    {
        if v[i] != x {
            out.push(v[i]);
        }
        proof {
            assert(v@.take(i + 1).drop_last() =~= v@.take(i as int));
            assert(v@.take(i + 1).last() == v@[i as int]);
        }
        i = i + 1;
    }
    proof {
        assert(v@.take(i as int) =~= v@);
    }
    out
}

proof fn lemma_touch_wf(m: Seq<WorkspaceId>, id: WorkspaceId, s: Seq<Workspace>)
    requires
        m.no_duplicates(),
        forall|k: int| 0 <= k < m.len() ==> has_space(s, #[trigger] m[k]),
        has_space(s, id),
    ensures
        touch(m, id).len() >= 1,
        touch(m, id)[0] == id,
        touch(m, id).no_duplicates(),
        forall|k: int| 0 <= k < touch(m, id).len() ==> has_space(s, #[trigger] touch(m, id)[k]),
        forall|y: WorkspaceId| m.contains(y) ==> touch(m, id).contains(y),
{
    let w = without(m, id);
    lemma_without(m, id);
    let t = touch(m, id);
    assert forall|a: int, b: int| 0 <= a < t.len() && 0 <= b < t.len() && a != b implies t[a] != t[b] by {
        if a > 0 && b > 0 {
            assert(t[a] == w[a - 1] && t[b] == w[b - 1]);
        } else if a == 0 {
            assert(t[b] == w[b - 1]);
            assert(w.contains(w[b - 1]));
        } else {
            assert(t[a] == w[a - 1]);
            assert(w.contains(w[a - 1]));
        }
    }
    assert(t.len() == w.len() + 1);
    assert forall|k: int| 0 <= k < t.len() implies has_space(s, #[trigger] t[k]) by {
        if k > 0 {
            let y = w[k - 1];
            assert(t[k] == y);
            assert(w.contains(y));
            assert(m.contains(y));
            let j = choose|j: int| 0 <= j < m.len() && m[j] == y;
            assert(has_space(s, m[j]));
        }
    }
    assert forall|y: WorkspaceId| m.contains(y) implies touch(m, id).contains(y) by {
        if y == id {
            assert(t[0] == id);
        } else {
            assert(w.contains(y));
            let k = choose|k: int| 0 <= k < w.len() && w[k] == y;
            assert(t[k + 1] == y);
        }
    }
}


/// Some workspace other than `id` has this name.
pub closed spec fn name_taken(s: Seq<Workspace>, t: Seq<char>, except: Option<WorkspaceId>) -> bool {
    exists|i: int|
        0 <= i < s.len() && (#[trigger] s[i]).name@ == t && (except matches Some(x) ==> s[i].id != x)
}

/// Whether a name is in use: some workspace, other than the excepted one,
/// carries it.
pub proof fn lemma_name_taken(s: Seq<Workspace>, t: Seq<char>, except: Option<WorkspaceId>)
    ensures
        name_taken(s, t, except) <==> exists|i: int|
            0 <= i < s.len() && (#[trigger] s[i]).spec_definition().name@ == t && (except matches Some(x)
                ==> s[i].spec_definition().id != x),
{
}

impl WorkspaceManager {
    fn name_in_use(&self, t: &String, except: Option<WorkspaceId>) -> (r: bool)
        ensures
            r == name_taken(self.spaces(), t@, except),
    {
        let mut i: usize = 0;
        while i < self.workspaces.len()
            invariant
                i <= self.workspaces@.len(),
                forall|k: int|
                    0 <= k < i ==> !((#[trigger] self.workspaces@[k]).name@ == t@ && (except matches Some(
                        x,
                    ) ==> self.workspaces@[k].id != x)),
            decreases self.workspaces@.len() - i,
        {
            let other = match except {
                Some(x) => self.workspaces[i].id != x,
                None => true,
            };
            if other && self.workspaces[i].name == *t {
                return true;
            }
            i = i + 1;
        }
        false
    }

    pub fn create_fixed(&mut self, name: String) -> (r: Result<WorkspaceId, WorkspaceError>)
        requires
            old(self).wf(),
        ensures
            final(self).wf(),
            old(self).created(*final(self), name@, WorkspaceKind::Fixed, r),
    {
        self.create(name, WorkspaceKind::Fixed)
    }

    pub fn create_dynamic(&mut self, name: String) -> (r: Result<WorkspaceId, WorkspaceError>)
        requires
            old(self).wf(),
        ensures
            final(self).wf(),
            old(self).created(*final(self), name@, WorkspaceKind::Dynamic, r),
    {
        self.create(name, WorkspaceKind::Dynamic)
    }

    /// What creating a workspace from `name` of this kind gives.
    pub open spec fn created(
        self,
        after: WorkspaceManager,
        name: Seq<char>,
        kind: WorkspaceKind,
        r: Result<WorkspaceId, WorkspaceError>,
    ) -> bool {
        match name_check(name) {
            Err(e) => r matches Err(x) && x == e && after == self,
            Ok(t) => if name_taken(self.spaces(), t, None) {
                &&& r matches Err(x) && x matches WorkspaceError::DuplicateName(n) && n@ == t
                &&& after == self
            } else if self.next_raw() is None {
                r matches Err(x) && x == WorkspaceError::IdExhausted && after == self
            } else {
                let n = self.next_raw()->Some_0;
                &&& r matches Ok(id) && id.value() == n
                &&& after.spaces().len() == self.spaces().len() + 1
                &&& after.spaces().drop_last() == self.spaces()
                &&& after.spaces().last().spec_definition().id == r->Ok_0
                &&& after.spaces().last().spec_definition().name@ == t
                &&& after.spaces().last().spec_definition().kind == kind
                &&& after.spaces().last().members().len() == 0
                &&& after.recency() == self.recency().push(r->Ok_0)
                &&& after.next_raw() == successor(n)
                &&& after.pending().len() == self.pending().len() + 1
                &&& after.pending().drop_last() == self.pending()
                &&& after.pending().last() matches WorkspaceEvent::Created { workspace, name: nm, kind: k }
                    && workspace == r->Ok_0 && nm@ == t && k == kind
                &&& after.current() == self.current()
                &&& after.policy() == self.policy()
                &&& after.rules() == self.rules()
            },
        }
    }

    #[verifier::rlimit(50)]
    fn create(&mut self, name: String, kind: WorkspaceKind) -> (r: Result<WorkspaceId, WorkspaceError>)
        requires
            old(self).wf(),
        ensures
            final(self).wf(),
            old(self).created(*final(self), name@, kind, r),
    {
        let ghost raw = name@;
        let name = match normalize_name(name.as_str()) {
            Ok(t) => t,
            Err(e) => return Err(e),
        };
        proof {
            lemma_trimmed_idempotent(raw);
        }
        if self.name_in_use(&name, None) {
            return Err(WorkspaceError::DuplicateName(name));
        }
        let raw = match self.next_id {
            Some(raw) => raw,
            None => return Err(WorkspaceError::IdExhausted),
        };
        proof {
            assert(self.workspaces@[0].id.value() < raw);
        }
        let id = match WorkspaceId::new(raw) {
            Ok(id) => id,
            Err(_) => return Err(WorkspaceError::IdExhausted),
        };
        let ghost before = *self;
        self.next_id = raw.checked_add(1);
        self.workspaces.push(
            Workspace::from_definition(WorkspaceDefinition { id, name: name.clone(), kind }),
        );
        self.mru.push(id);
        self.events.push(WorkspaceEvent::Created { workspace: id, name, kind });
        proof {
            let s = self.workspaces@;
            let old_s = before.workspaces@;
            assert(s.drop_last() =~= old_s);
            assert(s =~= old_s.push(s.last()));
            assert forall|j: int| 0 <= j < old_s.len() implies #[trigger] ws_name(old_s[j]) != ws_name(s.last()) by {
                assert(!name_taken(old_s, name@, None));
            }
            lemma_names_push(old_s, s.last());
            assert(!has_space(old_s, id)) by {
                if has_space(old_s, id) {
                    let k = choose|k: int| 0 <= k < old_s.len() && (#[trigger] old_s[k]).id == id;
                    assert(old_s[k].id.value() < raw);
                }
            }
            assert forall|i: int, j: int| 0 <= i < s.len() && 0 <= j < s.len() && i != j implies s[i].id != s[j].id by {
                if i < old_s.len() && j < old_s.len() {
                    assert(s[i] == old_s[i] && s[j] == old_s[j]);
                } else if i < old_s.len() {
                    assert(s[i] == old_s[i]);
                    assert(old_s[i].id.value() < raw);
                } else {
                    assert(s[j] == old_s[j]);
                    assert(old_s[j].id.value() < raw);
                }
            }
            assert forall|i: int| 0 <= i < s.len() implies (#[trigger] s[i]).wf() by {
                if i < old_s.len() {
                    assert(s[i] == old_s[i]);
                }
            }
            assert forall|i: int, j: int, w: WindowId|
                #![trigger s[i].holds(w), s[j].holds(w)]
                0 <= i < s.len() && 0 <= j < s.len() && i != j && s[i].holds(w) implies !s[j].holds(w) by {
                if i < old_s.len() && j < old_s.len() {
                    assert(s[i] == old_s[i] && s[j] == old_s[j]);
                } else if i < old_s.len() {
                    assert(s[j].members().len() == 0);
                } else {
                    assert(s[i].members().len() == 0);
                }
            }
            assert forall|x: WorkspaceId| has_space(old_s, x) implies has_space(s, x) by {
                let k = choose|k: int| 0 <= k < old_s.len() && (#[trigger] old_s[k]).id == x;
                assert(s[k] == old_s[k]);
            }
            assert(s[s.len() - 1].id == id);
            assert(has_space(s, id));
            assert forall|k: int| 0 <= k < self.mru@.len() implies has_space(s, #[trigger] self.mru@[k]) by {
                if k < before.mru@.len() {
                    assert(self.mru@[k] == before.mru@[k]);
                }
            }
            assert(!before.mru@.contains(id)) by {
                if before.mru@.contains(id) {
                    let k = choose|k: int| 0 <= k < before.mru@.len() && before.mru@[k] == id;
                    assert(has_space(old_s, before.mru@[k]));
                }
            }
            assert forall|a: int, b: int| 0 <= a < self.mru@.len() && 0 <= b < self.mru@.len() && a != b implies self.mru@[a] != self.mru@[b] by {
                if a < before.mru@.len() && b < before.mru@.len() {
                } else if a < before.mru@.len() {
                    assert(before.mru@.contains(before.mru@[a]));
                } else {
                    assert(before.mru@.contains(before.mru@[b]));
                }
            }
            if self.next_id is Some {
                assert forall|i: int| 0 <= i < s.len() implies (#[trigger] s[i]).id.value() < self.next_id->Some_0 by {
                    if i < old_s.len() {
                        assert(s[i] == old_s[i]);
                    }
                }
            }
            assert forall|k: int| 0 <= k < self.placement_rules@.len() implies has_space(
                s,
                (#[trigger] self.placement_rules@[k]).workspace,
            ) by {
                assert(has_space(old_s, self.placement_rules@[k].workspace));
            }
            assert(self.events@.drop_last() =~= before.events@);
            assert forall|i: int| 0 <= i < s.len() implies self.mru@.contains(#[trigger] s[i].id) by {
                if i < old_s.len() {
                    assert(s[i] == old_s[i]);
                    assert(before.mru@.contains(old_s[i].id));
                    let k = choose|k: int| 0 <= k < before.mru@.len() && before.mru@[k] == old_s[i].id;
                    assert(self.mru@[k] == old_s[i].id);
                } else {
                    assert(self.mru@[self.mru@.len() - 1] == id);
                }
            }
        }
        Ok(id)
    }

    /// Renames a workspace; names stay unique.
    #[verifier::rlimit(50)]
    pub fn rename(&mut self, id: WorkspaceId, new_name: String) -> (r: Result<(), WorkspaceError>)
        requires
            old(self).wf(),
        ensures
            final(self).wf(),
            match name_check(new_name@) {
                Err(e) => r matches Err(x) && x == e && *final(self) == *old(self),
                Ok(t) => if name_taken(old(self).spaces(), t, Some(id)) {
                    &&& r matches Err(x) && x matches WorkspaceError::DuplicateName(n) && n@ == t
                    &&& *final(self) == *old(self)
                } else if !old(self).has(id) {
                    r matches Err(x) && x == WorkspaceError::WorkspaceNotFound(id) && *final(self)
                        == *old(self)
                } else if old(self).space(id).spec_definition().name@ == t {
                    r is Ok && *final(self) == *old(self)
                } else {
                    let k = space_at(old(self).spaces(), id);
                    &&& r is Ok
                    &&& final(self).spaces().len() == old(self).spaces().len()
                    &&& forall|j: int|
                        0 <= j < old(self).spaces().len() && j != k ==> final(self).spaces()[j]
                            == old(self).spaces()[j]
                    &&& final(self).spaces()[k].spec_definition().id == id
                    &&& final(self).spaces()[k].spec_definition().name@ == t
                    &&& final(self).spaces()[k].spec_definition().kind == old(self).spaces()[k].spec_definition().kind
                    &&& final(self).spaces()[k].members() == old(self).spaces()[k].members()
                    &&& final(self).pending() == old(self).pending().push(
                        WorkspaceEvent::Renamed {
                            workspace: id,
                            old_name: old(self).spaces()[k].spec_definition().name,
                            new_name: final(self).spaces()[k].spec_definition().name,
                        },
                    )
                    &&& final(self).current() == old(self).current()
                    &&& final(self).recency() == old(self).recency()
                    &&& final(self).policy() == old(self).policy()
                    &&& final(self).rules() == old(self).rules()
                    &&& final(self).next_raw() == old(self).next_raw()
                },
            },
    {
        let ghost raw = new_name@;
        let new_name = match normalize_name(new_name.as_str()) {
            Ok(t) => t,
            Err(e) => return Err(e),
        };
        proof {
            lemma_trimmed_idempotent(raw);
        }
        if self.name_in_use(&new_name, Some(id)) {
            return Err(WorkspaceError::DuplicateName(new_name));
        }
        let k = match self.position(id) {
            Some(k) => k,
            None => return Err(WorkspaceError::WorkspaceNotFound(id)),
        };
        if self.workspaces[k].name == new_name {
            return Ok(());
        }
        let ghost before = *self;
        let old_name = self.workspaces[k].name.clone();
        self.workspaces[k].name = new_name.clone();
        self.events.push(WorkspaceEvent::Renamed { workspace: id, old_name, new_name });
        proof {
            let s = self.workspaces@;
            let old_s = before.workspaces@;
            assert(s =~= old_s.update(k as int, s[k as int]));
            assert forall|j: int| 0 <= j < old_s.len() && j != k implies #[trigger] ws_name(old_s[j]) != ws_name(s[k as int]) by {
                assert(old_s[j].id != old_s[k as int].id);
                assert(!name_taken(old_s, new_name@, Some(id)));
            }
            lemma_names_update(old_s, k as int, s[k as int]);
            assert forall|i: int| 0 <= i < s.len() && i != k implies s[i] == old_s[i] by {}
            assert forall|i: int| 0 <= i < s.len() implies s[i].id == old_s[i].id && s[i].members() == old_s[i].members() by {}
            assert forall|x: WorkspaceId| has_space(old_s, x) implies has_space(s, x) by {
                let j = choose|j: int| 0 <= j < old_s.len() && (#[trigger] old_s[j]).id == x;
                assert(s[j].id == x);
            }
            assert forall|i: int| 0 <= i < s.len() implies (#[trigger] s[i]).wf() by {
                assert(old_s[i].wf());
            }
            assert forall|i: int, j: int, w: WindowId|
                #![trigger s[i].holds(w), s[j].holds(w)]
                0 <= i < s.len() && 0 <= j < s.len() && i != j && s[i].holds(w) implies !s[j].holds(w) by {
                assert(s[i].members() == old_s[i].members());
                assert(s[j].members() == old_s[j].members());
                assert(old_s[i].holds(w));
                assert(!old_s[j].holds(w));
            }
            assert forall|kk: int| 0 <= kk < self.mru@.len() implies has_space(s, #[trigger] self.mru@[kk]) by {
                assert(has_space(old_s, self.mru@[kk]));
            }
            assert forall|kk: int| 0 <= kk < self.placement_rules@.len() implies has_space(
                s,
                (#[trigger] self.placement_rules@[kk]).workspace,
            ) by {
                assert(has_space(old_s, self.placement_rules@[kk].workspace));
            }
            if self.next_id is Some {
                assert forall|i: int| 0 <= i < s.len() implies (#[trigger] s[i]).id.value() < self.next_id->Some_0 by {
                    assert(old_s[i].id.value() < self.next_id->Some_0);
                }
            }
        }
        Ok(())
    }

    /// Hands out the pending events in the order they were generated.
    pub fn drain_events(&mut self) -> (r: Vec<WorkspaceEvent>)
        requires
            old(self).wf(),
        ensures
            final(self).wf(),
            r@ == old(self).pending(),
            final(self).pending().len() == 0,
            final(self).spaces() == old(self).spaces(),
            final(self).current() == old(self).current(),
            final(self).recency() == old(self).recency(),
            final(self).policy() == old(self).policy(),
            final(self).rules() == old(self).rules(),
            final(self).next_raw() == old(self).next_raw(),
    {
        let mut drained: Vec<WorkspaceEvent> = Vec::new();
        std::mem::swap(&mut drained, &mut self.events);
        drained
    }

    /// The persistent part of the state: definitions in order, active
    /// workspace, policy and rules. Window membership is left out.
    pub fn config_snapshot(&self) -> (r: WorkspaceConfig)
        ensures
            r.active == self.current(),
            r.dynamic_policy == self.policy(),
            r.workspaces@ == self.spaces().map_values(|w: Workspace| w.spec_definition()),
            r.placement_rules@ == self.rules(),
    {
        let mut defs: Vec<WorkspaceDefinition> = Vec::new();
        let mut i: usize = 0;
        while i < self.workspaces.len()
            invariant
                i <= self.workspaces@.len(),
                defs@ == self.workspaces@.take(i as int).map_values(|w: Workspace| w.spec_definition()),
            decreases self.workspaces@.len() - i,
        {
            defs.push(self.workspaces[i].definition());
            proof {
                assert(self.workspaces@.take(i + 1).map_values(|w: Workspace| w.spec_definition())
                    =~= self.workspaces@.take(i as int).map_values(|w: Workspace| w.spec_definition()).push(
                    self.workspaces@[i as int].spec_definition(),
                ));
            }
            i = i + 1;
        }
        proof {
            assert(self.workspaces@.take(i as int) =~= self.workspaces@);
        }
        let mut rules: Vec<PlacementRule> = Vec::new();
        let mut i: usize = 0;
        while i < self.placement_rules.len()
            invariant
                i <= self.placement_rules@.len(),
                rules@ == self.placement_rules@.take(i as int),
            decreases self.placement_rules@.len() - i,
        {
            rules.push(self.placement_rules[i].duplicate());
            proof {
                assert(self.placement_rules@.take(i + 1) =~= self.placement_rules@.take(i as int).push(
                    self.placement_rules@[i as int],
                ));
            }
            i = i + 1;
        }
        proof {
            assert(self.placement_rules@.take(i as int) =~= self.placement_rules@);
        }
        WorkspaceConfig {
            active: self.active,
            dynamic_policy: self.dynamic_policy,
            workspaces: defs,
            placement_rules: rules,
        }
    }
}


/// The events announcing that windows moved from one workspace to another.
pub open spec fn moved_events(ws: Seq<WindowId>, from: WorkspaceId, to: WorkspaceId) -> Seq<WorkspaceEvent> {
    ws.map_values(|w: WindowId| WorkspaceEvent::WindowMoved { window: w, from: Some(from), to })
}

proof fn lemma_space_ids_has(s: Seq<Workspace>)
    ensures
        forall|x: WorkspaceId| space_ids(s).contains(x) <==> has_space(s, x),
{
    assert forall|x: WorkspaceId| space_ids(s).contains(x) <==> has_space(s, x) by {
        if has_space(s, x) {
            let k = choose|k: int| 0 <= k < s.len() && (#[trigger] s[k]).id == x;
            assert(space_ids(s)[k] == x);
        }
        if space_ids(s).contains(x) {
            let k = choose|k: int| 0 <= k < space_ids(s).len() && space_ids(s)[k] == x;
            assert(s[k].id == x);
        }
    }
}

proof fn lemma_remove_space(s: Seq<Workspace>, k: int)
    requires
        distinct_ids(s),
        0 <= k < s.len(),
    ensures
        distinct_ids(s.remove(k)),
        space_ids(s.remove(k)) == space_ids(s).remove(k),
        forall|x: WorkspaceId| has_space(s.remove(k), x) <==> (has_space(s, x) && x != s[k].id),
        forall|x: WorkspaceId|
            has_space(s.remove(k), x) ==> space_of(s.remove(k), x) == space_of(s, x),
{
    let t = s.remove(k);
    assert(space_ids(t) =~= space_ids(s).remove(k));
    assert forall|x: WorkspaceId| has_space(t, x) <==> (has_space(s, x) && x != s[k].id) by {
        if has_space(s, x) && x != s[k].id {
            let j = choose|j: int| 0 <= j < s.len() && (#[trigger] s[j]).id == x;
            if j < k {
                assert(t[j].id == x);
            } else {
                assert(t[j - 1].id == x);
            }
        }
        if has_space(t, x) {
            let j = choose|j: int| 0 <= j < t.len() && (#[trigger] t[j]).id == x;
            if j < k {
                assert(s[j].id == x);
            } else {
                assert(s[j + 1].id == x);
            }
        }
    }
    assert forall|x: WorkspaceId| has_space(t, x) implies space_of(t, x) == space_of(s, x) by {
        let j = choose|j: int| 0 <= j < t.len() && (#[trigger] t[j]).id == x;
        if j < k {
            assert(t[j] == s[j]);
            lemma_space_at(s, j);
        } else {
            assert(t[j] == s[j + 1]);
            lemma_space_at(s, j + 1);
        }
        lemma_space_at(t, j);
    }
}

proof fn lemma_update_space(s: Seq<Workspace>, k: int, w: Workspace)
    requires
        distinct_ids(s),
        0 <= k < s.len(),
        w.id == s[k].id,
    ensures
        distinct_ids(s.update(k, w)),
        space_ids(s.update(k, w)) == space_ids(s),
        forall|x: WorkspaceId| has_space(s.update(k, w), x) <==> has_space(s, x),
        forall|x: WorkspaceId|
            has_space(s, x) && x != w.id ==> space_of(s.update(k, w), x) == space_of(s, x),
        space_of(s.update(k, w), w.id) == w,
{
    let t = s.update(k, w);
    assert(space_ids(t) =~= space_ids(s));
    lemma_space_ids_has(s);
    lemma_space_ids_has(t);
    assert forall|x: WorkspaceId| has_space(s, x) && x != w.id implies space_of(t, x) == space_of(s, x) by {
        let j = choose|j: int| 0 <= j < s.len() && (#[trigger] s[j]).id == x;
        lemma_space_at(s, j);
        assert(t[j] == s[j]);
        lemma_space_at(t, j);
    }
    lemma_space_at(t, k);
}

fn retain_rules(v: &Vec<PlacementRule>, id: WorkspaceId) -> (r: Vec<PlacementRule>)
    ensures
        r@ == rules_without(v@, id),
{
    let mut out: Vec<PlacementRule> = Vec::new();
    let mut i: usize = 0;
    while i < v.len()
        invariant
            i <= v@.len(),
            out@ == rules_without(v@.take(i as int), id),
        decreases v@.len() - i,
    {
        if v[i].workspace != id {
            out.push(v[i].duplicate());
        }
        proof {
            assert(v@.take(i + 1).drop_last() =~= v@.take(i as int));
            assert(v@.take(i + 1).last() == v@[i as int]);
        }
        i = i + 1;
    }
    proof {
        assert(v@.take(i as int) =~= v@);
    }
    out
}

proof fn lemma_rules_without(s: Seq<PlacementRule>, id: WorkspaceId)
    ensures
        forall|k: int|
            0 <= k < rules_without(s, id).len() ==> (exists|j: int|
                0 <= j < s.len() && s[j] == #[trigger] rules_without(s, id)[k]) && rules_without(
                s,
                id,
            )[k].workspace != id,
    decreases s.len(),
{
    if s.len() > 0 {
        let d = s.drop_last();
        lemma_rules_without(d, id);
        let w = rules_without(d, id);
        assert forall|k: int|
            0 <= k < rules_without(s, id).len() implies (exists|j: int|
                0 <= j < s.len() && s[j] == #[trigger] rules_without(s, id)[k]) && rules_without(
                s,
                id,
            )[k].workspace != id by {
            if k < w.len() {
                assert(rules_without(s, id)[k] == w[k]);
                let j = choose|j: int| 0 <= j < d.len() && d[j] == #[trigger] w[k];
                assert(s[j] == d[j]);
            } else {
                assert(rules_without(s, id)[k] == s.last());
                assert(s[s.len() - 1] == s.last());
            }
        }
    }
}

proof fn lemma_rules_without_ok(s: Seq<PlacementRule>, id: WorkspaceId)
    requires
        rules_ok(s),
    ensures
        rules_ok(rules_without(s, id)),
    decreases s.len(),
{
    if s.len() > 0 {
        let d = s.drop_last();
        assert(rules_ok(d)) by {
            assert forall|k: int| 0 <= k < d.len() implies !is_blank(#[trigger] rule_app(d[k])) by {
                assert(d[k] == s[k]);
                assert(!is_blank(rule_app(s[k])));
            }
            assert forall|a: int, b: int|
                0 <= a < d.len() && 0 <= b < d.len() && a != b implies #[trigger] rule_app(d[a])
                    != #[trigger] rule_app(d[b]) by {
                assert(d[a] == s[a] && d[b] == s[b]);
                assert(rule_app(s[a]) != rule_app(s[b]));
            }
        }
        lemma_rules_without_ok(d, id);
        lemma_rules_without(d, id);
        let w = rules_without(d, id);
        if s.last().workspace != id {
            let t = w.push(s.last());
            assert(rules_without(s, id) == t);
            let n = s.len() - 1;
            assert(s[n] == s.last());
            assert forall|k: int| 0 <= k < t.len() implies !is_blank(#[trigger] rule_app(t[k])) by {
                if k < w.len() {
                    assert(t[k] == w[k]);
                    assert(!is_blank(rule_app(w[k])));
                } else {
                    assert(t[k] == s[n]);
                    assert(!is_blank(rule_app(s[n])));
                }
            }
            assert forall|a: int, b: int|
                0 <= a < t.len() && 0 <= b < t.len() && a != b implies #[trigger] rule_app(t[a])
                    != #[trigger] rule_app(t[b]) by {
                if a < w.len() && b < w.len() {
                    assert(t[a] == w[a] && t[b] == w[b]);
                    assert(rule_app(w[a]) != rule_app(w[b]));
                } else if a < w.len() {
                    assert(t[a] == w[a]);
                    let j = choose|j: int| 0 <= j < d.len() && d[j] == #[trigger] w[a];
                    assert(d[j] == s[j]);
                    assert(t[b] == s[n]);
                    assert(rule_app(s[j]) != rule_app(s[n]));
                } else if b < w.len() {
                    assert(t[b] == w[b]);
                    let j = choose|j: int| 0 <= j < d.len() && d[j] == #[trigger] w[b];
                    assert(d[j] == s[j]);
                    assert(t[a] == s[n]);
                    assert(rule_app(s[j]) != rule_app(s[n]));
                }
            }
        }
    }
}

proof fn lemma_rules_error_ok(rules: Seq<PlacementRule>, known: Seq<WorkspaceId>)
    requires
        forall|i: int| 0 <= i < rules.len() ==> rule_error(rules, known, i) is None,
    ensures
        rules_ok(rules),
{
    assert forall|k: int| 0 <= k < rules.len() implies !is_blank(#[trigger] rule_app(rules[k])) by {
        assert(rule_error(rules, known, k) is None);
    }
    assert forall|a: int, b: int|
        0 <= a < rules.len() && 0 <= b < rules.len() && a != b implies #[trigger] rule_app(rules[a])
            != #[trigger] rule_app(rules[b]) by {
        if a < b {
            assert(rule_error(rules, known, b) is None);
        } else {
            assert(rule_error(rules, known, a) is None);
        }
    }
}

proof fn lemma_defs_names_ok(s: Seq<Workspace>, defs: Seq<WorkspaceDefinition>)
    requires
        s.len() == defs.len(),
        forall|i: int| 0 <= i < s.len() ==> (#[trigger] s[i]).spec_definition() == defs[i],
        forall|i: int| 0 <= i < defs.len() ==> definition_error(defs, i) is None,
    ensures
        names_ok(s),
{
    assert forall|i: int| 0 <= i < s.len() implies name_check(#[trigger] ws_name(s[i])) == Ok::<
        Seq<char>,
        WorkspaceError,
    >(ws_name(s[i])) by {
        assert(definition_error(defs, i) is None);
    }
    assert forall|i: int, j: int|
        0 <= i < s.len() && 0 <= j < s.len() && i != j implies #[trigger] ws_name(s[i]) != #[trigger] ws_name(s[j]) by {
        if i < j {
            assert(definition_error(defs, j) is None);
            assert(defs[i].name@ == defs[i].name@);
        } else {
            assert(definition_error(defs, i) is None);
            assert(defs[j].name@ == defs[j].name@);
        }
    }
}

impl WorkspaceManager {
    /// The workspace that receives the windows of a removed one: the active
    /// workspace, or the most recently used other one when the active one goes.
    pub open spec fn replacement(self, id: WorkspaceId) -> WorkspaceId {
        if self.current() != id {
            self.current()
        } else {
            self.recency()[1]
        }
    }

    /// `after` is `self` with workspace `id` removed and its windows rehomed.
    pub open spec fn removed(self, after: WorkspaceManager, id: WorkspaceId) -> bool {
        let dest = self.replacement(id);
        let resident = self.space(id).members();
        &&& space_ids(after.spaces()) == space_ids(self.spaces()).remove(space_at(self.spaces(), id))
        &&& forall|x: WorkspaceId|
            after.has(x) && x != dest ==> #[trigger] after.space(x) == self.space(x)
        &&& after.has(dest)
        &&& after.space(dest).spec_definition() == self.space(dest).spec_definition()
        &&& forall|w: WindowId|
            #[trigger] after.space(dest).holds(w) <==> (self.space(dest).holds(w) || resident.contains(w))
        &&& after.rules() == rules_without(self.rules(), id)
        &&& after.policy() == self.policy()
        &&& after.next_raw() == self.next_raw()
        &&& if self.current() == id {
            &&& after.current() == dest
            &&& after.recency() == touch(without(self.recency(), id), dest)
            &&& after.pending() == self.pending() + moved_events(resident, id, dest) + seq![
                WorkspaceEvent::Removed { workspace: id },
                WorkspaceEvent::Activated { previous: id, current: dest },
            ]
        } else {
            &&& after.current() == self.current()
            &&& after.recency() == without(self.recency(), id)
            &&& after.pending() == self.pending() + moved_events(resident, id, dest) + seq![
                WorkspaceEvent::Removed { workspace: id },
            ]
        }
    }

    fn replacement_for(&self, removed: WorkspaceId) -> (r: Result<WorkspaceId, WorkspaceError>)
        requires
            self.wf(),
            self.has(removed),
            self.spaces().len() > 1,
        ensures
            r == Ok::<WorkspaceId, WorkspaceError>(self.replacement(removed)),
    {
        if self.active != removed {
            return Ok(self.active);
        }
        proof {
            lemma_mru_second(*self);
        }
        let mut i: usize = 0;
        while i < self.mru.len()
            invariant
                self.wf(),
                self.active == removed,
                self.mru@.len() > 1,
                i <= self.mru@.len(),
                forall|k: int| 0 <= k < i ==> self.mru@[k] == removed,
            decreases self.mru@.len() - i,
        {
            let candidate = self.mru[i];
            if candidate != removed && self.position(candidate).is_some() {
                proof {
                    if i > 1 {
                        assert(self.mru@[0] == self.mru@[1]);
                    }
                }
                return Ok(candidate);
            }
            proof {
                if candidate != removed {
                    assert(has_space(self.workspaces@, self.mru@[i as int]));
                }
            }
            i = i + 1;
        }
        proof {
            assert(self.mru@[0] == self.mru@[1]);
        }
        Err(WorkspaceError::LastWorkspace)
    }
}

/// With more than one workspace the recency order holds a second entry.
proof fn lemma_mru_second(m: WorkspaceManager)
    requires
        m.wf(),
        m.spaces().len() > 1,
    ensures
        m.recency().len() > 1,
{
    let s = m.spaces();
    let other = if s[0].id != m.current() {
        s[0]
    } else {
        s[1]
    };
    assert(other.id != m.current()) by {
        if s[0].id == m.current() {
            assert(s[1].id != s[0].id);
        }
    }
    assert(m.recency().contains(other.id));
    if m.recency().len() <= 1 {
        let k = choose|k: int| 0 <= k < m.recency().len() && m.recency()[k] == other.id;
        assert(k == 0);
    }
}


impl WorkspaceManager {
    /// Removes a workspace without losing windows: its resident windows first
    /// move to the replacement workspace, which becomes active if the removed
    /// one was.
    #[verifier::rlimit(100)]
    #[verifier::spinoff_prover]
    #[verifier::rlimit(50)]
    pub fn remove(&mut self, id: WorkspaceId) -> (r: Result<(), WorkspaceError>)
        requires
            old(self).wf(),
        ensures
            final(self).wf(),
            !old(self).has(id) ==> (r matches Err(e) && e == WorkspaceError::WorkspaceNotFound(id)
                && *final(self) == *old(self)),
            old(self).has(id) && old(self).spaces().len() == 1 ==> (r matches Err(e) && e
                == WorkspaceError::LastWorkspace && *final(self) == *old(self)),
            old(self).has(id) && old(self).spaces().len() > 1 ==> (r is Ok && old(self).removed(
                *final(self),
                id,
            )),
    {
        let k = match self.position(id) {
            Some(k) => k,
            None => return Err(WorkspaceError::WorkspaceNotFound(id)),
        };
        if self.workspaces.len() == 1 {
            return Err(WorkspaceError::LastWorkspace);
        }
        let dest = match self.replacement_for(id) {
            Ok(d) => d,
            Err(e) => return Err(e),
        };
        let ghost before = *self;
        proof {
            lemma_mru_second(before);
            if before.active == id {
                assert(before.mru@[1] != before.mru@[0]);
                assert(has_space(before.workspaces@, before.mru@[1]));
            }
        }
        let dk = match self.position(dest) {
            Some(i) => i,
            None => return Err(WorkspaceError::WorkspaceNotFound(id)),
        };
        let resident = self.workspaces[k].windows();
        let mut i: usize = 0;
        while i < resident.len()
            invariant
                before.wf(),
                k < before.workspaces@.len(),
                dk < before.workspaces@.len(),
                k != dk,
                before.workspaces@[k as int].id == id,
                before.workspaces@[dk as int].id == dest,
                resident@ == before.workspaces@[k as int].members(),
                i <= resident@.len(),
                self.workspaces@.len() == before.workspaces@.len(),
                forall|j: int|
                    0 <= j < self.workspaces@.len() && j != dk ==> self.workspaces@[j]
                        == before.workspaces@[j],
                self.workspaces@[dk as int].wf(),
                self.workspaces@[dk as int].id == dest,
                self.workspaces@[dk as int].spec_definition() == before.workspaces@[dk as int].spec_definition(),
                forall|w: WindowId|
                    #[trigger] self.workspaces@[dk as int].holds(w) <==> (before.workspaces@[dk as int].holds(w)
                        || resident@.take(i as int).contains(w)),
                self.events@ == before.events@ + moved_events(resident@.take(i as int), id, dest),
                self.active == before.active,
                self.mru@ == before.mru@,
                self.placement_rules@ == before.placement_rules@,
                self.next_id == before.next_id,
                self.dynamic_policy == before.dynamic_policy,
            decreases resident@.len() - i,
        {
            let w = resident[i];
            self.workspaces[dk].insert_window(w);
            self.events.push(WorkspaceEvent::WindowMoved { window: w, from: Some(id), to: dest });
            proof {
                let t = resident@.take(i + 1);
                assert(t =~= resident@.take(i as int).push(w));
                lemma_window_push_contains(resident@.take(i as int), w);
                assert(moved_events(t, id, dest) =~= moved_events(resident@.take(i as int), id, dest).push(
                    WorkspaceEvent::WindowMoved { window: w, from: Some(id), to: dest },
                ));
            }
            i = i + 1;
        }
        proof {
            assert(resident@.take(i as int) =~= resident@);
        }
        let ghost s1 = self.workspaces@;
        let ghost events1 = self.events@;
        self.workspaces.remove(k);
        self.mru = retain_other(&self.mru, id);
        self.placement_rules = retain_rules(&self.placement_rules, id);
        self.events.push(WorkspaceEvent::Removed { workspace: id });
        let ghost events2 = self.events@;
        let ghost mru2 = self.mru@;
        if self.active == id {
            let previous = self.active;
            self.active = dest;
            self.touch_mru(dest);
            self.events.push(WorkspaceEvent::Activated { previous, current: dest });
        }
        proof {
            let s0 = before.workspaces@;
            let s2 = self.workspaces@;
            assert(s1 =~= s0.update(dk as int, s1[dk as int]));
            lemma_update_space(s0, dk as int, s1[dk as int]);
            lemma_remove_space(s1, k as int);
            assert(s1[dk as int].spec_definition() == s0[dk as int].spec_definition());
            assert(ws_name(s1[dk as int]) == ws_name(s0[dk as int]));
            assert(name_check(ws_name(s0[dk as int])) == Ok::<Seq<char>, WorkspaceError>(ws_name(s0[dk as int])));
            assert forall|j: int| 0 <= j < s0.len() && j != dk implies #[trigger] ws_name(s0[j]) != ws_name(
                s1[dk as int],
            ) by {
                assert(ws_name(s0[j]) != ws_name(s0[dk as int]));
            }
            lemma_names_update(s0, dk as int, s1[dk as int]);
            lemma_names_remove(s1, k as int);
            lemma_rules_without_ok(before.placement_rules@, id);
            lemma_space_at(s0, k as int);
            lemma_space_at(s0, dk as int);
            lemma_space_at(s1, dk as int);
            assert(s2 == s1.remove(k as int));
            // the removed state, workspace by workspace
            assert forall|x: WorkspaceId| has_space(s2, x) && x != dest implies #[trigger] space_of(s2, x)
                == space_of(s0, x) by {}
            assert(has_space(s2, dest));
            // disjointness of the new sequence
            assert forall|a: int, b: int, w: WindowId|
                #![trigger s2[a].holds(w), s2[b].holds(w)]
                0 <= a < s2.len() && 0 <= b < s2.len() && a != b && s2[a].holds(w) implies !s2[b].holds(w) by {
                let a1: int = if a < k {
                    a
                } else {
                    a + 1
                };
                let b1: int = if b < k {
                    b
                } else {
                    b + 1
                };
                assert(s2[a] == s1[a1] && s2[b] == s1[b1]);
                assert(a1 != k && b1 != k && a1 != b1);
                if a1 == dk {
                    assert(s1[b1] == s0[b1]);
                    if s0[dk as int].holds(w) {
                        assert(!s0[b1].holds(w));
                    } else {
                        assert(s0[k as int].holds(w));
                        assert(!s0[b1].holds(w));
                    }
                } else if b1 == dk {
                    assert(s1[a1] == s0[a1]);
                    assert(s0[a1].holds(w));
                    assert(!s0[dk as int].holds(w));
                    assert(!s0[k as int].holds(w));
                } else {
                    assert(s1[a1] == s0[a1] && s1[b1] == s0[b1]);
                }
            }
            assert forall|a: int| 0 <= a < s2.len() implies (#[trigger] s2[a]).wf() by {
                let a1: int = if a < k {
                    a
                } else {
                    a + 1
                };
                assert(s2[a] == s1[a1]);
            }
            // identifiers
            if self.next_id is Some {
                assert forall|a: int| 0 <= a < s2.len() implies (#[trigger] s2[a]).id.value() < self.next_id->Some_0 by {
                    let a1: int = if a < k {
                        a
                    } else {
                        a + 1
                    };
                    assert(s2[a] == s1[a1]);
                    assert(s1[a1].id == s0[a1].id);
                }
            }
            // placement rules
            lemma_rules_without(before.placement_rules@, id);
            assert forall|q: int| 0 <= q < self.placement_rules@.len() implies has_space(
                s2,
                (#[trigger] self.placement_rules@[q]).workspace,
            ) by {
                let j = choose|j: int|
                    0 <= j < before.placement_rules@.len() && before.placement_rules@[j]
                        == #[trigger] rules_without(before.placement_rules@, id)[q];
                assert(has_space(s0, before.placement_rules@[j].workspace));
            }
            // recency order
            lemma_without(before.mru@, id);
            assert forall|q: int| 0 <= q < mru2.len() implies has_space(s2, #[trigger] mru2[q]) by {
                assert(mru2.contains(mru2[q]));
                assert(before.mru@.contains(mru2[q]));
                let j = choose|j: int| 0 <= j < before.mru@.len() && before.mru@[j] == mru2[q];
                assert(has_space(s0, before.mru@[j]));
            }
            assert forall|a: int| 0 <= a < s2.len() implies mru2.contains(#[trigger] s2[a].id) by {
                let a1: int = if a < k {
                    a
                } else {
                    a + 1
                };
                assert(s2[a] == s1[a1]);
                assert(s1[a1].id == s0[a1].id);
                assert(before.mru@.contains(s0[a1].id));
                assert(s0[a1].id != id);
            }
            assert(events2 == events1.push(WorkspaceEvent::Removed { workspace: id }));
            if before.active == id {
                lemma_touch_wf(mru2, dest, s2);
                assert forall|a: int| 0 <= a < s2.len() implies self.mru@.contains(#[trigger] s2[a].id) by {
                    assert(mru2.contains(s2[a].id));
                }
                assert(self.events@ =~= before.events@ + moved_events(resident@, id, dest) + seq![
                    WorkspaceEvent::Removed { workspace: id },
                    WorkspaceEvent::Activated { previous: id, current: dest },
                ]);
            } else {
                lemma_without_first(before.mru@, id);
                assert(self.events@ =~= before.events@ + moved_events(resident@, id, dest) + seq![
                    WorkspaceEvent::Removed { workspace: id },
                ]);
                assert(has_space(s2, self.active));
            }
        }
        Ok(())
    }
}

proof fn lemma_window_push_contains(s: Seq<WindowId>, a: WindowId)
    ensures
        forall|y: WindowId| s.push(a).contains(y) <==> (s.contains(y) || y == a),
{
    assert forall|y: WindowId| s.push(a).contains(y) <==> (s.contains(y) || y == a) by {
        if s.contains(y) {
            let k = choose|k: int| 0 <= k < s.len() && s[k] == y;
            assert(s.push(a)[k] == y);
        }
        if y == a {
            assert(s.push(a)[s.len() as int] == a);
        }
        if s.push(a).contains(y) {
            let k = choose|k: int| 0 <= k < s.len() + 1 && s.push(a)[k] == y;
            if k < s.len() {
                assert(s[k] == y);
            }
        }
    }
}


/// Two workspaces agree on definition and resident windows.
pub open spec fn same_space(a: Workspace, b: Workspace) -> bool {
    &&& a.spec_definition() == b.spec_definition()
    &&& forall|w: WindowId| a.holds(w) <==> b.holds(w)
}

impl WorkspaceManager {
    /// Whether a dynamic workspace left empty by `leaving` is pruned.
    pub open spec fn prune_due(self, id: WorkspaceId, leaving: WindowId) -> bool {
        &&& self.policy() == DynamicPolicy::RemoveEmptyInactive
        &&& self.current() != id
        &&& self.space(id).spec_definition().kind == WorkspaceKind::Dynamic
        &&& self.space(id).members() == seq![leaving]
    }

    /// `after` is `self` once `window` has left `source` (for `target`, or for
    /// good), `event` was announced, and `source` was pruned if that was due.
    pub open spec fn window_left(
        self,
        after: WorkspaceManager,
        window: WindowId,
        source: WorkspaceId,
        target: Option<WorkspaceId>,
        event: WorkspaceEvent,
    ) -> bool {
        let due = self.prune_due(source, window);
        &&& space_ids(after.spaces()) == if due {
            space_ids(self.spaces()).remove(space_at(self.spaces(), source))
        } else {
            space_ids(self.spaces())
        }
        &&& forall|x: WorkspaceId|
            after.has(x) && x != source && Some(x) != target ==> same_space(
                #[trigger] after.space(x),
                self.space(x),
            )
        &&& (target matches Some(t) ==> {
            &&& after.has(t)
            &&& after.space(t).spec_definition() == self.space(t).spec_definition()
            &&& forall|w: WindowId|
                #[trigger] after.space(t).holds(w) <==> (self.space(t).holds(w) || w == window)
        })
        &&& (!due ==> {
            &&& after.has(source)
            &&& after.space(source).spec_definition() == self.space(source).spec_definition()
            &&& forall|w: WindowId|
                #[trigger] after.space(source).holds(w) <==> (self.space(source).holds(w) && w != window)
        })
        &&& after.current() == self.current()
        &&& after.recency() == if due {
            without(self.recency(), source)
        } else {
            self.recency()
        }
        &&& after.rules() == if due {
            rules_without(self.rules(), source)
        } else {
            self.rules()
        }
        &&& after.policy() == self.policy()
        &&& after.next_raw() == self.next_raw()
        &&& after.pending() == if due {
            self.pending() + seq![event, WorkspaceEvent::Removed { workspace: source }]
        } else {
            self.pending().push(event)
        }
    }

    /// Removes a dynamic workspace left empty, unless it is active or the
    /// policy keeps empty workspaces.
    fn prune_dynamic_if_needed(&mut self, id: WorkspaceId) -> (r: Result<(), WorkspaceError>)
        requires
            old(self).wf(),
            old(self).has(id),
        ensures
            final(self).wf(),
            r is Ok,
            ({
                let due = old(self).policy() == DynamicPolicy::RemoveEmptyInactive && old(self).current()
                    != id && old(self).space(id).spec_definition().kind == WorkspaceKind::Dynamic
                    && old(self).space(id).members().len() == 0;
                &&& due ==> old(self).removed(*final(self), id)
                &&& !due ==> *final(self) == *old(self)
            }),
    {
        if self.dynamic_policy != DynamicPolicy::RemoveEmptyInactive || self.active == id {
            return Ok(());
        }
        let should_remove = match self.position(id) {
            Some(k) => {
                proof {
                    lemma_space_at(self.workspaces@, k as int);
                }
                self.workspaces[k].kind == WorkspaceKind::Dynamic && self.workspaces[k].is_empty()
            },
            None => false,
        };
        if should_remove {
            proof {
                let k = space_at(self.workspaces@, self.active);
                lemma_space_at(self.workspaces@, k);
                let j = space_at(self.workspaces@, id);
                assert(self.workspaces@[j].id == id);
                assert(k != j);
            }
            match self.remove(id) {
                Ok(()) => {},
                Err(e) => return Err(e),
            }
        }
        Ok(())
    }

    /// Moves `window` out of the workspace at `from` (if any) and into the one
    /// at `to` (if any).
    fn relocate(&mut self, window: WindowId, from: Option<usize>, to: Option<usize>)
        requires
            old(self).wf(),
            from matches Some(k) ==> k < old(self).spaces().len() && old(self).spaces()[k as int].holds(window),
            from is None ==> !is_tracked(old(self).spaces(), window),
            to matches Some(t) ==> t < old(self).spaces().len(),
            from matches Some(k) ==> to != Some(k),
        ensures
            final(self).wf(),
            final(self).spaces().len() == old(self).spaces().len(),
            forall|j: int|
                0 <= j < old(self).spaces().len() && (from matches Some(k) ==> j != k) && (to matches Some(
                    t,
                ) ==> j != t) ==> #[trigger] final(self).spaces()[j] == old(self).spaces()[j],
            forall|j: int|
                0 <= j < old(self).spaces().len() ==> (#[trigger] final(self).spaces()[j]).spec_definition()
                    == old(self).spaces()[j].spec_definition(),
            from matches Some(k) ==> forall|w: WindowId|
                #[trigger] final(self).spaces()[k as int].holds(w) <==> (old(self).spaces()[k as int].holds(w) && w
                    != window),
            to matches Some(t) ==> forall|w: WindowId|
                #[trigger] final(self).spaces()[t as int].holds(w) <==> (old(self).spaces()[t as int].holds(w) || w
                    == window),
            final(self).current() == old(self).current(),
            final(self).recency() == old(self).recency(),
            final(self).rules() == old(self).rules(),
            final(self).policy() == old(self).policy(),
            final(self).next_raw() == old(self).next_raw(),
            final(self).pending() == old(self).pending(),
    {
        let ghost before = *self;
        if let Some(k) = from {
            self.workspaces[k].remove_window(window);
        }
        let ghost mid = self.workspaces@;
        if let Some(t) = to {
            self.workspaces[t].insert_window(window);
        }
        proof {
            let s0 = before.workspaces@;
            let s = self.workspaces@;
            assert forall|j: int| 0 <= j < s.len() implies (#[trigger] s[j]).id == s0[j].id && s[j].wf() && s[j].spec_definition() == s0[j].spec_definition() by {
                assert(mid[j].spec_definition() == s0[j].spec_definition());
            }
            lemma_names_same(s0, s);
            assert forall|j: int| 0 <= j < s.len() && (from matches Some(k) ==> j != k) && (to matches Some(
                t,
            ) ==> j != t) implies #[trigger] s[j] == s0[j] by {
                assert(mid[j] == s0[j]);
            }
            assert forall|a: int, b: int, w: WindowId|
                #![trigger s[a].holds(w), s[b].holds(w)]
                0 <= a < s.len() && 0 <= b < s.len() && a != b && s[a].holds(w) implies !s[b].holds(w) by {
                if w == window {
                    if to == Some(a as usize) {
                        if from is None {
                            assert(!s0[b].holds(w));
                        } else {
                            assert(!s0[b].holds(w) || Some(b as usize) == from);
                        }
                    } else if from == Some(a as usize) {
                    } else {
                        assert(s0[a].holds(w));
                        assert(from is Some);
                    }
                } else {
                    assert(s0[a].holds(w));
                    assert(!s0[b].holds(w));
                }
            }
            assert forall|x: WorkspaceId| has_space(s0, x) implies has_space(s, x) by {
                let j = choose|j: int| 0 <= j < s0.len() && (#[trigger] s0[j]).id == x;
                assert(s[j].id == x);
            }
            assert forall|i: int| 0 <= i < s.len() implies self.mru@.contains(#[trigger] s[i].id) by {
                assert(s[i].id == s0[i].id);
            }
            if self.next_id is Some {
                assert forall|i: int| 0 <= i < s.len() implies (#[trigger] s[i]).id.value() < self.next_id->Some_0 by {
                    assert(s[i].id == s0[i].id);
                }
            }
        }
    }
}


proof fn lemma_left_empty(a: Workspace, b: Workspace, window: WindowId)
    requires
        a.wf(),
        a.holds(window),
        forall|w: WindowId| #[trigger] b.holds(w) <==> (a.holds(w) && w != window),
    ensures
        (a.members() == seq![window]) <==> (b.members().len() == 0),
{
    let m = a.members();
    if m =~= seq![window] {
        if b.members().len() > 0 {
            assert(b.holds(b.members()[0]));
        }
    }
    if b.members().len() == 0 {
        if m.len() >= 2 {
            assert(m[0].value() < m[1].value());
            if m[0] != window {
                assert(a.holds(m[0]));
                assert(!b.holds(m[0]));
            } else {
                assert(a.holds(m[1]));
                assert(!b.holds(m[1]));
            }
        }
        let k = choose|k: int| 0 <= k < m.len() && m[k] == window;
        assert(m.len() == 1);
        assert(m =~= seq![window]);
    }
}

/// Composes a relocation of `window` out of `source` with the pruning step.
#[verifier::rlimit(100)]
proof fn lemma_window_left(
    old: WorkspaceManager,
    mid: WorkspaceManager,
    fin: WorkspaceManager,
    window: WindowId,
    sk: int,
    tk: Option<int>,
    event: WorkspaceEvent,
)
    requires
        old.wf(),
        mid.wf(),
        0 <= sk < old.spaces().len(),
        old.spaces()[sk].holds(window),
        tk matches Some(t) ==> 0 <= t < old.spaces().len() && t != sk,
        mid.spaces().len() == old.spaces().len(),
        forall|j: int|
            0 <= j < old.spaces().len() && j != sk && Some(j) != tk ==> #[trigger] mid.spaces()[j]
                == old.spaces()[j],
        forall|j: int|
            0 <= j < old.spaces().len() ==> (#[trigger] mid.spaces()[j]).spec_definition()
                == old.spaces()[j].spec_definition(),
        forall|w: WindowId|
            #[trigger] mid.spaces()[sk].holds(w) <==> (old.spaces()[sk].holds(w) && w != window),
        tk matches Some(t) ==> forall|w: WindowId|
            #[trigger] mid.spaces()[t].holds(w) <==> (old.spaces()[t].holds(w) || w == window),
        mid.current() == old.current(),
        mid.recency() == old.recency(),
        mid.rules() == old.rules(),
        mid.policy() == old.policy(),
        mid.next_raw() == old.next_raw(),
        mid.pending() == old.pending().push(event),
        ({
            let id = old.spaces()[sk].spec_definition().id;
            let due = mid.policy() == DynamicPolicy::RemoveEmptyInactive && mid.current() != id
                && mid.space(id).spec_definition().kind == WorkspaceKind::Dynamic
                && mid.space(id).members().len() == 0;
            &&& due ==> mid.removed(fin, id)
            &&& !due ==> fin == mid
        }),
    ensures
        old.window_left(
            fin,
            window,
            old.spaces()[sk].spec_definition().id,
            match tk {
                Some(t) => Some(old.spaces()[t].spec_definition().id),
                None => None,
            },
            event,
        ),
{
    let s0 = old.spaces();
    let s1 = mid.spaces();
    let source = s0[sk].id;
    let target = match tk {
        Some(t) => Some(s0[t].id),
        None => None,
    };
    assert forall|j: int| 0 <= j < s1.len() implies (#[trigger] s1[j]).id == s0[j].id by {
        assert(s1[j].spec_definition() == s0[j].spec_definition());
    }
    assert(space_ids(s1) =~= space_ids(s0));
    lemma_space_ids_has(s0);
    lemma_space_ids_has(s1);
    lemma_space_at(s0, sk);
    lemma_space_at(s1, sk);
    if let Some(t) = tk {
        lemma_space_at(s0, t);
        lemma_space_at(s1, t);
    }
    // how each workspace of the intermediate state relates to the starting one
    assert forall|x: WorkspaceId| has_space(s1, x) && x != source && Some(x) != target implies space_of(s1, x) == space_of(s0, x) by {
        let j = choose|j: int| 0 <= j < s1.len() && (#[trigger] s1[j]).id == x;
        lemma_space_at(s1, j);
        lemma_space_at(s0, j);
        assert(j != sk);
        if let Some(t) = tk {
            assert(j != t);
        }
    }
    lemma_left_empty(s0[sk], s1[sk], window);
    let due = old.prune_due(source, window);
    assert(mid.space(source) == s1[sk]);
    assert(old.space(source) == s0[sk]);
    if !due {
        assert(fin == mid);
    } else {
        let dest = mid.current();
        assert(mid.removed(fin, source));
        assert(mid.replacement(source) == dest);
        lemma_space_ids_has(fin.spaces());
        assert(space_at(s1, source) == sk);
        assert(space_at(s0, source) == sk);
        assert forall|x: WorkspaceId| fin.has(x) && x != source && Some(x) != target implies same_space(
            #[trigger] fin.space(x),
            old.space(x),
        ) by {
            assert(space_ids(fin.spaces()).contains(x));
            assert(has_space(s1, x));
            if x != dest {
                assert(fin.space(x) == mid.space(x));
            } else {
                assert forall|w: WindowId| fin.space(x).holds(w) <==> old.space(x).holds(w) by {
                    assert(fin.space(dest).holds(w) <==> (mid.space(dest).holds(w) || mid.space(source).members().contains(w)));
                }
            }
        }
        if let Some(t) = tk {
            let tid = s0[t].id;
            assert(space_ids(fin.spaces()).contains(tid)) by {
                assert(space_ids(s1).remove(sk)[if t < sk { t } else { t - 1 }] == tid);
            }
            if tid != dest {
                assert(fin.space(tid) == mid.space(tid));
            } else {
                assert forall|w: WindowId| #[trigger] fin.space(tid).holds(w) <==> (old.space(tid).holds(w) || w == window) by {
                    assert(fin.space(dest).holds(w) <==> (mid.space(dest).holds(w) || mid.space(source).members().contains(w)));
                }
            }
        }
        assert(fin.pending() =~= old.pending() + seq![event, WorkspaceEvent::Removed { workspace: source }]);
    }
}

impl WorkspaceManager {
    /// Moves a window to another workspace whenever both exist: placement
    /// rules never hold a window back.
    pub fn move_window(&mut self, window: WindowId, target: WorkspaceId) -> (r: Result<(), WorkspaceError>)
        requires
            old(self).wf(),
        ensures
            final(self).wf(),
            !old(self).has(target) ==> (r matches Err(e) && e == WorkspaceError::WorkspaceNotFound(target)
                && *final(self) == *old(self)),
            old(self).has(target) && !is_tracked(old(self).spaces(), window) ==> (r matches Err(e) && e
                == WorkspaceError::WindowNotTracked(window) && *final(self) == *old(self)),
            old(self).has(target) && is_tracked(old(self).spaces(), window) && owner(old(self).spaces(), window)
                == target ==> (r is Ok && *final(self) == *old(self)),
            old(self).has(target) && is_tracked(old(self).spaces(), window) && owner(old(self).spaces(), window)
                != target ==> (r is Ok && old(self).window_left(
                *final(self),
                window,
                owner(old(self).spaces(), window),
                Some(target),
                WorkspaceEvent::WindowMoved {
                    window,
                    from: Some(owner(old(self).spaces(), window)),
                    to: target,
                },
            )),
    {
        let tk = match self.position(target) {
            Some(t) => t,
            None => return Err(WorkspaceError::WorkspaceNotFound(target)),
        };
        let (sk, source) = match self.holder(window) {
            Some(pair) => pair,
            None => return Err(WorkspaceError::WindowNotTracked(window)),
        };
        if source == target {
            return Ok(());
        }
        let ghost before = *self;
        self.relocate(window, Some(sk), Some(tk));
        let ghost moved = self.workspaces@;
        assert(forall|w: WindowId|
            #[trigger] moved[sk as int].holds(w) <==> (before.spaces()[sk as int].holds(w) && w != window));
        assert(forall|w: WindowId|
            #[trigger] moved[tk as int].holds(w) <==> (before.spaces()[tk as int].holds(w) || w == window));
        self.events.push(WorkspaceEvent::WindowMoved { window, from: Some(source), to: target });
        let ghost mid = *self;
        proof {
            assert(self.workspaces@[sk as int].id == source);
            lemma_space_at(self.workspaces@, sk as int);
        }
        let pruned = self.prune_dynamic_if_needed(source);
        proof {
            assert forall|j: int|
                0 <= j < before.spaces().len() && j != sk && Some(j) != Some(tk as int) implies #[trigger] mid.spaces()[j]
                    == before.spaces()[j] by {
            }
            lemma_window_left(before, mid, *self, window, sk as int, Some(tk as int), WorkspaceEvent::WindowMoved {
                window,
                from: Some(source),
                to: target,
            });
        }
        match pruned {
            Ok(()) => Ok(()),
            Err(e) => Err(e),
        }
    }

    /// Forgets a destroyed or unmanaged window; its dynamic workspace may be
    /// pruned according to the policy.
    pub fn forget_window(&mut self, window: WindowId) -> (r: Result<(), WorkspaceError>)
        requires
            old(self).wf(),
        ensures
            final(self).wf(),
            !is_tracked(old(self).spaces(), window) ==> (r matches Err(e) && e
                == WorkspaceError::WindowNotTracked(window) && *final(self) == *old(self)),
            is_tracked(old(self).spaces(), window) ==> (r is Ok && old(self).window_left(
                *final(self),
                window,
                owner(old(self).spaces(), window),
                None,
                WorkspaceEvent::WindowForgotten { window, from: owner(old(self).spaces(), window) },
            )),
    {
        let (sk, source) = match self.holder(window) {
            Some(pair) => pair,
            None => return Err(WorkspaceError::WindowNotTracked(window)),
        };
        let ghost before = *self;
        self.relocate(window, Some(sk), None);
        let ghost moved = self.workspaces@;
        assert(forall|w: WindowId|
            #[trigger] moved[sk as int].holds(w) <==> (before.spaces()[sk as int].holds(w) && w != window));
        self.events.push(WorkspaceEvent::WindowForgotten { window, from: source });
        let ghost mid = *self;
        proof {
            assert(self.workspaces@[sk as int].id == source);
            lemma_space_at(self.workspaces@, sk as int);
        }
        let pruned = self.prune_dynamic_if_needed(source);
        proof {
            assert forall|j: int|
                0 <= j < before.spaces().len() && j != sk && Some(j) != None::<int> implies #[trigger] mid.spaces()[j]
                    == before.spaces()[j] by {
            }
            lemma_window_left(before, mid, *self, window, sk as int, None, WorkspaceEvent::WindowForgotten {
                window,
                from: source,
            });
        }
        match pruned {
            Ok(()) => Ok(()),
            Err(e) => Err(e),
        }
    }

    /// The position and identifier of the workspace holding the window.
    fn holder(&self, window: WindowId) -> (r: Option<(usize, WorkspaceId)>)
        requires
            self.wf(),
        ensures
            r is None <==> !is_tracked(self.spaces(), window),
            r matches Some((k, id)) ==> k < self.spaces().len() && self.spaces()[k as int].holds(window)
                && self.spaces()[k as int].id == id && owner(self.spaces(), window) == id,
    {
        let mut i: usize = 0;
        while i < self.workspaces.len()
            invariant
                i <= self.workspaces@.len(),
                self.wf(),
                forall|k: int| 0 <= k < i ==> !(#[trigger] self.workspaces@[k]).holds(window),
            decreases self.workspaces@.len() - i,
        {
            if self.workspaces[i].contains_window(window) {
                proof {
                    lemma_owner(self.workspaces@, i as int, window);
                }
                return Some((i, self.workspaces[i].id));
            }
            i = i + 1;
        }
        None
    }
}


/// Position `i` holds the first rule naming the application.
pub open spec fn is_first_rule(rules: Seq<PlacementRule>, a: Seq<char>, i: int) -> bool {
    &&& 0 <= i < rules.len()
    &&& rules[i].application_id@ == a
    &&& forall|k: int| 0 <= k < i ==> (#[trigger] rules[k]).application_id@ != a
}

/// Position of the first rule naming the application, if any.
pub open spec fn first_rule(rules: Seq<PlacementRule>, a: Seq<char>) -> Option<int> {
    if exists|i: int| is_first_rule(rules, a, i) {
        Some(choose|i: int| is_first_rule(rules, a, i))
    } else {
        None
    }
}

impl WorkspaceManager {
    /// The workspace a new window of this application starts in: the target of
    /// the first rule naming the application, else the active workspace.
    pub open spec fn initial_target(self, app: Option<Seq<char>>) -> WorkspaceId {
        match app {
            Some(a) => match first_rule(self.rules(), a) {
                Some(i) => self.rules()[i].workspace,
                None => self.current(),
            },
            None => self.current(),
        }
    }

    fn rule_target(&self, application_id: &str) -> (r: Option<WorkspaceId>)
        ensures
            r == match first_rule(self.rules(), application_id@) {
                Some(i) => Some(self.rules()[i].workspace),
                None => None::<WorkspaceId>,
            },
    {
        let mut i: usize = 0;
        while i < self.placement_rules.len()
            invariant
                i <= self.placement_rules@.len(),
                forall|k: int|
                    0 <= k < i ==> (#[trigger] self.placement_rules@[k]).application_id@ != application_id@,
            decreases self.placement_rules@.len() - i,
        {
            if str_eq(self.placement_rules[i].application_id.as_str(), application_id) {
                proof {
                    let rules = self.placement_rules@;
                    assert(is_first_rule(rules, application_id@, i as int));
                    let c = choose|c: int| is_first_rule(rules, application_id@, c);
                    if c < i {
                        assert(rules[c].application_id@ != application_id@);
                    } else if c > i {
                        assert(rules[i as int].application_id@ != application_id@);
                    }
                }
                return Some(self.placement_rules[i].workspace);
            }
            i = i + 1;
        }
        None
    }

    /// Assigns a newly managed window exactly once. Placement rules are
    /// consulted only here; later manual moves never reapply them.
    pub fn assign_new_window(&mut self, window: WindowId, application_id: Option<&str>) -> (r: Result<
        WorkspaceId,
        WorkspaceError,
    >)
        requires
            old(self).wf(),
        ensures
            final(self).wf(),
            is_tracked(old(self).spaces(), window) ==> (r matches Err(e) && e
                == WorkspaceError::WindowAlreadyTracked(window) && *final(self) == *old(self)),
            !is_tracked(old(self).spaces(), window) ==> ({
                let t = old(self).initial_target(
                    match application_id {
                        Some(a) => Some(a@),
                        None => None,
                    },
                );
                &&& r == Ok::<WorkspaceId, WorkspaceError>(t)
                &&& space_ids(final(self).spaces()) == space_ids(old(self).spaces())
                &&& forall|x: WorkspaceId|
                    old(self).has(x) && x != t ==> #[trigger] final(self).space(x) == old(self).space(x)
                &&& final(self).space(t).spec_definition() == old(self).space(t).spec_definition()
                &&& forall|w: WindowId|
                    #[trigger] final(self).space(t).holds(w) <==> (old(self).space(t).holds(w) || w == window)
                &&& final(self).pending() == old(self).pending().push(
                    WorkspaceEvent::WindowMoved { window, from: None, to: t },
                )
                &&& final(self).current() == old(self).current()
                &&& final(self).recency() == old(self).recency()
                &&& final(self).rules() == old(self).rules()
                &&& final(self).policy() == old(self).policy()
                &&& final(self).next_raw() == old(self).next_raw()
            }),
    {
        if self.holder(window).is_some() {
            return Err(WorkspaceError::WindowAlreadyTracked(window));
        }
        let target = match application_id {
            Some(a) => match self.rule_target(a) {
                Some(t) => t,
                None => self.active,
            },
            None => self.active,
        };
        proof {
            if let Some(a) = application_id {
                if let Some(i) = first_rule(self.placement_rules@, a@) {
                    assert(has_space(self.workspaces@, self.placement_rules@[i].workspace));
                }
            }
        }
        let tk = match self.position(target) {
            Some(t) => t,
            None => return Err(WorkspaceError::WorkspaceNotFound(target)),
        };
        let ghost before = *self;
        self.relocate(window, None, Some(tk));
        self.events.push(WorkspaceEvent::WindowMoved { window, from: None, to: target });
        proof {
            let s0 = before.workspaces@;
            let s1 = self.workspaces@;
            assert forall|j: int| 0 <= j < s1.len() implies (#[trigger] s1[j]).id == s0[j].id by {
                assert(s1[j].spec_definition() == s0[j].spec_definition());
            }
            assert(space_ids(s1) =~= space_ids(s0));
            lemma_space_at(s1, tk as int);
            assert forall|x: WorkspaceId| has_space(s0, x) && x != target implies #[trigger] space_of(s1, x) == space_of(s0, x) by {
                let j = choose|j: int| 0 <= j < s0.len() && (#[trigger] s0[j]).id == x;
                lemma_space_at(s0, j);
                lemma_space_at(s1, j);
            }
        }
        Ok(target)
    }
}


/// The snapshot of every valid manager is a configuration that loads:
/// `from_config` finds nothing wrong with it, and the manager it gives has
/// the same snapshot (`lemma_snapshot_round_trip`). Window membership is not
/// part of it.
pub proof fn lemma_snapshot_loads(m: WorkspaceManager, c: WorkspaceConfig)
    requires
        m.wf(),
        c.workspaces@ == m.spaces().map_values(|w: Workspace| w.spec_definition()),
        c.active == m.current(),
        c.dynamic_policy == m.policy(),
        c.placement_rules@ == m.rules(),
    ensures
        config_error(c) is None,
{
    let s = m.spaces();
    let defs = c.workspaces@;
    assert forall|i: int| 0 <= i < defs.len() implies definition_error(defs, i) is None by {
        assert(defs[i] == s[i].spec_definition());
        assert(name_check(ws_name(s[i])) == Ok::<Seq<char>, WorkspaceError>(ws_name(s[i])));
        assert forall|j: int| 0 <= j < i implies (#[trigger] defs[j]).id != defs[i].id by {
            assert(defs[j] == s[j].spec_definition());
            assert(s[j].id != s[i].id);
        }
        assert forall|j: int| 0 <= j < i implies (#[trigger] defs[j]).name@ != defs[i].name@ by {
            assert(defs[j] == s[j].spec_definition());
            assert(ws_name(s[j]) != ws_name(s[i]));
        }
    }
    lemma_definitions_clear(defs, defs.len() as int);
    assert(def_ids(defs).contains(c.active)) by {
        let k = choose|k: int| 0 <= k < s.len() && (#[trigger] s[k]).id == m.active;
        assert(defs[k] == s[k].spec_definition());
        assert(def_ids(defs)[k] == c.active);
    }
    let rules = c.placement_rules@;
    assert forall|i: int| 0 <= i < rules.len() implies rule_error(rules, def_ids(defs), i) is None by {
        assert(!is_blank(rule_app(rules[i])));
        assert forall|j: int| 0 <= j < i implies (#[trigger] rules[j]).application_id@ != rules[i].application_id@ by {
            assert(rule_app(rules[j]) != rule_app(rules[i]));
        }
        assert(has_space(s, rules[i].workspace));
        let k = choose|k: int| 0 <= k < s.len() && (#[trigger] s[k]).id == rules[i].workspace;
        assert(defs[k] == s[k].spec_definition());
        assert(def_ids(defs)[k] == rules[i].workspace);
    }
    lemma_rules_clear(rules, def_ids(defs), rules.len() as int);
}

} // verus!
