//! Module registry: validated descriptors, capability providers and a
//! deterministic dependency-first start order.

use crate::core_types::{capability_views, ApiVersion, CapabilityId, Dependency, ModuleDescriptor, ModuleId};
use crate::text::{lemma_lex_order, lex_lt, str_lt};
use vstd::prelude::*;

verus! {

/// Chosen providers for capabilities that several modules provide.
pub struct CapabilitySelections(Vec<(CapabilityId, ModuleId)>);

/// Position `i` holds the first entry for key `k`.
pub open spec fn first_entry(s: Seq<(CapabilityId, ModuleId)>, k: Seq<char>, i: int) -> bool {
    &&& 0 <= i < s.len()
    &&& s[i].0@ == k
    &&& forall|j: int| 0 <= j < i ==> (#[trigger] s[j]).0@ != k
}

/// The map a list of choices stands for: the first choice of a key counts.
pub open spec fn choice_map(s: Seq<(CapabilityId, ModuleId)>) -> Map<Seq<char>, ModuleId> {
    Map::new(
        |k: Seq<char>| exists|i: int| 0 <= i < s.len() && (#[trigger] s[i]).0@ == k,
        |k: Seq<char>| s[choose|i: int| first_entry(s, k, i)].1,
    )
}

proof fn lemma_first_entry(s: Seq<(CapabilityId, ModuleId)>, k: Seq<char>, i: int)
    requires
        first_entry(s, k, i),
    ensures
        choice_map(s).dom().contains(k),
        choice_map(s)[k] == s[i].1,
{
    assert(s[i].0@ == k);
    let c = choose|c: int| first_entry(s, k, c);
    if c < i {
        assert(s[c].0@ != k);
    } else if c > i {
        assert(s[i].0@ != k);
    }
}

proof fn lemma_has_first_entry(s: Seq<(CapabilityId, ModuleId)>, k: Seq<char>, i: int)
    requires
        0 <= i < s.len(),
        s[i].0@ == k,
    ensures
        exists|c: int| first_entry(s, k, c),
    decreases i,
{
    if exists|j: int| 0 <= j < i && (#[trigger] s[j]).0@ == k {
        let j = choose|j: int| 0 <= j < i && (#[trigger] s[j]).0@ == k;
        lemma_has_first_entry(s, k, j);
    } else {
        assert(first_entry(s, k, i));
    }
}

impl CapabilitySelections {
    /// The chosen provider of each capability, by the capability's text.
    pub closed spec fn selected(&self) -> Map<Seq<char>, ModuleId> {
        choice_map(self.0@)
    }

    pub fn new() -> (r: Self)
        ensures
            r.selected() == Map::<Seq<char>, ModuleId>::empty(),
    {
        let r = CapabilitySelections(Vec::new());
        proof {
            assert(r.selected() =~= Map::<Seq<char>, ModuleId>::empty());
        }
        r
    }

    fn position(&self, capability: &CapabilityId) -> (r: Option<usize>)
        ensures
            r is None <==> !self.selected().dom().contains(capability@),
            r matches Some(i) ==> first_entry(self.0@, capability@, i as int),
    {
        let mut i: usize = 0;
        while i < self.0.len()
            invariant
                i <= self.0@.len(),
                forall|k: int| 0 <= k < i ==> (#[trigger] self.0@[k]).0@ != capability@,
            decreases self.0@.len() - i,
        {
            if self.0[i].0.same(capability) {
                return Some(i);
            }
            i = i + 1;
        }
        None
    }

    /// Chooses the provider of a capability, replacing an earlier choice.
    pub fn select(&mut self, capability: CapabilityId, module: ModuleId)
        ensures
            final(self).selected() == old(self).selected().insert(capability@, module),
    {
        let ghost before = self.0@;
        let ghost key = capability@;
        let found = self.position(&capability);
        match found {
            Some(i) => {
                self.0.set(i, (capability, module));
            },
            None => {
                self.0.push((capability, module));
            },
        }
        proof {
            let t = self.0@;
            let want = choice_map(before).insert(key, module);
            let p: int = match found {
                Some(i) => i as int,
                None => before.len() as int,
            };
            assert(t[p] == (capability, module));
            assert(first_entry(t, key, p));
            lemma_first_entry(t, key, p);
            assert forall|k: Seq<char>| #[trigger] choice_map(t).dom().contains(k) <==> want.dom().contains(k) by {
                if choice_map(before).dom().contains(k) {
                    let i = choose|i: int| 0 <= i < before.len() && (#[trigger] before[i]).0@ == k;
                    if i != p {
                        assert(t[i] == before[i]);
                    }
                }
                if choice_map(t).dom().contains(k) && k != key {
                    let i = choose|i: int| 0 <= i < t.len() && (#[trigger] t[i]).0@ == k;
                    assert(i != p);
                    assert(t[i] == before[i]);
                }
            }
            assert forall|k: Seq<char>| #[trigger] choice_map(t).dom().contains(k) implies choice_map(t)[k] == want[k] by {
                if k != key {
                    let i0 = choose|i: int| 0 <= i < before.len() && (#[trigger] before[i]).0@ == k;
                    lemma_has_first_entry(before, k, i0);
                    let i = choose|c: int| first_entry(before, k, c);
                    lemma_first_entry(before, k, i);
                    assert(i != p);
                    assert(t[i] == before[i]);
                    assert forall|j: int| 0 <= j < i implies (#[trigger] t[j]).0@ != k by {
                        if j != p {
                            assert(t[j] == before[j]);
                        }
                    }
                    assert(first_entry(t, k, i));
                    lemma_first_entry(t, k, i);
                }
            }
            assert(choice_map(t) =~= want);
        }
    }

    fn get(&self, capability: &CapabilityId) -> (r: Option<&ModuleId>)
        ensures
            r == if self.selected().dom().contains(capability@) {
                Some(&self.selected()[capability@])
            } else {
                None::<&ModuleId>
            },
    {
        match self.position(capability) {
            Some(i) => {
                proof {
                    lemma_first_entry(self.0@, capability@, i as int);
                }
                Some(&self.0[i].1)
            },
            None => None,
        }
    }
}

impl Default for CapabilitySelections {
    fn default() -> (r: Self)
        ensures
            r.selected() == Map::<Seq<char>, ModuleId>::empty(),
    {
        CapabilitySelections::new()
    }
}

#[derive(Debug, PartialEq, Eq)]
pub enum RegistryError {
    DuplicateModule(ModuleId),
    IncompatibleCoreApi { module: ModuleId, required: ApiVersion, current: ApiVersion },
    MissingModule { module: ModuleId, dependency: ModuleId },
    MissingCapability { module: ModuleId, capability: CapabilityId },
    AmbiguousCapability { capability: CapabilityId },
    InvalidCapabilitySelection { capability: CapabilityId, provider: ModuleId },
    DependencyCycle(ModuleId),
}

/// The identifiers of the descriptors, as texts.
pub open spec fn module_ids(s: Seq<ModuleDescriptor>) -> Seq<Seq<char>> {
    s.map_values(|d: ModuleDescriptor| d.id@)
}

/// The descriptors are strictly ascending by identifier.
pub open spec fn sorted_ids(s: Seq<ModuleDescriptor>) -> bool {
    forall|i: int, j: int| 0 <= i < j < s.len() ==> lex_lt(s[i].id@, s[j].id@)
}

/// The providers of capability `c` among the entries `caps` of module `id`:
/// one per matching entry.
pub open spec fn entries_for(id: ModuleId, caps: Seq<Seq<char>>, c: Seq<char>) -> Seq<ModuleId>
    decreases caps.len(),
{
    if caps.len() == 0 {
        Seq::empty()
    } else {
        entries_for(id, caps.drop_last(), c) + if caps.last() == c {
            seq![id]
        } else {
            Seq::empty()
        }
    }
}

/// The providers of capability `c`, module by module in registry order.
pub open spec fn provider_ids(mods: Seq<ModuleDescriptor>, c: Seq<char>) -> Seq<ModuleId>
    decreases mods.len(),
{
    if mods.len() == 0 {
        Seq::empty()
    } else {
        provider_ids(mods.drop_last(), c) + entries_for(
            mods.last().id,
            capability_views(mods.last().provides@),
            c,
        )
    }
}

/// The texts of a sequence of module identifiers.
pub open spec fn id_views(s: Seq<ModuleId>) -> Seq<Seq<char>> {
    s.map_values(|m: ModuleId| m@)
}

/// The module a capability requirement of `module` resolves to.
pub open spec fn capability_target(
    mods: Seq<ModuleDescriptor>,
    sel: Map<Seq<char>, ModuleId>,
    module: ModuleId,
    c: CapabilityId,
) -> Result<ModuleId, RegistryError> {
    let cands = provider_ids(mods, c@);
    if cands.len() == 0 {
        Err(RegistryError::MissingCapability { module, capability: c })
    } else if sel.dom().contains(c@) {
        if id_views(cands).contains(sel[c@]@) {
            Ok(sel[c@])
        } else {
            Err(RegistryError::InvalidCapabilitySelection { capability: c, provider: sel[c@] })
        }
    } else if cands.len() == 1 {
        Ok(cands[0])
    } else {
        Err(RegistryError::AmbiguousCapability { capability: c })
    }
}

/// The module one dependency of `m` resolves to.
pub open spec fn dep_target(
    mods: Seq<ModuleDescriptor>,
    sel: Map<Seq<char>, ModuleId>,
    m: ModuleDescriptor,
    d: Dependency,
) -> Result<ModuleId, RegistryError> {
    match d {
        Dependency::Module(x) => if module_ids(mods).contains(x@) {
            Ok(x)
        } else {
            Err(RegistryError::MissingModule { module: m.id, dependency: x })
        },
        Dependency::Capability(c) => capability_target(mods, sel, m.id, c),
    }
}

/// The targets of the first `k` dependencies of `m`, or the first failure.
pub open spec fn deps_of(
    mods: Seq<ModuleDescriptor>,
    sel: Map<Seq<char>, ModuleId>,
    m: ModuleDescriptor,
    k: int,
) -> Result<Seq<ModuleId>, RegistryError>
    decreases k,
{
    if k <= 0 {
        Ok(Seq::empty())
    } else {
        match deps_of(mods, sel, m, k - 1) {
            Err(e) => Err(e),
            Ok(v) => match dep_target(mods, sel, m, m.requires@[k - 1]) {
                Err(e) => Err(e),
                Ok(t) => Ok(v.push(t)),
            },
        }
    }
}

/// The dependency targets of the first `n` modules, or the first failure.
pub open spec fn graph_of(mods: Seq<ModuleDescriptor>, sel: Map<Seq<char>, ModuleId>, n: int) -> Result<
    Seq<Seq<ModuleId>>,
    RegistryError,
>
    decreases n,
{
    if n <= 0 {
        Ok(Seq::empty())
    } else {
        match graph_of(mods, sel, n - 1) {
            Err(e) => Err(e),
            Ok(g) => match deps_of(mods, sel, mods[n - 1], mods[n - 1].requires@.len() as int) {
                Err(e) => Err(e),
                Ok(v) => Ok(g.push(v)),
            },
        }
    }
}

/// Position of the module with this identifier.
pub open spec fn index_of_id(mods: Seq<ModuleDescriptor>, x: Seq<char>) -> int {
    choose|i: int| 0 <= i < mods.len() && (#[trigger] mods[i]).id@ == x
}

/// The dependency graph by positions.
pub open spec fn adjacency(mods: Seq<ModuleDescriptor>, g: Seq<Seq<ModuleId>>) -> Seq<Seq<int>> {
    g.map_values(|deps: Seq<ModuleId>| deps.map_values(|t: ModuleId| index_of_id(mods, t@)))
}

/// All positions of the graph lie in `0..n`.
pub open spec fn adj_ok(adj: Seq<Seq<int>>, n: int) -> bool {
    &&& adj.len() == n
    &&& forall|i: int, k: int| 0 <= i < n && 0 <= k < adj[i].len() ==> 0 <= #[trigger] adj[i][k] < n
}

/// A set of positions within `0..n`.
pub open spec fn within(s: Set<int>, n: int) -> bool {
    s.finite() && forall|x: int| s.contains(x) ==> 0 <= x < n
}

/// Depth-first visit of `node`: dependencies first, then the node. `path`
/// holds the nodes being visited; reaching one of them again is a cycle.
pub open spec fn visit(
    adj: Seq<Seq<int>>,
    n: int,
    node: int,
    path: Set<int>,
    done: Set<int>,
    order: Seq<int>,
) -> Result<(Set<int>, Seq<int>), int>
    decreases n - path.len(), 0int, 0int,
    when adj_ok(adj, n) && within(path, n) && 0 <= node < n
{
    if done.contains(node) {
        Ok((done, order))
    } else if path.contains(node) {
        Err(node)
    } else {
        proof {
            lemma_within_len(path.insert(node), n);
        }
        match visit_list(adj, n, adj[node], 0, path.insert(node), done, order) {
            Err(e) => Err(e),
            Ok((d, o)) => Ok((d.insert(node), o.push(node))),
        }
    }
}

/// Visits `deps[i..]` in order.
pub open spec fn visit_list(
    adj: Seq<Seq<int>>,
    n: int,
    deps: Seq<int>,
    i: int,
    path: Set<int>,
    done: Set<int>,
    order: Seq<int>,
) -> Result<(Set<int>, Seq<int>), int>
    decreases n - path.len(), 1int, deps.len() - i,
    when adj_ok(adj, n) && within(path, n) && path.len() <= n && (forall|k: int|
        0 <= k < deps.len() ==> 0 <= #[trigger] deps[k] < n) && 0 <= i
{
    if i >= deps.len() {
        Ok((done, order))
    } else {
        match visit(adj, n, deps[i], path, done, order) {
            Err(e) => Err(e),
            Ok((d, o)) => visit_list(adj, n, deps, i + 1, path, d, o),
        }
    }
}

/// Visits the nodes `k..n` in order.
pub open spec fn visit_all(adj: Seq<Seq<int>>, n: int, k: int, done: Set<int>, order: Seq<int>) -> Result<
    Seq<int>,
    int,
>
    decreases n - k,
{
    if k >= n || !adj_ok(adj, n) {
        Ok(order)
    } else {
        match visit(adj, n, k, Set::empty(), done, order) {
            Err(e) => Err(e),
            Ok((d, o)) => visit_all(adj, n, k + 1, d, o),
        }
    }
}

pub proof fn lemma_within_len(s: Set<int>, n: int)
    requires
        within(s, n),
        0 <= n,
    ensures
        s.len() <= n,
{
    if n <= 0 {
        assert(s =~= Set::<int>::empty()) by {
            assert forall|x: int| !s.contains(x) by {}
        }
    } else {
        let r = vstd::set_lib::set_int_range(0, n);
        vstd::set_lib::lemma_int_range(0, n);
        assert(s.subset_of(r));
        vstd::set_lib::lemma_len_subset(s, r);
    }
}

/// The start order, or the error, that resolution gives.
pub open spec fn resolution(mods: Seq<ModuleDescriptor>, sel: Map<Seq<char>, ModuleId>) -> Result<
    Seq<ModuleId>,
    RegistryError,
> {
    match graph_of(mods, sel, mods.len() as int) {
        Err(e) => Err(e),
        Ok(g) => match visit_all(adjacency(mods, g), mods.len() as int, 0, Set::empty(), Seq::empty()) {
            Err(node) => Err(RegistryError::DependencyCycle(mods[node].id)),
            Ok(order) => Ok(order.map_values(|i: int| mods[i].id)),
        },
    }
}


/// The positions set in a vector of flags.
pub open spec fn flag_set(v: Seq<bool>) -> Set<int> {
    Set::new(|i: int| 0 <= i < v.len() && v[i])
}

/// Positions as mathematical integers.
pub open spec fn positions(v: Seq<usize>) -> Seq<int> {
    v.map_values(|x: usize| x as int)
}

/// The dependency graph by positions, as vectors.
pub open spec fn adj_view(adj: Seq<Vec<usize>>) -> Seq<Seq<int>> {
    adj.map_values(|v: Vec<usize>| positions(v@))
}

proof fn lemma_flag_set(v: Seq<bool>)
    ensures
        within(flag_set(v), v.len() as int),
        flag_set(v).len() <= v.len(),
{
    let s = flag_set(v);
    let r = vstd::set_lib::set_int_range(0, v.len() as int);
    vstd::set_lib::lemma_int_range(0, v.len() as int);
    assert(s.subset_of(r));
    vstd::set_lib::lemma_len_subset(s, r);
}

proof fn lemma_flag_set_update(v: Seq<bool>, i: int, b: bool)
    requires
        0 <= i < v.len(),
    ensures
        flag_set(v.update(i, b)) == if b {
            flag_set(v).insert(i)
        } else {
            flag_set(v).remove(i)
        },
{
    if b {
        assert(flag_set(v.update(i, b)) =~= flag_set(v).insert(i));
    } else {
        assert(flag_set(v.update(i, b)) =~= flag_set(v).remove(i));
    }
}

/// Depth-first visit mirroring `visit`: flags stand for the path and the
/// finished nodes.
fn visit_exec(
    adj: &Vec<Vec<usize>>,
    node: usize,
    temporary: &mut Vec<bool>,
    permanent: &mut Vec<bool>,
    order: &mut Vec<usize>,
) -> (r: Result<(), usize>)
    requires
        adj_ok(adj_view(adj@), adj@.len() as int),
        old(temporary)@.len() == adj@.len(),
        old(permanent)@.len() == adj@.len(),
        node < adj@.len(),
    ensures
        final(temporary)@ == old(temporary)@,
        final(permanent)@.len() == adj@.len(),
        ({
            let spec_r = visit(
                adj_view(adj@),
                adj@.len() as int,
                node as int,
                flag_set(old(temporary)@),
                flag_set(old(permanent)@),
                positions(old(order)@),
            );
            match spec_r {
                Ok((d, o)) => r is Ok && flag_set(final(permanent)@) == d && positions(final(order)@) == o,
                Err(x) => r == Err::<(), usize>(x as usize) && 0 <= x < adj@.len(),
            }
        }),
    decreases adj@.len() - flag_set(old(temporary)@).len(), 0int,
{
    let n = adj.len();
    proof {
        lemma_flag_set(temporary@);
        lemma_flag_set(permanent@);
    }
    if permanent[node] {
        return Ok(());
    }
    if temporary[node] {
        return Err(node);
    }
    let ghost path = flag_set(temporary@);
    let ghost adjv = adj_view(adj@);
    temporary.set(node, true);
    proof {
        lemma_flag_set_update(old(temporary)@, node as int, true);
        lemma_flag_set(temporary@);
        lemma_within_len(path.insert(node as int), n as int);
        assert(!path.contains(node as int));
        assert(path.insert(node as int).len() == path.len() + 1);
    }
    let deps = &adj[node];
    let ghost deps_v = adjv[node as int];
    assert(!flag_set(old(permanent)@).contains(node as int));
    let ghost done0 = flag_set(permanent@);
    let ghost order0 = positions(order@);
    proof {
        assert(deps_v == positions(deps@));
    }
    let mut i: usize = 0;
    while i < deps.len()
        invariant
            n == adj@.len(),
            adjv == adj_view(adj@),
            adj_ok(adjv, n as int),
            node < n,
            deps@ == adj@[node as int]@,
            deps_v == positions(deps@),
            deps_v == adjv[node as int],
            i <= deps@.len(),
            old(temporary)@.len() == n,
            !old(temporary)@[node as int],
            !flag_set(old(permanent)@).contains(node as int),
            temporary@ == old(temporary)@.update(node as int, true),
            flag_set(temporary@) == path.insert(node as int),
            path == flag_set(old(temporary)@),
            within(path, n as int),
            !path.contains(node as int),
            done0 == flag_set(old(permanent)@),
            order0 == positions(old(order)@),
            within(path.insert(node as int), n as int),
            path.insert(node as int).len() <= n,
            path.insert(node as int).len() == path.len() + 1,
            permanent@.len() == n,
            visit_list(adjv, n as int, deps_v, 0, path.insert(node as int), done0, order0) == visit_list(
                adjv,
                n as int,
                deps_v,
                i as int,
                path.insert(node as int),
                flag_set(permanent@),
                positions(order@),
            ),
        decreases deps@.len() - i,
    {
        let dep = deps[i];
        proof {
            assert(deps_v[i as int] == dep as int);
            assert(0 <= adjv[node as int][i as int] < n);
        }
        let ghost before_done = flag_set(permanent@);
        let ghost before_order = positions(order@);
        match visit_exec(adj, dep, temporary, permanent, order) {
            Ok(()) => {},
            Err(x) => {
                proof {
                    let pth = path.insert(node as int);
                    let sr = visit(adjv, n as int, dep as int, pth, before_done, before_order);
                    assert(sr is Err);
                    assert(visit_list(adjv, n as int, deps_v, i as int, pth, before_done, before_order) == sr);
                    assert(visit(adjv, n as int, node as int, path, done0, order0) == visit_list(
                        adjv,
                        n as int,
                        deps_v,
                        0,
                        pth,
                        done0,
                        order0,
                    ));
                }
                temporary.set(node, false);
                proof {
                    assert(temporary@ =~= old(temporary)@);
                }
                return Err(x);
            },
        }
        i = i + 1;
    }
    temporary.set(node, false);
    proof {
        assert(temporary@ =~= old(temporary)@);
    }
    let ghost perm_before = permanent@;
    permanent.set(node, true);
    proof {
        lemma_flag_set_update(perm_before, node as int, true);
    }
    let ghost order_before = order@;
    order.push(node);
    proof {
        assert(positions(order@) =~= positions(order_before).push(node as int));
    }
    Ok(())
}


proof fn lemma_sorted_distinct(s: Seq<ModuleDescriptor>, i: int, j: int)
    requires
        sorted_ids(s),
        0 <= i < s.len(),
        0 <= j < s.len(),
        i != j,
    ensures
        s[i].id@ != s[j].id@,
{
    if i < j {
        lemma_lex_order(s[i].id@, s[j].id@, s[j].id@);
    } else {
        lemma_lex_order(s[j].id@, s[i].id@, s[i].id@);
    }
}

pub(crate) proof fn lemma_index_of_id(s: Seq<ModuleDescriptor>, i: int)
    requires
        sorted_ids(s),
        0 <= i < s.len(),
    ensures
        index_of_id(s, s[i].id@) == i,
        module_ids(s).contains(s[i].id@),
{
    assert(s[i].id@ == s[i].id@);
    let c = index_of_id(s, s[i].id@);
    if c != i {
        lemma_sorted_distinct(s, c, i);
    }
    assert(module_ids(s)[i] == s[i].id@);
}

proof fn lemma_entries_are(id: ModuleId, caps: Seq<Seq<char>>, c: Seq<char>)
    ensures
        forall|k: int| 0 <= k < entries_for(id, caps, c).len() ==> (#[trigger] entries_for(id, caps, c)[k]) == id,
    decreases caps.len(),
{
    if caps.len() > 0 {
        lemma_entries_are(id, caps.drop_last(), c);
        let a = entries_for(id, caps.drop_last(), c);
        assert forall|k: int| 0 <= k < entries_for(id, caps, c).len() implies #[trigger] entries_for(id, caps, c)[k] == id by {
            if k < a.len() {
                assert(entries_for(id, caps, c)[k] == a[k]);
            }
        }
    }
}

pub(crate) proof fn lemma_providers_are_modules(mods: Seq<ModuleDescriptor>, c: Seq<char>)
    ensures
        forall|k: int|
            0 <= k < provider_ids(mods, c).len() ==> module_ids(mods).contains(
                (#[trigger] provider_ids(mods, c)[k])@,
            ),
    decreases mods.len(),
{
    if mods.len() > 0 {
        let d = mods.drop_last();
        lemma_providers_are_modules(d, c);
        let last = mods.last();
        lemma_entries_are(last.id, capability_views(last.provides@), c);
        let a = provider_ids(d, c);
        let b = entries_for(last.id, capability_views(last.provides@), c);
        assert forall|k: int| 0 <= k < provider_ids(mods, c).len() implies module_ids(mods).contains(
            (#[trigger] provider_ids(mods, c)[k])@,
        ) by {
            if k < a.len() {
                assert(provider_ids(mods, c)[k] == a[k]);
                assert(module_ids(d).contains(a[k]@));
                let j = choose|j: int| 0 <= j < module_ids(d).len() && module_ids(d)[j] == a[k]@;
                assert(module_ids(mods)[j] == module_ids(d)[j]);
            } else {
                assert(provider_ids(mods, c)[k] == b[k - a.len()]);
                assert(module_ids(mods)[mods.len() - 1] == last.id@);
            }
        }
    }
}

proof fn lemma_deps_stable(
    mods: Seq<ModuleDescriptor>,
    sel: Map<Seq<char>, ModuleId>,
    m: ModuleDescriptor,
    k: int,
    n: int,
)
    requires
        deps_of(mods, sel, m, k) is Err,
        0 <= k <= n,
    ensures
        deps_of(mods, sel, m, n) == deps_of(mods, sel, m, k),
    decreases n - k,
{
    if k < n {
        lemma_deps_stable(mods, sel, m, k, n - 1);
    }
}

proof fn lemma_graph_stable(mods: Seq<ModuleDescriptor>, sel: Map<Seq<char>, ModuleId>, k: int, n: int)
    requires
        graph_of(mods, sel, k) is Err,
        0 <= k <= n,
    ensures
        graph_of(mods, sel, n) == graph_of(mods, sel, k),
    decreases n - k,
{
    if k < n {
        lemma_graph_stable(mods, sel, k, n - 1);
    }
}

/// Registry of validated module descriptors, kept in identifier order.
pub struct ModuleRegistry {
    core_api: ApiVersion,
    modules: Vec<ModuleDescriptor>,
}

impl ModuleRegistry {
    /// The core API version modules are checked against.
    pub closed spec fn api(&self) -> ApiVersion {
        self.core_api
    }

    /// The registered descriptors, in identifier order.
    pub closed spec fn modules(&self) -> Seq<ModuleDescriptor> {
        self.modules@
    }

    pub closed spec fn wf(&self) -> bool {
        sorted_ids(self.modules@)
    }

    /// In a well-formed registry each registered descriptor is found again
    /// by its identifier.
    pub proof fn lemma_registered_found(&self, i: int)
        requires
            self.wf(),
            0 <= i < self.modules().len(),
        ensures
            index_of_id(self.modules(), self.modules()[i].id@) == i,
            module_ids(self.modules()).contains(self.modules()[i].id@),
    {
        lemma_index_of_id(self.modules@, i);
    }

    /// A well-formed registry keeps its descriptors in identifier order.
    pub proof fn lemma_wf_sorted(&self)
        requires
            self.wf(),
        ensures
            sorted_ids(self.modules()),
    {
    }

    pub fn new(core_api: ApiVersion) -> (r: Self)
        ensures
            r.wf(),
            r.api() == core_api,
            r.modules().len() == 0,
    {
        ModuleRegistry { core_api, modules: Vec::new() }
    }

    /// Registers a descriptor once its core API requirement is known to be
    /// met; an identifier can be registered once.
    pub fn register(&mut self, descriptor: ModuleDescriptor) -> (r: Result<(), RegistryError>)
        requires
            old(self).wf(),
        ensures
            final(self).wf(),
            final(self).api() == old(self).api(),
            module_ids(old(self).modules()).contains(descriptor.id@) ==> (r matches Err(e) && e
                == RegistryError::DuplicateModule(descriptor.id) && final(self).modules()
                == old(self).modules()),
            !module_ids(old(self).modules()).contains(descriptor.id@) && !old(self).api().spec_supports(
                descriptor.required_core_api,
            ) ==> (r matches Err(e) && e == (RegistryError::IncompatibleCoreApi {
                module: descriptor.id,
                required: descriptor.required_core_api,
                current: old(self).api(),
            }) && final(self).modules() == old(self).modules()),
            !module_ids(old(self).modules()).contains(descriptor.id@) && old(self).api().spec_supports(
                descriptor.required_core_api,
            ) ==> (r is Ok && exists|p: int|
                0 <= p <= old(self).modules().len() && final(self).modules() == old(self).modules().insert(
                    p,
                    descriptor,
                )),
    {
        let n = self.modules.len();
        let mut p: usize = 0;
        while p < n && str_lt(self.modules[p].id.as_str(), descriptor.id.as_str())
            invariant
                n == self.modules@.len(),
                p <= n,
                sorted_ids(self.modules@),
                forall|j: int| 0 <= j < p ==> lex_lt((#[trigger] self.modules@[j]).id@, descriptor.id@),
            decreases n - p,
        {
            p = p + 1;
        }
        let ghost s = self.modules@;
        let ghost key = descriptor.id@;
        proof {
            assert forall|j: int| p < j < n implies lex_lt(key, (#[trigger] s[j]).id@) by {
                if !(s[p as int].id@ == key) {
                    lemma_lex_order(s[p as int].id@, key, s[j].id@);
                    lemma_lex_order(key, s[p as int].id@, s[j].id@);
                } else {
                    lemma_lex_order(key, s[j].id@, s[j].id@);
                }
            }
        }
        if p < n && self.modules[p].id.same(&descriptor.id) {
            proof {
                assert(module_ids(s)[p as int] == key);
            }
            return Err(RegistryError::DuplicateModule(descriptor.id));
        }
        proof {
            assert(!module_ids(s).contains(key)) by {
                if module_ids(s).contains(key) {
                    let j = choose|j: int| 0 <= j < module_ids(s).len() && module_ids(s)[j] == key;
                    assert(s[j].id@ == key);
                    if j < p {
                        lemma_lex_order(key, key, key);
                    } else if j > p {
                        lemma_lex_order(key, key, key);
                    } else {
                        if p < n {
                            lemma_lex_order(key, key, key);
                            lemma_lex_order(s[p as int].id@, key, key);
                        }
                    }
                }
            }
        }
        if !self.core_api.supports(descriptor.required_core_api) {
            return Err(
                RegistryError::IncompatibleCoreApi {
                    module: descriptor.id,
                    required: descriptor.required_core_api,
                    current: self.core_api,
                },
            );
        }
        proof {
            if p < n {
                lemma_lex_order(s[p as int].id@, key, key);
                assert(s[p as int].id@ != key);
                lemma_lex_order(key, s[p as int].id@, key);
            }
        }
        self.modules.insert(p, descriptor);
        proof {
            let t = self.modules@;
            assert forall|i: int, j: int| 0 <= i < j < t.len() implies lex_lt(t[i].id@, t[j].id@) by {
                if i < p && j < p {
                    assert(t[i] == s[i] && t[j] == s[j]);
                } else if i < p && j == p {
                    assert(t[i] == s[i]);
                } else if i < p {
                    assert(t[i] == s[i] && t[j] == s[j - 1]);
                    lemma_lex_order(s[i].id@, key, s[j - 1].id@);
                } else if i == p {
                    assert(t[j] == s[j - 1]);
                } else {
                    assert(t[i] == s[i - 1] && t[j] == s[j - 1]);
                }
            }
        }
        Ok(())
    }

    fn index_of(&self, id: &ModuleId) -> (r: Option<usize>)
        requires
            self.wf(),
        ensures
            r is None <==> !module_ids(self.modules()).contains(id@),
            r matches Some(i) ==> i < self.modules().len() && self.modules()[i as int].id@ == id@
                && index_of_id(self.modules(), id@) == i,
    {
        let mut i: usize = 0;
        while i < self.modules.len()
            invariant
                i <= self.modules@.len(),
                sorted_ids(self.modules@),
                forall|k: int| 0 <= k < i ==> (#[trigger] self.modules@[k]).id@ != id@,
            decreases self.modules@.len() - i,
        {
            if self.modules[i].id.same(id) {
                proof {
                    lemma_index_of_id(self.modules@, i as int);
                }
                return Some(i);
            }
            i = i + 1;
        }
        proof {
            if module_ids(self.modules@).contains(id@) {
                let k = choose|k: int| 0 <= k < module_ids(self.modules@).len() && module_ids(self.modules@)[k] == id@;
                assert(self.modules@[k].id@ == id@);
            }
        }
        None
    }

    pub fn descriptor(&self, id: &ModuleId) -> (r: Option<&ModuleDescriptor>)
        requires
            self.wf(),
        ensures
            r is Some <==> module_ids(self.modules()).contains(id@),
            r matches Some(d) ==> *d == self.modules()[index_of_id(self.modules(), id@)] && d.id@ == id@,
    {
        match self.index_of(id) {
            Some(i) => Some(&self.modules[i]),
            None => None,
        }
    }

    /// The registered descriptors, in identifier order.
    pub fn descriptors(&self) -> (r: &[ModuleDescriptor])
        ensures
            r@ == self.modules(),
    {
        self.modules.as_slice()
    }
}


impl ModuleRegistry {
    /// The providers of a capability, module by module in identifier order.
    fn capability_providers(&self, capability: &CapabilityId) -> (r: Vec<ModuleId>)
        ensures
            r@ == provider_ids(self.modules(), capability@),
    {
        let ghost mods = self.modules@;
        let ghost c = capability@;
        let mut out: Vec<ModuleId> = Vec::new();
        let mut i: usize = 0;
        while i < self.modules.len()
            invariant
                mods == self.modules@,
                c == capability@,
                i <= mods.len(),
                out@ == provider_ids(mods.take(i as int), c),
            decreases mods.len() - i,
        {
            let d = &self.modules[i];
            let ghost caps = capability_views(d.provides@);
            let ghost before = out@;
            let mut j: usize = 0;
            while j < d.provides.len()
                invariant
                    d == mods[i as int],
                    caps == capability_views(d.provides@),
                    c == capability@,
                    j <= d.provides@.len(),
                    out@ == before + entries_for(d.id, caps.take(j as int), c),
                decreases d.provides@.len() - j,
            {
                proof {
                    assert(caps.take(j + 1).drop_last() =~= caps.take(j as int));
                    assert(caps.take(j + 1).last() == d.provides@[j as int]@);
                }
                if d.provides[j].same(capability) {
                    out.push(d.id.duplicate());
                    proof {
                        assert(out@ =~= before + entries_for(d.id, caps.take(j + 1), c));
                    }
                } else {
                    proof {
                        assert(out@ =~= before + entries_for(d.id, caps.take(j + 1), c));
                    }
                }
                j = j + 1;
            }
            proof {
                assert(caps.take(j as int) =~= caps);
                assert(mods.take(i + 1).drop_last() =~= mods.take(i as int));
                assert(mods.take(i + 1).last() == d);
            }
            i = i + 1;
        }
        proof {
            assert(mods.take(i as int) =~= mods);
        }
        out
    }

    fn resolve_capability(
        &self,
        module: &ModuleId,
        capability: &CapabilityId,
        selections: &CapabilitySelections,
    ) -> (r: Result<ModuleId, RegistryError>)
        ensures
            r == capability_target(self.modules(), selections.selected(), *module, *capability),
    {
        let candidates = self.capability_providers(capability);
        if candidates.len() == 0 {
            return Err(
                RegistryError::MissingCapability {
                    module: module.duplicate(),
                    capability: capability.duplicate(),
                },
            );
        }
        match selections.get(capability) {
            Some(selected) => {
                let mut k: usize = 0;
                while k < candidates.len()
                    invariant
                        candidates@ == provider_ids(self.modules(), capability@),
                        candidates@.len() > 0,
                        selections.selected().dom().contains(capability@),
                        *selected == selections.selected()[capability@],
                        k <= candidates@.len(),
                        forall|q: int| 0 <= q < k ==> (#[trigger] candidates@[q])@ != selected@,
                    decreases candidates@.len() - k,
                {
                    if candidates[k].same(selected) {
                        proof {
                            assert(id_views(candidates@)[k as int] == selected@);
                            assert(id_views(candidates@).contains(selected@));
                        }
                        return Ok(selected.duplicate());
                    }
                    k = k + 1;
                }
                proof {
                    if id_views(candidates@).contains(selected@) {
                        let q = choose|q: int| 0 <= q < id_views(candidates@).len() && id_views(candidates@)[q] == selected@;
                        assert(candidates@[q]@ == selected@);
                    }
                }
                Err(
                    RegistryError::InvalidCapabilitySelection {
                        capability: capability.duplicate(),
                        provider: selected.duplicate(),
                    },
                )
            },
            None => {
                if candidates.len() == 1 {
                    return Ok(candidates[0].duplicate());
                }
                Err(RegistryError::AmbiguousCapability { capability: capability.duplicate() })
            },
        }
    }

    fn dependency_target(
        &self,
        m: &ModuleDescriptor,
        dependency: &Dependency,
        selections: &CapabilitySelections,
    ) -> (r: Result<ModuleId, RegistryError>)
        requires
            self.wf(),
        ensures
            r == dep_target(self.modules(), selections.selected(), *m, *dependency),
    {
        match dependency {
            Dependency::Module(id) => {
                if self.index_of(id).is_none() {
                    return Err(
                        RegistryError::MissingModule { module: m.id.duplicate(), dependency: id.duplicate() },
                    );
                }
                Ok(id.duplicate())
            },
            Dependency::Capability(c) => self.resolve_capability(&m.id, c, selections),
        }
    }

    /// A deterministic dependency-first order of all modules; missing,
    /// ambiguous or cyclic dependencies are refused before any module runs.
    pub fn resolve_order(&self, selections: &CapabilitySelections) -> (r: Result<Vec<ModuleId>, RegistryError>)
        requires
            self.wf(),
        ensures
            match resolution(self.modules(), selections.selected()) {
                Ok(order) => r matches Ok(v) && v@ == order,
                Err(e) => r matches Err(x) && x == e,
            },
    {
        let ghost mods = self.modules@;
        let ghost sel = selections.selected();
        let n = self.modules.len();
        let mut adj: Vec<Vec<usize>> = Vec::new();
        let ghost mut g: Seq<Seq<ModuleId>> = Seq::empty();
        let mut i: usize = 0;
        while i < n
            invariant
                mods == self.modules@,
                sel == selections.selected(),
                sorted_ids(mods),
                n == mods.len(),
                i <= n,
                graph_of(mods, sel, i as int) == Ok::<Seq<Seq<ModuleId>>, RegistryError>(g),
                adj_view(adj@) == adjacency(mods, g),
                adj@.len() == i,
                forall|a: int, b: int| 0 <= a < i && 0 <= b < adj@[a]@.len() ==> #[trigger] adj@[a]@[b] < n,
            decreases n - i,
        {
            let m = &self.modules[i];
            let mut deps: Vec<usize> = Vec::new();
            let ghost mut dv: Seq<ModuleId> = Seq::empty();
            let mut k: usize = 0;
            while k < m.requires.len()
                invariant
                    mods == self.modules@,
                    sel == selections.selected(),
                    sorted_ids(mods),
                    n == mods.len(),
                    i < n,
                    graph_of(mods, sel, i as int) == Ok::<Seq<Seq<ModuleId>>, RegistryError>(g),
                    m == mods[i as int],
                    k <= m.requires@.len(),
                    deps_of(mods, sel, *m, k as int) == Ok::<Seq<ModuleId>, RegistryError>(dv),
                    positions(deps@) == dv.map_values(|t: ModuleId| index_of_id(mods, t@)),
                    forall|b: int| 0 <= b < deps@.len() ==> #[trigger] deps@[b] < n,
                decreases m.requires@.len() - k,
            {
                match self.dependency_target(m, &m.requires[k], selections) {
                    Err(e) => {
                        proof {
                            assert(deps_of(mods, sel, *m, k + 1) == Err::<Seq<ModuleId>, RegistryError>(e));
                            lemma_deps_stable(mods, sel, *m, k + 1, m.requires@.len() as int);
                            assert(*m == mods[i as int]);
                            assert(deps_of(mods, sel, mods[i as int], mods[i as int].requires@.len() as int)
                                == Err::<Seq<ModuleId>, RegistryError>(e));
                            assert(graph_of(mods, sel, i + 1) == Err::<Seq<Seq<ModuleId>>, RegistryError>(e));
                            lemma_graph_stable(mods, sel, i + 1, n as int);
                        }
                        return Err(e);
                    },
                    Ok(t) => {
                        proof {
                            match m.requires@[k as int] {
                                Dependency::Module(x) => {},
                                Dependency::Capability(c) => {
                                    lemma_providers_are_modules(mods, c@);
                                    let cands = provider_ids(mods, c@);
                                    if sel.dom().contains(c@) {
                                        let q = choose|q: int| 0 <= q < id_views(cands).len() && id_views(cands)[q] == sel[c@]@;
                                        assert(module_ids(mods).contains(cands[q]@));
                                    } else {
                                        assert(module_ids(mods).contains(cands[0]@));
                                    }
                                },
                            }
                            assert(module_ids(mods).contains(t@));
                        }
                        let idx = match self.index_of(&t) {
                            Some(x) => x,
                            None => return Err(RegistryError::MissingModule { module: m.id.duplicate(), dependency: t }),
                        };
                        let ghost before = deps@;
                        let ghost dv0 = dv;
                        deps.push(idx);
                        proof {
                            dv = dv.push(t);
                            assert(positions(deps@) =~= positions(before).push(idx as int));
                            assert(dv.map_values(|t: ModuleId| index_of_id(mods, t@)) =~= dv0.map_values(
                                |t: ModuleId| index_of_id(mods, t@),
                            ).push(index_of_id(mods, t@)));
                        }
                    },
                }
                k = k + 1;
            }
            proof {
                assert(m.requires@.len() as int == mods[i as int].requires@.len());
                g = g.push(dv);
                assert(graph_of(mods, sel, i + 1) == Ok::<Seq<Seq<ModuleId>>, RegistryError>(g));
            }
            let ghost adj_before = adj@;
            let ghost deps_v = deps@;
            adj.push(deps);
            proof {
                assert(adj_view(adj@) =~= adj_view(adj_before).push(positions(deps_v)));
                assert(adjacency(mods, g) =~= adjacency(mods, g.drop_last()).push(
                    dv.map_values(|t: ModuleId| index_of_id(mods, t@)),
                )) by {
                    assert(g.drop_last() =~= g.take(g.len() - 1));
                }
                assert forall|a: int, b: int| 0 <= a < i + 1 && 0 <= b < adj@[a]@.len() implies #[trigger] adj@[a]@[b] < n by {
                    if a < i {
                        assert(adj@[a] == adj_before[a]);
                    }
                }
            }
            i = i + 1;
        }
        let ghost adjv = adj_view(adj@);
        proof {
            assert(adj_ok(adjv, n as int)) by {
                assert forall|a: int, b: int| 0 <= a < n && 0 <= b < adjv[a].len() implies 0 <= #[trigger] adjv[a][b] < n by {
                    assert(adjv[a][b] == adj@[a]@[b] as int);
                }
            }
        }
        let mut temporary: Vec<bool> = Vec::new();
        let mut permanent: Vec<bool> = Vec::new();
        let mut j: usize = 0;
        while j < n
            invariant
                j <= n,
                temporary@.len() == j,
                permanent@.len() == j,
                forall|q: int| 0 <= q < j ==> !temporary@[q] && !permanent@[q],
            decreases n - j,
        {
            temporary.push(false);
            permanent.push(false);
            j = j + 1;
        }
        proof {
            assert(flag_set(temporary@) =~= Set::<int>::empty());
            assert(flag_set(permanent@) =~= Set::<int>::empty());
        }
        let mut order: Vec<usize> = Vec::new();
        proof {
            assert(positions(order@) =~= Seq::<int>::empty());
        }
        let mut node: usize = 0;
        while node < n
            invariant
                mods == self.modules@,
                sel == selections.selected(),
                n == mods.len(),
                graph_of(mods, sel, n as int) == Ok::<Seq<Seq<ModuleId>>, RegistryError>(g),
                adjv == adjacency(mods, g),
                n == adj@.len(),
                adjv == adj_view(adj@),
                adj_ok(adjv, n as int),
                node <= n,
                temporary@.len() == n,
                permanent@.len() == n,
                forall|q: int| 0 <= q < n ==> !temporary@[q],
                visit_all(adjv, n as int, 0, Set::empty(), Seq::empty()) == visit_all(
                    adjv,
                    n as int,
                    node as int,
                    flag_set(permanent@),
                    positions(order@),
                ),
                forall|q: int| 0 <= q < order@.len() ==> #[trigger] order@[q] < n,
            decreases n - node,
        {
            proof {
                assert(flag_set(temporary@) =~= Set::<int>::empty());
            }
            let ghost done_before = flag_set(permanent@);
            let ghost order_before = positions(order@);
            proof {
                lemma_visit_range(adjv, n as int, node as int, Set::empty(), done_before, order_before);
            }
            match visit_exec(&adj, node, &mut temporary, &mut permanent, &mut order) {
                Ok(()) => {},
                Err(x) => {
                    proof {
                        assert(visit_all(adjv, n as int, node as int, done_before, order_before) == Err::<Seq<int>, int>(x as int));
                    }
                    return Err(RegistryError::DependencyCycle(self.modules[x].id.duplicate()));
                },
            }
            proof {
                assert forall|q: int| 0 <= q < order@.len() implies #[trigger] order@[q] < n by {
                    assert(positions(order@)[q] == order@[q] as int);
                }
            }
            node = node + 1;
        }
        let mut result: Vec<ModuleId> = Vec::new();
        let mut q: usize = 0;
        while q < order.len()
            invariant
                q <= order@.len(),
                mods == self.modules@,
                n == mods.len(),
                forall|z: int| 0 <= z < order@.len() ==> #[trigger] order@[z] < n,
                result@ == positions(order@).take(q as int).map_values(|i: int| mods[i].id),
            decreases order@.len() - q,
        {
            result.push(self.modules[order[q]].id.duplicate());
            proof {
                assert(positions(order@).take(q + 1).map_values(|i: int| mods[i].id) =~= positions(order@).take(
                    q as int,
                ).map_values(|i: int| mods[i].id).push(mods[order@[q as int] as int].id));
            }
            q = q + 1;
        }
        proof {
            assert(positions(order@).take(q as int) =~= positions(order@));
        }
        Ok(result)
    }
}


proof fn lemma_visit_range(adj: Seq<Seq<int>>, n: int, node: int, path: Set<int>, done: Set<int>, order: Seq<int>)
    requires
        adj_ok(adj, n),
        within(path, n),
        0 <= node < n,
        forall|q: int| 0 <= q < order.len() ==> 0 <= #[trigger] order[q] < n,
    ensures
        visit(adj, n, node, path, done, order) matches Ok((d, o)) ==> forall|q: int|
            0 <= q < o.len() ==> 0 <= #[trigger] o[q] < n,
    decreases n - path.len(), 0int, 0int,
{
    if !done.contains(node) && !path.contains(node) {
        lemma_within_len(path.insert(node), n);
        lemma_visit_list_range(adj, n, adj[node], 0, path.insert(node), done, order);
        match visit_list(adj, n, adj[node], 0, path.insert(node), done, order) {
            Ok((d, o)) => {
                assert forall|q: int| 0 <= q < o.push(node).len() implies 0 <= #[trigger] o.push(node)[q] < n by {
                    if q < o.len() {
                        assert(o.push(node)[q] == o[q]);
                    }
                }
            },
            Err(_) => {},
        }
    }
}

proof fn lemma_visit_list_range(
    adj: Seq<Seq<int>>,
    n: int,
    deps: Seq<int>,
    i: int,
    path: Set<int>,
    done: Set<int>,
    order: Seq<int>,
)
    requires
        adj_ok(adj, n),
        within(path, n),
        path.len() <= n,
        forall|k: int| 0 <= k < deps.len() ==> 0 <= #[trigger] deps[k] < n,
        0 <= i,
        forall|q: int| 0 <= q < order.len() ==> 0 <= #[trigger] order[q] < n,
    ensures
        visit_list(adj, n, deps, i, path, done, order) matches Ok((d, o)) ==> forall|q: int|
            0 <= q < o.len() ==> 0 <= #[trigger] o[q] < n,
    decreases n - path.len(), 1int, deps.len() - i,
{
    if i < deps.len() {
        lemma_visit_range(adj, n, deps[i], path, done, order);
        match visit(adj, n, deps[i], path, done, order) {
            Ok((d, o)) => {
                lemma_visit_list_range(adj, n, deps, i + 1, path, d, o);
            },
            Err(_) => {},
        }
    }
}

} // verus!
