//! What the resolved start order guarantees: every registered module appears
//! exactly once, and every module comes after all of its resolved
//! dependencies.

use crate::registry::{
    adj_ok, adjacency, deps_of, dep_target, graph_of, id_views, index_of_id, lemma_index_of_id,
    lemma_providers_are_modules, lemma_within_len, module_ids, provider_ids, resolution, sorted_ids,
    visit, visit_all, visit_list, within, capability_target,
};
use crate::core_types::{Dependency, ModuleDescriptor, ModuleId};
use vstd::prelude::*;

verus! {

/// `order` lists the nodes of `done` once each, every one after the nodes it
/// depends on.
pub open spec fn dependency_ordered(adj: Seq<Seq<int>>, n: int, done: Set<int>, order: Seq<int>) -> bool {
    &&& forall|x: int| done.contains(x) <==> order.contains(x)
    &&& forall|i: int, j: int| 0 <= i < j < order.len() ==> order[i] != order[j]
    &&& forall|q: int| 0 <= q < order.len() ==> 0 <= #[trigger] order[q] < n
    &&& forall|p: int, k: int|
        #![trigger adj[order[p]][k]]
        0 <= p < order.len() && 0 <= k < adj[order[p]].len() ==> order.take(p).contains(adj[order[p]][k])
}

proof fn lemma_push_ordered(adj: Seq<Seq<int>>, n: int, d: Set<int>, o: Seq<int>, node: int)
    requires
        adj_ok(adj, n),
        0 <= node < n,
        dependency_ordered(adj, n, d, o),
        !d.contains(node),
        forall|k: int| 0 <= k < adj[node].len() ==> d.contains(#[trigger] adj[node][k]),
    ensures
        dependency_ordered(adj, n, d.insert(node), o.push(node)),
{
    let o2 = o.push(node);
    assert forall|x: int| d.insert(node).contains(x) <==> o2.contains(x) by {
        if o2.contains(x) {
            let q = choose|q: int| 0 <= q < o2.len() && o2[q] == x;
            if q < o.len() {
                assert(o[q] == x);
                assert(o.contains(x));
            }
        }
        if d.contains(x) {
            assert(o.contains(x));
            let q = choose|q: int| 0 <= q < o.len() && o[q] == x;
            assert(o2[q] == x);
        }
        if x == node {
            assert(o2[o.len() as int] == node);
        }
    }
    assert forall|i: int, j: int| 0 <= i < j < o2.len() implies o2[i] != o2[j] by {
        if j == o.len() {
            assert(o2[i] == o[i]);
            assert(o.contains(o[i]));
        } else {
            assert(o2[i] == o[i]);
            assert(o2[j] == o[j]);
        }
    }
    assert forall|q: int| 0 <= q < o2.len() implies 0 <= #[trigger] o2[q] < n by {
        if q < o.len() {
            assert(o2[q] == o[q]);
        }
    }
    assert forall|p: int, k: int|
        #![trigger adj[o2[p]][k]]
        0 <= p < o2.len() && 0 <= k < adj[o2[p]].len() implies o2.take(p).contains(adj[o2[p]][k]) by {
        if p < o.len() {
            assert(o2[p] == o[p]);
            assert(o2.take(p) =~= o.take(p));
            assert(o.take(p).contains(adj[o[p]][k]));
        } else {
            assert(o2[p] == node);
            assert(o2.take(p) =~= o);
            assert(d.contains(adj[node][k]));
        }
    }
}

proof fn lemma_visit_ordered(adj: Seq<Seq<int>>, n: int, node: int, path: Set<int>, done: Set<int>, order: Seq<int>)
    requires
        adj_ok(adj, n),
        within(path, n),
        0 <= node < n,
        dependency_ordered(adj, n, done, order),
    ensures
        visit(adj, n, node, path, done, order) matches Ok((d, o)) ==> {
            &&& dependency_ordered(adj, n, d, o)
            &&& d.contains(node)
            &&& order.len() <= o.len() && o.take(order.len() as int) == order
            &&& forall|x: int| done.contains(x) ==> d.contains(x)
            &&& forall|x: int| d.contains(x) && !done.contains(x) ==> !path.contains(x)
        },
    decreases n - path.len(), 0int, 0int,
{
    if done.contains(node) {
        assert(order.take(order.len() as int) =~= order);
    } else if !path.contains(node) {
        let p2 = path.insert(node);
        lemma_within_len(p2, n);
        lemma_visit_list_ordered(adj, n, adj[node], 0, p2, done, order);
        match visit_list(adj, n, adj[node], 0, p2, done, order) {
            Ok((d, o)) => {
                assert(!d.contains(node));
                lemma_push_ordered(adj, n, d, o, node);
                assert(o.push(node).take(order.len() as int) =~= o.take(order.len() as int));
            },
            Err(_) => {},
        }
    }
}

proof fn lemma_visit_list_ordered(
    adj: Seq<Seq<int>>,
    n: int,
    deps: Seq<int>,
    i: int,
    path: Set<int>,
    done: Set<int>,
    order: Seq<int>,
)
    requires
        adj_ok(adj, n),
        within(path, n),
        path.len() <= n,
        forall|k: int| 0 <= k < deps.len() ==> 0 <= #[trigger] deps[k] < n,
        0 <= i,
        dependency_ordered(adj, n, done, order),
    ensures
        visit_list(adj, n, deps, i, path, done, order) matches Ok((d, o)) ==> {
            &&& dependency_ordered(adj, n, d, o)
            &&& forall|k: int| i <= k < deps.len() ==> d.contains(#[trigger] deps[k])
            &&& order.len() <= o.len() && o.take(order.len() as int) == order
            &&& forall|x: int| done.contains(x) ==> d.contains(x)
            &&& forall|x: int| d.contains(x) && !done.contains(x) ==> !path.contains(x)
        },
    decreases n - path.len(), 1int, deps.len() - i,
{
    if i >= deps.len() {
        assert(order.take(order.len() as int) =~= order);
    } else {
        lemma_visit_ordered(adj, n, deps[i], path, done, order);
        match visit(adj, n, deps[i], path, done, order) {
            Ok((d1, o1)) => {
                lemma_visit_list_ordered(adj, n, deps, i + 1, path, d1, o1);
                match visit_list(adj, n, deps, i + 1, path, d1, o1) {
                    Ok((d2, o2)) => {
                        assert(o2.take(order.len() as int) =~= o2.take(o1.len() as int).take(order.len() as int));
                    },
                    Err(_) => {},
                }
            },
            Err(_) => {},
        }
    }
}

proof fn lemma_visit_all_ordered(adj: Seq<Seq<int>>, n: int, k: int, done: Set<int>, order: Seq<int>)
    requires
        adj_ok(adj, n),
        0 <= k <= n,
        dependency_ordered(adj, n, done, order),
        forall|x: int| 0 <= x < k ==> done.contains(x),
    ensures
        visit_all(adj, n, k, done, order) matches Ok(o) ==> dependency_ordered(adj, n, Set::new(
            |x: int| 0 <= x < n,
        ), o),
    decreases n - k,
{
    if k >= n {
        assert forall|x: int| done.contains(x) <==> (0 <= x < n) by {
            if done.contains(x) {
                assert(order.contains(x));
                let q = choose|q: int| 0 <= q < order.len() && order[q] == x;
            }
        }
        assert(done =~= Set::new(|x: int| 0 <= x < n));
    } else {
        assert(within(Set::<int>::empty(), n));
        lemma_visit_ordered(adj, n, k, Set::empty(), done, order);
        match visit(adj, n, k, Set::empty(), done, order) {
            Ok((d, o)) => {
                lemma_visit_all_ordered(adj, n, k + 1, d, o);
            },
            Err(_) => {},
        }
    }
}

/// Positions listed once each in range `0..n`, `n` of them in all, cover the
/// whole range.
proof fn lemma_ordered_counts(adj: Seq<Seq<int>>, n: int, o: Seq<int>)
    requires
        dependency_ordered(adj, n, Set::new(|x: int| 0 <= x < n), o),
        0 <= n,
    ensures
        o.len() == n,
{
    let s = Set::new(|x: int| 0 <= x < n);
    assert(o.to_set() =~= s) by {
        assert forall|x: int| o.to_set().contains(x) <==> s.contains(x) by {}
    }
    o.unique_seq_to_set();
    vstd::set_lib::lemma_int_range(0, n);
    assert(s =~= vstd::set_lib::set_int_range(0, n));
}

/// The dependency targets resolved for a module are registered modules.
proof fn lemma_deps_registered(mods: Seq<ModuleDescriptor>, sel: Map<Seq<char>, ModuleId>, m: ModuleDescriptor, k: int)
    requires
        0 <= k,
    ensures
        deps_of(mods, sel, m, k) matches Ok(v) ==> v.len() == k && forall|j: int|
            0 <= j < v.len() ==> module_ids(mods).contains(#[trigger] v[j]@),
    decreases k,
{
    if k > 0 {
        lemma_deps_registered(mods, sel, m, k - 1);
        match deps_of(mods, sel, m, k - 1) {
            Ok(v) => match dep_target(mods, sel, m, m.requires@[k - 1]) {
                Ok(t) => {
                    match m.requires@[k - 1] {
                        Dependency::Module(_) => {},
                        Dependency::Capability(c) => {
                            lemma_providers_are_modules(mods, c@);
                            let cands = provider_ids(mods, c@);
                            if cands.len() > 0 && sel.dom().contains(c@) && id_views(cands).contains(sel[c@]@) {
                                let q = choose|q: int| 0 <= q < id_views(cands).len() && id_views(cands)[q] == sel[c@]@;
                                assert(module_ids(mods).contains(cands[q]@));
                            } else if cands.len() > 0 {
                                assert(module_ids(mods).contains(cands[0]@));
                            }
                        },
                    }
                    assert forall|j: int| 0 <= j < v.push(t).len() implies module_ids(mods).contains(
                        #[trigger] v.push(t)[j]@,
                    ) by {
                        if j < v.len() {
                            assert(v.push(t)[j] == v[j]);
                        }
                    }
                },
                Err(_) => {},
            },
            Err(_) => {},
        }
    }
}

/// The dependency graph has one entry per module, pointing at registered
/// modules only.
proof fn lemma_graph_registered(mods: Seq<ModuleDescriptor>, sel: Map<Seq<char>, ModuleId>, n: int)
    requires
        0 <= n <= mods.len(),
    ensures
        graph_of(mods, sel, n) matches Ok(g) ==> g.len() == n && forall|i: int, j: int|
            0 <= i < n && 0 <= j < g[i].len() ==> module_ids(mods).contains(#[trigger] g[i][j]@),
    decreases n,
{
    if n > 0 {
        lemma_graph_registered(mods, sel, n - 1);
        lemma_deps_registered(mods, sel, mods[n - 1], mods[n - 1].requires@.len() as int);
        match graph_of(mods, sel, n - 1) {
            Ok(g) => match deps_of(mods, sel, mods[n - 1], mods[n - 1].requires@.len() as int) {
                Ok(v) => {
                    assert forall|i: int, j: int|
                        0 <= i < n && 0 <= j < g.push(v)[i].len() implies module_ids(mods).contains(
                        #[trigger] g.push(v)[i][j]@,
                    ) by {
                        if i < n - 1 {
                            assert(g.push(v)[i] == g[i]);
                        }
                    }
                },
                Err(_) => {},
            },
            Err(_) => {},
        }
    }
}

/// A registered identifier is found again at its position.
proof fn lemma_found(mods: Seq<ModuleDescriptor>, x: Seq<char>)
    requires
        sorted_ids(mods),
        module_ids(mods).contains(x),
    ensures
        0 <= index_of_id(mods, x) < mods.len(),
        mods[index_of_id(mods, x)].id@ == x,
{
    let i = choose|i: int| 0 <= i < module_ids(mods).len() && module_ids(mods)[i] == x;
    assert(mods[i].id@ == x);
    lemma_index_of_id(mods, i);
}

/// The start order of a registry: when resolution succeeds, it lists every
/// registered module exactly once, and each module comes after every module
/// its dependencies resolved to.
pub proof fn lemma_resolution_order(mods: Seq<ModuleDescriptor>, sel: Map<Seq<char>, ModuleId>)
    requires
        sorted_ids(mods),
    ensures
        resolution(mods, sel) matches Ok(order) ==> {
            &&& order.len() == mods.len()
            &&& forall|i: int| 0 <= i < mods.len() ==> id_views(order).contains(#[trigger] mods[i].id@)
            &&& forall|a: int, b: int| 0 <= a < b < order.len() ==> order[a]@ != order[b]@
            &&& graph_of(mods, sel, mods.len() as int) matches Ok(g) && forall|p: int, k: int|
                0 <= p < order.len() && 0 <= k < g[index_of_id(mods, order[p]@)].len() ==> id_views(
                    order.take(p),
                ).contains(#[trigger] g[index_of_id(mods, order[p]@)][k]@)
        },
{
    let n = mods.len() as int;
    lemma_graph_registered(mods, sel, n);
    match graph_of(mods, sel, n) {
        Err(_) => {},
        Ok(g) => {
            let adj = adjacency(mods, g);
            assert(adj_ok(adj, n)) by {
                assert forall|i: int, k: int| 0 <= i < n && 0 <= k < adj[i].len() implies 0 <= #[trigger] adj[i][k] < n by {
                    assert(adj[i][k] == index_of_id(mods, g[i][k]@));
                    lemma_found(mods, g[i][k]@);
                }
            }
            assert(dependency_ordered(adj, n, Set::empty(), Seq::empty())) by {
                assert forall|x: int| Set::<int>::empty().contains(x) <==> Seq::<int>::empty().contains(x) by {}
            }
            lemma_visit_all_ordered(adj, n, 0, Set::empty(), Seq::empty());
            match visit_all(adj, n, 0, Set::empty(), Seq::empty()) {
                Err(_) => {},
                Ok(o) => {
                    lemma_ordered_counts(adj, n, o);
                    let order = o.map_values(|i: int| mods[i].id);
                    assert forall|q: int| 0 <= q < o.len() implies index_of_id(mods, #[trigger] order[q]@) == o[q] by {
                        lemma_index_of_id(mods, o[q]);
                    }
                    assert forall|i: int| 0 <= i < mods.len() implies id_views(order).contains(#[trigger] mods[i].id@) by {
                        assert(o.contains(i));
                        let q = choose|q: int| 0 <= q < o.len() && o[q] == i;
                        assert(id_views(order)[q] == mods[i].id@);
                    }
                    assert forall|a: int, b: int| 0 <= a < b < order.len() implies order[a]@ != order[b]@ by {
                        if order[a]@ == order[b]@ {
                            lemma_index_of_id(mods, o[a]);
                            lemma_index_of_id(mods, o[b]);
                        }
                    }
                    assert forall|p: int, k: int|
                        0 <= p < order.len() && 0 <= k < g[index_of_id(mods, order[p]@)].len() implies id_views(
                        order.take(p),
                    ).contains(#[trigger] g[index_of_id(mods, order[p]@)][k]@) by {
                        let x = o[p];
                        assert(index_of_id(mods, order[p]@) == x);
                        let t = g[x][k];
                        lemma_found(mods, t@);
                        assert(adj[x][k] == index_of_id(mods, t@));
                        assert(o.take(p).contains(adj[o[p]][k]));
                        let q = choose|q: int| 0 <= q < o.take(p).len() && o.take(p)[q] == adj[x][k];
                        assert(id_views(order.take(p))[q] == mods[o[q]].id@);
                    }
                },
            }
        },
    }
}

proof fn lemma_entries_listed(id: ModuleId, caps: Seq<Seq<char>>, c: Seq<char>)
    requires
        caps.contains(c),
    ensures
        id_views(crate::registry::entries_for(id, caps, c)).contains(id@),
    decreases caps.len(),
{
    let e = crate::registry::entries_for(id, caps, c);
    if caps.last() == c {
        let front = crate::registry::entries_for(id, caps.drop_last(), c);
        assert(e == front + seq![id]);
        assert(id_views(e)[front.len() as int] == id@);
    } else {
        let j = choose|j: int| 0 <= j < caps.len() && caps[j] == c;
        assert(caps.drop_last()[j] == c);
        lemma_entries_listed(id, caps.drop_last(), c);
        let front = crate::registry::entries_for(id, caps.drop_last(), c);
        assert(e == front + Seq::<ModuleId>::empty());
        assert(e =~= front);
    }
}

/// A module that provides a capability is among its providers.
pub proof fn lemma_provider_listed(mods: Seq<ModuleDescriptor>, i: int, c: Seq<char>)
    requires
        0 <= i < mods.len(),
        crate::core_types::capability_views(mods[i].provides@).contains(c),
    ensures
        id_views(provider_ids(mods, c)).contains(mods[i].id@),
    decreases mods.len(),
{
    let front = provider_ids(mods.drop_last(), c);
    let tail = crate::registry::entries_for(
        mods.last().id,
        crate::core_types::capability_views(mods.last().provides@),
        c,
    );
    assert(provider_ids(mods, c) == front + tail);
    if i == mods.len() - 1 {
        lemma_entries_listed(mods.last().id, crate::core_types::capability_views(mods.last().provides@), c);
        let q = choose|q: int| 0 <= q < id_views(tail).len() && id_views(tail)[q] == mods[i].id@;
        assert(id_views(front + tail)[front.len() + q] == mods[i].id@);
    } else {
        assert(mods.drop_last()[i] == mods[i]);
        lemma_provider_listed(mods.drop_last(), i, c);
        let q = choose|q: int| 0 <= q < id_views(front).len() && id_views(front)[q] == mods[i].id@;
        assert(id_views(front + tail)[q] == mods[i].id@);
    }
}

/// Each entry of a resolved graph holds the resolved dependencies of its
/// module.
pub proof fn lemma_graph_entry(mods: Seq<ModuleDescriptor>, sel: Map<Seq<char>, ModuleId>, n: int, i: int)
    requires
        0 <= i < n <= mods.len(),
        graph_of(mods, sel, n) is Ok,
    ensures
        graph_of(mods, sel, n) matches Ok(g) && deps_of(mods, sel, mods[i], mods[i].requires@.len() as int)
            == Ok::<Seq<ModuleId>, crate::registry::RegistryError>(g[i]),
    decreases n,
{
    lemma_graph_registered(mods, sel, n - 1);
    match graph_of(mods, sel, n - 1) {
        Ok(g0) => {
            match deps_of(mods, sel, mods[n - 1], mods[n - 1].requires@.len() as int) {
                Ok(v) => {
                    assert(graph_of(mods, sel, n) == Ok::<Seq<Seq<ModuleId>>, crate::registry::RegistryError>(
                        g0.push(v),
                    ));
                    if i < n - 1 {
                        lemma_graph_entry(mods, sel, n - 1, i);
                        assert(g0.push(v)[i] == g0[i]);
                    }
                },
                Err(_) => {},
            }
        },
        Err(_) => {},
    }
}

} // verus!
