//! Dependency resolution: from the module set and a selection of names to a
//! deployment order in which every module follows its dependencies.
use crate::module::{deps_of, InnerDefinition, ModuleDefinition, ModuleMarker};
use vstd::prelude::*;
use vstd::set_lib::{lemma_int_range, lemma_len_subset, set_int_range};

verus! {

/// Why a selection of modules could not be put in order.
pub enum ResolveError {
    /// A requested name is not defined by any deployable module.
    UnknownModule(String),
    /// A module depends on a name that no deployable module defines.
    UnknownDependency { module: String, dependency: String },
    /// The named modules depend on each other in a circle: each on the next,
    /// the last on the first.
    Cycle(Vec<String>),
}

/// A module in the deployment order: its position in the definition list, and a
/// marker when it was pulled in only as a dependency.
pub struct DependencyNode {
    pub index: usize,
    pub marker: Option<ModuleMarker>,
}

/// `i` is the first deployable (non-check) module named `n`.
pub open spec fn is_target(ms: Seq<ModuleDefinition>, n: Seq<char>, i: int) -> bool {
    &&& 0 <= i < ms.len()
    &&& !(ms[i].inner is Check)
    &&& ms[i].name@ == n
    &&& forall|j: int| 0 <= j < i ==> !(!(ms[j].inner is Check) && ms[j].name@ == n)
}

/// Some deployable module is named `n`.
pub open spec fn defined(ms: Seq<ModuleDefinition>, n: Seq<char>) -> bool {
    exists|i: int| 0 <= i < ms.len() && !(ms[i].inner is Check) && ms[i].name@ == n
}

/// The module a name refers to.
pub open spec fn target(ms: Seq<ModuleDefinition>, n: Seq<char>) -> int {
    choose|i: int| is_target(ms, n, i)
}

/// Every dependency of every module names a deployable module.
pub open spec fn all_deps_defined(ms: Seq<ModuleDefinition>) -> bool {
    forall|u: int, k: int|
        0 <= u < ms.len() && 0 <= k < deps_of(ms[u]).len() ==> defined(ms, #[trigger] deps_of(ms[u])[k]@)
}

/// The dependency graph: `edges(ms)[u]` lists the modules that `u` depends on.
pub open spec fn edges(ms: Seq<ModuleDefinition>) -> Seq<Seq<usize>> {
    Seq::new(ms.len(), |u: int| Seq::new(deps_of(ms[u]).len(), |k: int| target(ms, deps_of(ms[u])[k]@) as usize))
}

/// Every edge of `g` leads to a node of `g`.
pub open spec fn graph_wf(g: Seq<Seq<usize>>) -> bool {
    forall|u: int, k: int| 0 <= u < g.len() && 0 <= k < g[u].len() ==> #[trigger] g[u][k] < g.len()
}

/// Each element of `p` has an edge to the next one.
pub open spec fn is_chain(g: Seq<Seq<usize>>, p: Seq<usize>) -> bool {
    &&& forall|i: int| 0 <= i < p.len() ==> #[trigger] p[i] < g.len()
    &&& forall|i: int| 0 <= i < p.len() - 1 ==> g[p[i] as int].contains(#[trigger] p[i + 1])
}

/// `v` can be reached from one of `roots` along edges.
pub open spec fn reachable(g: Seq<Seq<usize>>, roots: Seq<usize>, v: usize) -> bool {
    exists|p: Seq<usize>| p.len() > 0 && roots.contains(p[0]) && p.last() == v && #[trigger] is_chain(g, p)
}

/// `c` is a cycle: a chain whose last element has an edge back to the first.
pub open spec fn is_cycle(g: Seq<Seq<usize>>, c: Seq<usize>) -> bool {
    c.len() > 0 && is_chain(g, c) && g[c.last() as int].contains(c[0])
}

/// No cycle of `g` can be reached from `roots`.
pub open spec fn no_reachable_cycle(g: Seq<Seq<usize>>, roots: Seq<usize>) -> bool {
    forall|c: Seq<usize>| #[trigger] is_cycle(g, c) ==> !reachable(g, roots, c[0])
}

/// Each element of `order` comes after every node it has an edge to.
pub open spec fn deps_first(g: Seq<Seq<usize>>, order: Seq<usize>) -> bool {
    forall|p: int, k: int|
        0 <= p < order.len() && 0 <= k < g[order[p] as int].len()
            ==> order.take(p).contains(#[trigger] g[order[p] as int][k])
}

/// A valid deployment order of graph `g` for the selection `roots`: distinct
/// nodes, every root present, nothing that no root reaches, dependencies first.
pub open spec fn topo_order(g: Seq<Seq<usize>>, roots: Seq<usize>, order: Seq<usize>) -> bool {
    &&& order.no_duplicates()
    &&& forall|i: int| 0 <= i < order.len() ==> #[trigger] order[i] < g.len()
    &&& forall|i: int| 0 <= i < roots.len() ==> order.contains(#[trigger] roots[i])
    &&& forall|i: int| 0 <= i < order.len() ==> reachable(g, roots, #[trigger] order[i])
    &&& deps_first(g, order)
}

/// The order in which a depth-first walk from `u` finishes nodes, appended to
/// `done`: each unfinished dependency, in declaration order, before `u`.
/// `fuel` bounds the depth of the walk.
pub open spec fn dfs_visit(g: Seq<Seq<usize>>, u: usize, done: Seq<usize>, fuel: nat) -> Seq<usize>
    decreases fuel, 0int,
{
    if fuel == 0 {
        done
    } else {
        dfs_children(g, u, 0, done, (fuel - 1) as nat).push(u)
    }
}

/// The walk over the dependencies of `u` from the `k`-th on.
pub open spec fn dfs_children(g: Seq<Seq<usize>>, u: usize, k: int, done: Seq<usize>, fuel: nat) -> Seq<usize>
    decreases fuel, g[u as int].len() - k,
{
    if k < 0 || k >= g[u as int].len() {
        done
    } else {
        let v = g[u as int][k];
        let next = if done.contains(v) {
            done
        } else {
            dfs_visit(g, v, done, fuel)
        };
        dfs_children(g, u, k + 1, next, fuel)
    }
}

/// The walk from the `j`-th root on.
pub open spec fn dfs_roots(g: Seq<Seq<usize>>, roots: Seq<usize>, j: int, done: Seq<usize>) -> Seq<usize>
    decreases roots.len() - j,
{
    if j < 0 || j >= roots.len() {
        done
    } else {
        let next = if done.contains(roots[j]) {
            done
        } else {
            dfs_visit(g, roots[j], done, g.len() as nat)
        };
        dfs_roots(g, roots, j + 1, next)
    }
}

/// The deployment order: modules as a depth-first walk from each root in
/// turn finishes them, so ties go to the first discovered.
pub open spec fn dfs_order(g: Seq<Seq<usize>>, roots: Seq<usize>) -> Seq<usize> {
    dfs_roots(g, roots, 0, Seq::empty())
}

spec fn dfs_inv(
    g: Seq<Seq<usize>>,
    roots: Seq<usize>,
    color: Seq<u8>,
    order: Seq<usize>,
    path: Seq<usize>,
) -> bool {
    &&& graph_wf(g)
    &&& color.len() == g.len()
    &&& order.no_duplicates()
    &&& path.no_duplicates()
    &&& forall|i: int| 0 <= i < order.len() ==> #[trigger] order[i] < g.len()
    &&& forall|x: usize| x < g.len() ==> (color[x as int] == 2 <==> order.contains(x))
    &&& forall|x: usize| x < g.len() ==> (color[x as int] == 1 <==> path.contains(x))
    &&& forall|x: usize| x < g.len() ==> color[x as int] <= 2
    &&& is_chain(g, path)
    &&& (path.len() > 0 ==> roots.contains(path[0]))
    &&& deps_first(g, order)
    &&& forall|i: int| 0 <= i < order.len() ==> reachable(g, roots, #[trigger] order[i])
}

spec fn adj_is(adj: Seq<Vec<usize>>, g: Seq<Seq<usize>>) -> bool {
    adj.len() == g.len() && forall|u: int| 0 <= u < g.len() ==> #[trigger] adj[u]@ == g[u]
}

proof fn lemma_distinct_bounded(s: Seq<usize>, n: int)
    requires
        n >= 0,
        s.no_duplicates(),
        forall|i: int| 0 <= i < s.len() ==> #[trigger] s[i] < n,
    ensures
        s.len() <= n,
{
    if s.len() > 0 {
        assert(s[0] < n);
        let t = s.map_values(|x: usize| x as int);
        assert(t.no_duplicates()) by {
            assert forall|i: int, j: int| 0 <= i < t.len() && 0 <= j < t.len() && i != j implies t[i] != t[j] by {
                assert(s[i] != s[j]);
            }
        }
        t.unique_seq_to_set();
        lemma_int_range(0, n);
        assert(t.to_set().subset_of(set_int_range(0, n))) by {
            assert forall|x: int| t.to_set().contains(x) implies set_int_range(0, n).contains(x) by {
                let i = choose|i: int| 0 <= i < t.len() && t[i] == x;
                assert(s[i] < n);
            }
        }
        lemma_len_subset(t.to_set(), set_int_range(0, n));
        assert(t.len() == s.len());
    }
}

/// Depth-first visit of `u`: on success `u` and everything it reaches are in
/// `order`, each after its dependencies; on failure the result is a cycle.
fn visit(
    adj: &Vec<Vec<usize>>,
    Ghost(g): Ghost<Seq<Seq<usize>>>,
    Ghost(roots): Ghost<Seq<usize>>,
    u: usize,
    color: &mut Vec<u8>,
    order: &mut Vec<usize>,
    path: &mut Vec<usize>,
) -> (r: Result<(), Vec<usize>>)
    requires
        adj_is(adj@, g),
        dfs_inv(g, roots, old(color)@, old(order)@, old(path)@),
        u < g.len(),
        old(color)@[u as int] == 0,
        old(path)@.len() == 0 ==> roots.contains(u),
        old(path)@.len() > 0 ==> g[old(path)@.last() as int].contains(u),
    ensures
        r is Ok ==> {
            &&& dfs_inv(g, roots, final(color)@, final(order)@, final(path)@)
            &&& final(path)@ == old(path)@
            &&& final(color)@[u as int] == 2
            &&& forall|x: int| 0 <= x < g.len() && old(color)@[x] == 2 ==> #[trigger] final(color)@[x] == 2
            &&& final(order)@.len() >= old(order)@.len()
            &&& final(order)@.take(old(order)@.len() as int) == old(order)@
            &&& final(order)@ == dfs_visit(g, u, old(order)@, (g.len() - old(path)@.len()) as nat)
        },
        r matches Err(c) ==> is_cycle(g, c@) && reachable(g, roots, c@[0]),
    decreases g.len() - old(path)@.len(),
{
    proof {
        lemma_distinct_bounded(path@, g.len() as int);
        assert(!path@.contains(u));
    }
    color.set(u, 1);
    path.push(u);
    proof {
        assert(path@.drop_last() == old(path)@);
        assert forall|i: int| 0 <= i < path@.len() - 1 implies g[path@[i] as int].contains(#[trigger] path@[i + 1]) by {
            if i < path@.len() - 2 {
                assert(old(path)@[i] == path@[i] && old(path)@[i + 1] == path@[i + 1]);
            }
        }
        assert(path@.no_duplicates()) by {
            assert forall|i: int, j: int| 0 <= i < path@.len() && 0 <= j < path@.len() && i != j implies path@[i] != path@[j] by {
                if i < path@.len() - 1 && j < path@.len() - 1 {
                    assert(old(path)@[i] == path@[i] && old(path)@[j] == path@[j]);
                } else if i < path@.len() - 1 {
                    assert(old(path)@.contains(path@[i]));
                } else if j < path@.len() - 1 {
                    assert(old(path)@.contains(path@[j]));
                }
            }
        }
        assert forall|x: usize| x < g.len() implies (color@[x as int] == 1 <==> path@.contains(x)) by {
            if x == u {
                assert(path@[path@.len() - 1] == u);
            } else {
                if old(path)@.contains(x) {
                    let i = choose|i: int| 0 <= i < old(path)@.len() && old(path)@[i] == x;
                    assert(path@[i] == x);
                }
                if path@.contains(x) {
                    let i = choose|i: int| 0 <= i < path@.len() && path@[i] == x;
                    assert(old(path)@[i] == x);
                }
            }
        }
        assert forall|x: usize| x < g.len() implies (color@[x as int] == 2 <==> order@.contains(x)) by {
            if x == u {
                assert(!order@.contains(u));
            }
        }
    }
    let ghost path1 = path@;
    let ghost color1 = color@;
    let ghost fuel: nat = (g.len() - old(path)@.len() - 1) as nat;
    proof {
        lemma_distinct_bounded(path@, g.len() as int);
    }
    let n = adj[u].len();
    let mut k: usize = 0;
    while k < n
        invariant
            adj_is(adj@, g),
            n == g[u as int].len(),
            u < g.len(),
            k <= n,
            dfs_inv(g, roots, color@, order@, path@),
            path@ == path1,
            path1.len() > 0,
            path1.last() == u,
            path1.drop_last() == old(path)@,
            forall|j: int| 0 <= j < k ==> color@[#[trigger] g[u as int][j] as int] == 2,
            forall|x: int| 0 <= x < g.len() && old(color)@[x] == 2 ==> #[trigger] color@[x] == 2,
            old(color)@.len() == g.len(),
            order@.len() >= old(order)@.len(),
            order@.take(old(order)@.len() as int) == old(order)@,
            fuel == g.len() - path1.len(),
            dfs_children(g, u, k as int, order@, fuel) == dfs_children(g, u, 0, old(order)@, fuel),
        decreases n - k,
    {
        let v = adj[u][k];
        assert(v == g[u as int][k as int]);
        assert(v < g.len());
        if color[v] == 1 {
            // v is on the current path: the path from v to u closes a cycle.
            let mut i: usize = 0;
            assert(path@.contains(v));
            let ghost pos = choose|j: int| 0 <= j < path1.len() && path1[j] == v;
            let plen = path.len();
            while path[i] != v
                invariant
                    path@ == path1,
                    plen == path1.len(),
                    0 <= pos < path1.len(),
                    path1[pos] == v,
                    i <= pos,
                    forall|j: int| 0 <= j < i ==> path1[j] != v,
                decreases path1.len() - i,
            {
                i = i + 1;
            }
            let mut c: Vec<usize> = Vec::new();
            let mut j: usize = i;
            while j < path.len()
                invariant
                    path@ == path1,
                    i <= j <= path1.len(),
                    c@ == path1.subrange(i as int, j as int),
                decreases path1.len() - j,
            {
                c.push(path[j]);
                j = j + 1;
            }
            proof {
                assert(c@ == path1.subrange(i as int, path1.len() as int));
                assert(c@.last() == u);
                assert(c@[0] == v);
                assert forall|a: int| 0 <= a < c@.len() - 1 implies g[c@[a] as int].contains(#[trigger] c@[a + 1]) by {
                    assert(c@[a] == path1[i + a] && c@[a + 1] == path1[i + a + 1]);
                }
                assert(g[u as int][k as int] == v);
                let w = path1.take(i + 1);
                assert(w.last() == v);
                assert(w[0] == path1[0]);
                if old(path)@.len() > 0 {
                    assert(path1[0] == old(path)@[0]);
                }
                assert(is_chain(g, w)) by {
                    assert forall|a: int| 0 <= a < w.len() - 1 implies g[w[a] as int].contains(#[trigger] w[a + 1]) by {
                        assert(w[a] == path1[a] && w[a + 1] == path1[a + 1]);
                    }
                }
                assert(reachable(g, roots, c@[0]));
            }
            return Err(c);
        } else if color[v] == 0 {
            let ghost color2 = color@;
            let ghost order2 = order@;
            proof {
                lemma_distinct_bounded(path@, g.len() as int);
            }
            match visit(adj, Ghost(g), Ghost(roots), v, color, order, path) {
                Err(c) => {
                    return Err(c);
                },
                Ok(()) => {},
            }
            proof {
                assert(order@.take(old(order)@.len() as int) == old(order)@) by {
                    assert(order@.take(old(order)@.len() as int) == order@.take(order2.len() as int).take(old(order)@.len() as int));
                }
            }
        }
        k = k + 1;
    }
    let ghost order3 = order@;
    color.set(u, 2);
    order.push(u);
    path.pop();
    proof {
        assert(order@.take(order3.len() as int) == order3);
        assert(order@.take(old(order)@.len() as int) == old(order)@) by {
            assert(order@.take(old(order)@.len() as int) == order3.take(old(order)@.len() as int));
        }
        assert(path@ == old(path)@);
        assert(!order3.contains(u));
        assert(order@.no_duplicates()) by {
            assert forall|i: int, j: int| 0 <= i < order@.len() && 0 <= j < order@.len() && i != j implies order@[i] != order@[j] by {
                if i < order3.len() && j < order3.len() {
                    assert(order3[i] == order@[i] && order3[j] == order@[j]);
                } else if i < order3.len() {
                    assert(order3.contains(order@[i]));
                } else if j < order3.len() {
                    assert(order3.contains(order@[j]));
                }
            }
        }
        assert forall|x: usize| x < g.len() implies (color@[x as int] == 2 <==> order@.contains(x)) by {
            if x == u {
                assert(order@[order@.len() - 1] == u);
            } else {
                if order3.contains(x) {
                    let i = choose|i: int| 0 <= i < order3.len() && order3[i] == x;
                    assert(order@[i] == x);
                }
                if order@.contains(x) {
                    let i = choose|i: int| 0 <= i < order@.len() && order@[i] == x;
                    assert(order3[i] == x);
                }
            }
        }
        assert forall|x: usize| x < g.len() implies (color@[x as int] == 1 <==> path@.contains(x)) by {
            if x == u {
                assert(!old(path)@.contains(u)) by {
                    if old(path)@.contains(u) {
                        let i = choose|i: int| 0 <= i < old(path)@.len() && old(path)@[i] == u;
                        assert(path1[i] == u);
                        assert(path1[path1.len() - 1] == u);
                    }
                }
            } else {
                if path1.contains(x) {
                    let i = choose|i: int| 0 <= i < path1.len() && path1[i] == x;
                    assert(i != path1.len() - 1);
                    assert(old(path)@[i] == x);
                }
                if old(path)@.contains(x) {
                    let i = choose|i: int| 0 <= i < old(path)@.len() && old(path)@[i] == x;
                    assert(path1[i] == x);
                }
            }
        }
        assert(deps_first(g, order@)) by {
            assert forall|p: int, kk: int| 0 <= p < order@.len() && 0 <= kk < g[order@[p] as int].len()
                implies order@.take(p).contains(#[trigger] g[order@[p] as int][kk]) by {
                if p < order3.len() {
                    assert(order@.take(p) == order3.take(p));
                    assert(order3[p] == order@[p]);
                } else {
                    assert(order@.take(p) == order3);
                    let w = g[u as int][kk];
                    assert(color@[w as int] == 2);
                }
            }
        }
        assert(is_chain(g, path1));
        assert(reachable(g, roots, u)) by {
            if old(path)@.len() > 0 {
                assert(path1[0] == old(path)@[0]);
            }
        }
        assert forall|i: int| 0 <= i < order@.len() implies reachable(g, roots, #[trigger] order@[i]) by {
            if i < order3.len() {
                assert(order3[i] == order@[i]);
            }
        }
    }
    Ok(())
}

/// The modules that the requested names refer to, in request order.
pub open spec fn root_indices(ms: Seq<ModuleDefinition>, req: Seq<String>) -> Seq<usize> {
    req.map_values(|n: String| target(ms, n@) as usize)
}

/// The module positions of a sequence of nodes.
pub open spec fn node_indices(o: Seq<DependencyNode>) -> Seq<usize> {
    o.map_values(|x: DependencyNode| x.index)
}

/// Every requested name is defined.
pub open spec fn all_requested_defined(ms: Seq<ModuleDefinition>, req: Seq<String>) -> bool {
    forall|i: int| 0 <= i < req.len() ==> defined(ms, #[trigger] req[i]@)
}

/// `o` is the resolution of `req`: a deployment order of exactly the modules
/// the requested ones need, where a node is marked iff it was not requested.
pub open spec fn resolution(ms: Seq<ModuleDefinition>, req: Seq<String>, o: Seq<DependencyNode>) -> bool {
    &&& topo_order(edges(ms), root_indices(ms, req), node_indices(o))
    &&& forall|i: int| 0 <= i < o.len() ==> #[trigger] o[i].marker == (if root_indices(ms, req).contains(o[i].index) {
        None::<ModuleMarker>
    } else {
        Some(ModuleMarker::WaitHealthcheck)
    })
}

/// `names` are the modules of a dependency cycle that the request reaches.
pub open spec fn names_cycle(ms: Seq<ModuleDefinition>, req: Seq<String>, names: Seq<String>) -> bool {
    exists|c: Seq<usize>| #[trigger] is_cycle(edges(ms), c) && reachable(edges(ms), root_indices(ms, req), c[0])
        && c.len() == names.len()
        && forall|i: int| 0 <= i < c.len() ==> names[i]@ == #[trigger] ms[c[i] as int].name@
}

proof fn lemma_target_unique(ms: Seq<ModuleDefinition>, n: Seq<char>, i: int)
    requires
        is_target(ms, n, i),
    ensures
        target(ms, n) == i,
        is_target(ms, n, target(ms, n)),
{
    let t = target(ms, n);
    assert(is_target(ms, n, t));
    if t < i {
        assert(!(!(ms[t].inner is Check) && ms[t].name@ == n));
    } else if t > i {
        assert(!(!(ms[i].inner is Check) && ms[i].name@ == n));
    }
}

impl ModuleDefinition {
    /// Whether this module can be deployed (it is not a check).
    pub fn is_deployable(&self) -> (r: bool)
        ensures
            r == !(self.inner is Check),
    {
        match &self.inner {
            InnerDefinition::Check(_) => false,
            _ => true,
        }
    }
}

/// The first deployable module named `name`, if any.
pub fn find_module(ms: &Vec<ModuleDefinition>, name: &String) -> (r: Option<usize>)
    ensures
        r matches Some(i) ==> is_target(ms@, name@, i as int) && target(ms@, name@) == i,
        r is None <==> !defined(ms@, name@),
{
    let mut i: usize = 0;
    while i < ms.len()
        invariant
            i <= ms@.len(),
            forall|j: int| 0 <= j < i ==> !(!(ms@[j].inner is Check) && ms@[j].name@ == name@),
        decreases ms.len() - i,
    {
        if ms[i].is_deployable() && ms[i].name == *name {
            proof {
                lemma_target_unique(ms@, name@, i as int);
            }
            return Some(i);
        }
        i = i + 1;
    }
    None
}

fn contains_index(v: &Vec<usize>, x: usize) -> (r: bool)
    ensures
        r == v@.contains(x),
{
    let mut i: usize = 0;
    while i < v.len()
        invariant
            i <= v@.len(),
            forall|j: int| 0 <= j < i ==> v@[j] != x,
        decreases v.len() - i,
    {
        if v[i] == x {
            return true;
        }
        i = i + 1;
    }
    false
}

/// Resolves the requested modules into a deployment order: every module
/// after all of its dependencies, dependencies included transitively.
pub fn resolve(modules: &Vec<ModuleDefinition>, requested: &Vec<String>) -> (r: Result<Vec<DependencyNode>, ResolveError>)
    ensures
        r matches Err(ResolveError::UnknownModule(_)) <==> !all_requested_defined(modules@, requested@),
        r matches Err(ResolveError::UnknownModule(n)) ==> exists|i: int|
            0 <= i < requested@.len() && #[trigger] requested@[i]@ == n@ && !defined(modules@, n@)
                && forall|j: int| 0 <= j < i ==> defined(modules@, #[trigger] requested@[j]@),
        r matches Err(ResolveError::UnknownDependency { .. }) <==> all_requested_defined(modules@, requested@)
            && !all_deps_defined(modules@),
        r matches Err(ResolveError::UnknownDependency { module, dependency }) ==> exists|u: int, k: int|
            0 <= u < modules@.len() && 0 <= k < deps_of(modules@[u]).len() && modules@[u].name@ == module@
                && #[trigger] deps_of(modules@[u])[k]@ == dependency@ && !defined(modules@, dependency@),
        r matches Err(ResolveError::Cycle(names)) ==> all_requested_defined(modules@, requested@)
            && all_deps_defined(modules@) && names_cycle(modules@, requested@, names@),
        r matches Ok(o) ==> all_requested_defined(modules@, requested@) && all_deps_defined(modules@)
            && resolution(modules@, requested@, o@),
        r matches Ok(o) ==> node_indices(o@) == dfs_order(edges(modules@), root_indices(modules@, requested@)),
        all_requested_defined(modules@, requested@) && all_deps_defined(modules@)
            && no_reachable_cycle(edges(modules@), root_indices(modules@, requested@)) ==> r is Ok,
{
    let ghost ms = modules@;
    let ghost g = edges(ms);
    let ghost rs = root_indices(ms, requested@);
    // The requested names first: nothing else is looked at before they are known.
    let mut roots: Vec<usize> = Vec::new();
    let mut j: usize = 0;
    while j < requested.len()
        invariant
            ms == modules@,
            rs == root_indices(ms, requested@),
            j <= requested@.len(),
            roots@ == rs.take(j as int),
            forall|a: int| 0 <= a < j ==> is_target(ms, #[trigger] requested@[a]@, rs[a] as int),
        decreases requested.len() - j,
    {
        match find_module(modules, &requested[j]) {
            Some(i) => {
                roots.push(i);
                assert(roots@ =~= rs.take(j + 1));
            },
            None => {
                assert forall|a: int| 0 <= a < j implies defined(ms, #[trigger] requested@[a]@) by {
                    assert(is_target(ms, requested@[a]@, rs[a] as int));
                }
                return Err(ResolveError::UnknownModule(requested[j].clone()));
            },
        }
        j = j + 1;
    }
    assert(roots@ =~= rs);
    assert(all_requested_defined(ms, requested@)) by {
        assert forall|i: int| 0 <= i < requested@.len() implies defined(ms, #[trigger] requested@[i]@) by {
            assert(is_target(ms, requested@[i]@, rs[i] as int));
        }
    }
    // The graph, with every dependency name looked up.
    let mut adj: Vec<Vec<usize>> = Vec::new();
    let mut u: usize = 0;
    while u < modules.len()
        invariant
            ms == modules@,
            g == edges(ms),
            all_requested_defined(ms, requested@),
            u <= ms.len(),
            adj@.len() == u,
            forall|w: int| 0 <= w < u ==> #[trigger] adj@[w]@ == g[w],
            forall|w: int, k: int| 0 <= w < u && 0 <= k < deps_of(ms[w]).len()
                ==> is_target(ms, #[trigger] deps_of(ms[w])[k]@, target(ms, deps_of(ms[w])[k]@)),
        decreases modules.len() - u,
    {
        let mut row: Vec<usize> = Vec::new();
        match modules[u].dependencies() {
            None => {
                assert(row@ =~= g[u as int]);
            },
            Some(ds) => {
                let mut k: usize = 0;
                while k < ds.len()
                    invariant
                        ms == modules@,
                        g == edges(ms),
                        u < ms.len(),
                        ds@ == deps_of(ms[u as int]),
                        all_requested_defined(ms, requested@),
                        k <= ds@.len(),
                        row@ == g[u as int].take(k as int),
                        forall|a: int| 0 <= a < k
                            ==> is_target(ms, #[trigger] deps_of(ms[u as int])[a]@, target(ms, deps_of(ms[u as int])[a]@)),
                    decreases ds.len() - k,
                {
                    match find_module(modules, &ds[k]) {
                        Some(t) => {
                            row.push(t);
                            assert(row@ =~= g[u as int].take(k + 1));
                        },
                        None => {
                            assert(!defined(ms, deps_of(ms[u as int])[k as int]@));
                            return Err(ResolveError::UnknownDependency {
                                module: modules[u].name.clone(),
                                dependency: ds[k].clone(),
                            });
                        },
                    }
                    k = k + 1;
                }
                assert(row@ =~= g[u as int]);
            },
        }
        adj.push(row);
        u = u + 1;
    }
    assert(all_deps_defined(ms)) by {
        assert forall|w: int, k: int| 0 <= w < ms.len() && 0 <= k < deps_of(ms[w]).len()
            implies defined(ms, #[trigger] deps_of(ms[w])[k]@) by {
            assert(is_target(ms, deps_of(ms[w])[k]@, target(ms, deps_of(ms[w])[k]@)));
        }
    }
    assert(graph_wf(g)) by {
        assert forall|w: int, k: int| 0 <= w < g.len() && 0 <= k < g[w].len() implies #[trigger] g[w][k] < g.len() by {
            assert(is_target(ms, deps_of(ms[w])[k]@, target(ms, deps_of(ms[w])[k]@)));
        }
    }
    assert(adj_is(adj@, g));
    assert forall|i: int| 0 <= i < rs.len() implies #[trigger] rs[i] < g.len() by {
        assert(is_target(ms, requested@[i]@, rs[i] as int));
    }
    // Depth-first from each requested module, in request order.
    let mut color: Vec<u8> = Vec::new();
    while color.len() < modules.len()
        invariant
            ms == modules@,
            color@.len() <= ms.len(),
            forall|x: int| 0 <= x < color@.len() ==> color@[x] == 0,
        decreases modules.len() - color.len(),
    {
        color.push(0);
    }
    let mut order: Vec<usize> = Vec::new();
    let mut path: Vec<usize> = Vec::new();
    assert(order@.take(0) =~= Seq::<usize>::empty());
    let mut j: usize = 0;
    while j < roots.len()
        invariant
            ms == modules@,
            g == edges(ms),
            adj_is(adj@, g),
            roots@ == rs,
            rs == root_indices(ms, requested@),
            all_requested_defined(ms, requested@),
            all_deps_defined(ms),
            forall|i: int| 0 <= i < rs.len() ==> #[trigger] rs[i] < g.len(),
            j <= rs.len(),
            dfs_inv(g, rs, color@, order@, path@),
            path@.len() == 0,
            forall|a: int| 0 <= a < j ==> color@[#[trigger] rs[a] as int] == 2,
            dfs_roots(g, rs, j as int, order@) == dfs_order(g, rs),
        decreases roots.len() - j,
    {
        let x = roots[j];
        if color[x] == 0 {
            assert(rs.contains(x)) by {
                assert(rs[j as int] == x);
            }
            match visit(&adj, Ghost(g), Ghost(rs), x, &mut color, &mut order, &mut path) {
                Err(c) => {
                    let mut names: Vec<String> = Vec::new();
                    let mut i: usize = 0;
                    while i < c.len()
                        invariant
                            ms == modules@,
                            is_cycle(g, c@),
                            reachable(g, rs, c@[0]),
                            g == edges(ms),
                            rs == root_indices(ms, requested@),
                            all_requested_defined(ms, requested@),
                            all_deps_defined(ms),
                            g.len() == ms.len(),
                            i <= c@.len(),
                            names@.len() == i,
                            forall|a: int| 0 <= a < i ==> names@[a]@ == #[trigger] ms[c@[a] as int].name@,
                        decreases c.len() - i,
                    {
                        assert(c@[i as int] < g.len());
                        names.push(modules[c[i]].name.clone());
                        i = i + 1;
                    }
                    assert(is_cycle(edges(ms), c@));
                    return Err(ResolveError::Cycle(names));
                },
                Ok(()) => {},
            }
        }
        j = j + 1;
    }
    assert(topo_order(g, rs, order@)) by {
        assert forall|i: int| 0 <= i < rs.len() implies order@.contains(#[trigger] rs[i]) by {
            assert(color@[rs[i] as int] == 2);
        }
    }
    let mut nodes: Vec<DependencyNode> = Vec::new();
    let mut p: usize = 0;
    while p < order.len()
        invariant
            ms == modules@,
            roots@ == rs,
            p <= order@.len(),
            nodes@.len() == p,
            forall|i: int| 0 <= i < p ==> (#[trigger] nodes@[i]).index == order@[i],
            forall|i: int| 0 <= i < p ==> #[trigger] nodes@[i].marker == (if rs.contains(nodes@[i].index) {
                None::<ModuleMarker>
            } else {
                Some(ModuleMarker::WaitHealthcheck)
            }),
        decreases order.len() - p,
    {
        let x = order[p];
        let marker = if contains_index(&roots, x) {
            None
        } else {
            Some(ModuleMarker::WaitHealthcheck)
        };
        nodes.push(DependencyNode { index: x, marker });
        p = p + 1;
    }
    assert(node_indices(nodes@) =~= order@);
    Ok(nodes)
}

/// In a resolution, a module comes strictly after every module it depends
/// on, directly or through a chain `c` of dependencies.
pub proof fn lemma_order_respects_dependencies(
    ms: Seq<ModuleDefinition>,
    req: Seq<String>,
    o: Seq<DependencyNode>,
    p: int,
    c: Seq<usize>,
)
    requires
        resolution(ms, req, o),
        0 <= p < o.len(),
        c.len() > 1,
        c[0] == o[p].index,
        is_chain(edges(ms), c),
    ensures
        exists|q: int| 0 <= q < p && #[trigger] o[q].index == c.last(),
    decreases c.len(),
{
    let g = edges(ms);
    let idx = node_indices(o);
    let z: int = 0;
    assert(g[c[z] as int].contains(c[z + 1]));
    let k = choose|k: int| 0 <= k < g[c[0] as int].len() && g[c[0] as int][k] == c[1];
    assert(idx[p] == c[0]);
    assert(idx.take(p).contains(g[idx[p] as int][k]));
    let q = choose|q: int| 0 <= q < idx.take(p).len() && idx.take(p)[q] == c[1];
    assert(o[q].index == c[1]);
    if c.len() > 2 {
        let d = c.drop_first();
        assert(is_chain(g, d)) by {
            assert forall|i: int| 0 <= i < d.len() - 1 implies g[d[i] as int].contains(#[trigger] d[i + 1]) by {
                assert(d[i] == c[i + 1] && d[i + 1] == c[i + 2]);
            }
        }
        lemma_order_respects_dependencies(ms, req, o, q, d);
        let q2 = choose|q2: int| 0 <= q2 < q && #[trigger] o[q2].index == d.last();
        assert(o[q2].index == c.last());
    }
}

/// Two modules that depend on each other, one of them requested, admit no
/// resolution: resolving them fails.
pub proof fn lemma_mutual_dependency_unresolvable(
    ms: Seq<ModuleDefinition>,
    req: Seq<String>,
    o: Seq<DependencyNode>,
    a: usize,
    b: usize,
)
    requires
        root_indices(ms, req).contains(a),
        edges(ms)[a as int].contains(b),
        edges(ms)[b as int].contains(a),
    ensures
        !resolution(ms, req, o),
{
    if resolution(ms, req, o) {
        let g = edges(ms);
        let idx = node_indices(o);
        let rs = root_indices(ms, req);
        let r = choose|r: int| 0 <= r < rs.len() && rs[r] == a;
        assert(idx.contains(rs[r]));
        let p = choose|p: int| 0 <= p < idx.len() && idx[p] == a;
        assert(a < g.len());
        assert(b < g.len()) by {
            let k = choose|k: int| 0 <= k < g[a as int].len() && g[a as int][k] == b;
        }
        let c = seq![a, b, a];
        assert(is_chain(g, c)) by {
            assert forall|i: int| 0 <= i < c.len() - 1 implies g[c[i] as int].contains(#[trigger] c[i + 1]) by {
                if i == 0 {
                    assert(c[0] == a && c[1] == b);
                } else {
                    assert(c[1] == b && c[2] == a);
                }
            }
        }
        assert(o[p].index == a);
        lemma_order_respects_dependencies(ms, req, o, p, c);
        let q = choose|q: int| 0 <= q < p && #[trigger] o[q].index == c.last();
        assert(idx[q] == idx[p]);
    }
}

/// Where the only dependencies are `a` on `b` and `b` on `a`, any cycle that
/// resolution reports names both of them.
pub proof fn lemma_two_module_cycle_names_both(
    ms: Seq<ModuleDefinition>,
    req: Seq<String>,
    names: Seq<String>,
    a: usize,
    b: usize,
)
    requires
        names_cycle(ms, req, names),
        a != b,
        a < ms.len(),
        b < ms.len(),
        edges(ms)[a as int] == seq![b],
        edges(ms)[b as int] == seq![a],
        forall|u: int| 0 <= u < ms.len() && u != a && u != b ==> #[trigger] edges(ms)[u].len() == 0,
    ensures
        exists|i: int| 0 <= i < names.len() && #[trigger] names[i]@ == ms[a as int].name@,
        exists|i: int| 0 <= i < names.len() && #[trigger] names[i]@ == ms[b as int].name@,
{
    let g = edges(ms);
    let c = choose|c: Seq<usize>| #[trigger] is_cycle(g, c) && reachable(g, root_indices(ms, req), c[0])
        && c.len() == names.len()
        && forall|i: int| 0 <= i < c.len() ==> names[i]@ == #[trigger] ms[c[i] as int].name@;
    let x = c[0];
    assert(x < g.len());
    // The successor of the first element along the cycle.
    let y = if c.len() > 1 {
        let z: int = 0;
        assert(g[c[z] as int].contains(c[z + 1]));
        c[1]
    } else {
        c[0]
    };
    assert(g[x as int].contains(y));
    let k = choose|k: int| 0 <= k < g[x as int].len() && g[x as int][k] == y;
    assert(x == a || x == b);
    if x == a {
        assert(y == b);
    } else {
        assert(y == a);
    }
    assert(c.len() > 1);
    assert(names[0]@ == ms[c[0] as int].name@);
    assert(names[1]@ == ms[c[1] as int].name@);
}

} // verus!
