//! Dependency ordering: services are started in waves, every service after
//! all of its dependencies (Kahn's layering of a dependency graph).
use vstd::prelude::*;

use crate::order::{lemma_sorted_same_members, sorted_strict, sort_strings};
use crate::strmap::{strs, StrMap};

verus! {

/// A dependency graph: each service name maps to the names it depends on.
pub type DepGraph = StrMap<Vec<String>>;

/// The graph as a map from a node to the list of its dependencies.
pub open spec fn graph_view(g: &DepGraph) -> Map<Seq<char>, Seq<Seq<char>>> {
    Map::new(|k: Seq<char>| g.keys().contains(k), |k: Seq<char>| strs(g.lookup(k)->0@))
}

/// The dependencies of `x` (none when `x` is not a key).
pub open spec fn deps_of(gv: Map<Seq<char>, Seq<Seq<char>>>, x: Seq<char>) -> Seq<Seq<char>> {
    if gv.contains_key(x) {
        gv[x]
    } else {
        Seq::empty()
    }
}

/// `x` is a node: a key, or named as a dependency of a key.
pub open spec fn is_node(gv: Map<Seq<char>, Seq<Seq<char>>>, x: Seq<char>) -> bool {
    gv.contains_key(x) || exists|m: Seq<char>| gv.contains_key(m) && #[trigger] gv[m].contains(x)
}

/// `x` belongs to wave `k`.
pub open spec fn in_wave(w: Seq<Seq<Seq<char>>>, k: int, x: Seq<char>) -> bool {
    0 <= k < w.len() && w[k].contains(x)
}

/// `w` lists every node of the graph exactly once, in waves: each wave is
/// non-empty and sorted, every node comes after all of its dependencies, and
/// a node in wave `k > 0` has a dependency in wave `k - 1` (it starts as soon
/// as it can).
#[verifier::opaque]
pub open spec fn is_layering(gv: Map<Seq<char>, Seq<Seq<char>>>, w: Seq<Seq<Seq<char>>>) -> bool {
    &&& forall|k: int| 0 <= k < w.len() ==> #[trigger] w[k].len() > 0 && sorted_strict(w[k])
    &&& forall|k: int, x: Seq<char>| #[trigger] in_wave(w, k, x) ==> is_node(gv, x)
    &&& forall|x: Seq<char>| is_node(gv, x) ==> exists|k: int| #[trigger] in_wave(w, k, x)
    &&& forall|k1: int, k2: int, x: Seq<char>|
        #[trigger] in_wave(w, k1, x) && #[trigger] in_wave(w, k2, x) ==> k1 == k2
    &&& forall|k: int, x: Seq<char>, d: Seq<char>|
        #[trigger] in_wave(w, k, x) && #[trigger] deps_of(gv, x).contains(d) ==> exists|j: int|
            j < k && #[trigger] in_wave(w, j, d)
    &&& forall|k: int, x: Seq<char>|
        #[trigger] in_wave(w, k, x) && k > 0 ==> exists|d: Seq<char>|
            #[trigger] deps_of(gv, x).contains(d) && in_wave(w, k - 1, d)
}

/// A non-empty set of nodes each of which depends on a member of the set:
/// none of them can ever start.
#[verifier::opaque]
pub open spec fn is_stuck(gv: Map<Seq<char>, Seq<Seq<char>>>, s: Set<Seq<char>>) -> bool {
    &&& exists|x: Seq<char>| s.contains(x)
    &&& forall|x: Seq<char>|
        #[trigger] s.contains(x) ==> is_node(gv, x) && exists|d: Seq<char>|
            #[trigger] deps_of(gv, x).contains(d) && s.contains(d)
}

/// The graph has a dependency cycle.
pub open spec fn has_cycle(gv: Map<Seq<char>, Seq<Seq<char>>>) -> bool {
    exists|s: Set<Seq<char>>| is_stuck(gv, s)
}

/// The names of each wave.
pub open spec fn waves_view(w: Seq<Vec<String>>) -> Seq<Seq<Seq<char>>> {
    w.map_values(|v: Vec<String>| strs(v@))
}

proof fn lemma_layering_dep_before(
    gv: Map<Seq<char>, Seq<Seq<char>>>,
    w: Seq<Seq<Seq<char>>>,
    k: int,
    x: Seq<char>,
    d: Seq<char>,
)
    requires
        is_layering(gv, w),
        in_wave(w, k, x),
        deps_of(gv, x).contains(d),
    ensures
        exists|j: int| j < k && #[trigger] in_wave(w, j, d),
{
    reveal(is_layering);
}

proof fn lemma_layering_node_placed(
    gv: Map<Seq<char>, Seq<Seq<char>>>,
    w: Seq<Seq<Seq<char>>>,
    x: Seq<char>,
)
    requires
        is_layering(gv, w),
        is_node(gv, x),
    ensures
        exists|k: int| #[trigger] in_wave(w, k, x),
{
    reveal(is_layering);
}

proof fn lemma_stuck_member(gv: Map<Seq<char>, Seq<Seq<char>>>, s: Set<Seq<char>>, x: Seq<char>)
    requires
        is_stuck(gv, s),
        s.contains(x),
    ensures
        is_node(gv, x),
        exists|d: Seq<char>| #[trigger] deps_of(gv, x).contains(d) && s.contains(d),
{
    reveal(is_stuck);
}

proof fn lemma_stuck_absent_below(
    gv: Map<Seq<char>, Seq<Seq<char>>>,
    w: Seq<Seq<Seq<char>>>,
    s: Set<Seq<char>>,
    k: int,
)
    requires
        is_layering(gv, w),
        is_stuck(gv, s),
        0 <= k,
    ensures
        forall|j: int, y: Seq<char>| 0 <= j < k && s.contains(y) ==> !#[trigger] in_wave(w, j, y),
    decreases k,
{
    if k > 0 {
        lemma_stuck_absent_below(gv, w, s, k - 1);
        assert forall|j: int, y: Seq<char>| 0 <= j < k && s.contains(y) implies !#[trigger] in_wave(
            w,
            j,
            y,
        ) by {
            if j == k - 1 && in_wave(w, j, y) {
                lemma_stuck_member(gv, s, y);
                let d = choose|d: Seq<char>| #[trigger] deps_of(gv, y).contains(d) && s.contains(d);
                lemma_layering_dep_before(gv, w, j, y, d);
                let i = choose|i: int| i < j && #[trigger] in_wave(w, i, d);
                assert(0 <= i);
            }
        }
    }
}

/// A graph that can be layered has no cycle.
pub proof fn lemma_layering_acyclic(
    gv: Map<Seq<char>, Seq<Seq<char>>>,
    w: Seq<Seq<Seq<char>>>,
    s: Set<Seq<char>>,
)
    requires
        is_layering(gv, w),
    ensures
        !is_stuck(gv, s),
{
    if is_stuck(gv, s) {
        lemma_stuck_absent_below(gv, w, s, w.len() as int);
        assert(exists|x: Seq<char>| s.contains(x)) by {
            reveal(is_stuck);
        }
        let x = choose|x: Seq<char>| s.contains(x);
        lemma_stuck_member(gv, s, x);
        lemma_layering_node_placed(gv, w, x);
        let j = choose|j: int| #[trigger] in_wave(w, j, x);
        assert(in_wave(w, j, x));
    }
}

// ---------------------------------------------------------------------------
// One layering per graph
// ---------------------------------------------------------------------------

proof fn lemma_level_step(
    gv: Map<Seq<char>, Seq<Seq<char>>>,
    w1: Seq<Seq<Seq<char>>>,
    w2: Seq<Seq<Seq<char>>>,
    k: int,
    x: Seq<char>,
)
    requires
        is_layering(gv, w1),
        is_layering(gv, w2),
        in_wave(w1, k, x),
        forall|j: int, y: Seq<char>| 0 <= j < k && #[trigger] in_wave(w1, j, y) ==> in_wave(w2, j, y),
    ensures
        in_wave(w2, k, x),
{
    reveal(is_layering);
    assert(is_node(gv, x));
    let k2 = choose|k2: int| #[trigger] in_wave(w2, k2, x);
    assert(in_wave(w2, k2, x));
    if k2 > 0 {
        let d = choose|d: Seq<char>| #[trigger] deps_of(gv, x).contains(d) && in_wave(w2, k2 - 1, d);
        assert(deps_of(gv, x).contains(d) && in_wave(w2, k2 - 1, d));
        let j = choose|j: int| j < k && #[trigger] in_wave(w1, j, d);
        assert(in_wave(w1, j, d));
        assert(in_wave(w2, j, d));
        assert(j == k2 - 1);
    }
    if k > 0 {
        let d = choose|d: Seq<char>| #[trigger] deps_of(gv, x).contains(d) && in_wave(w1, k - 1, d);
        assert(deps_of(gv, x).contains(d) && in_wave(w1, k - 1, d));
        assert(in_wave(w2, k - 1, d));
        let j = choose|j: int| j < k2 && #[trigger] in_wave(w2, j, d);
        assert(in_wave(w2, j, d));
        assert(j == k - 1);
    }
    assert(k2 == k);
}

proof fn lemma_levels_agree(
    gv: Map<Seq<char>, Seq<Seq<char>>>,
    w1: Seq<Seq<Seq<char>>>,
    w2: Seq<Seq<Seq<char>>>,
    k: int,
)
    requires
        is_layering(gv, w1),
        is_layering(gv, w2),
        0 <= k,
    ensures
        forall|j: int, x: Seq<char>| 0 <= j <= k && #[trigger] in_wave(w1, j, x) ==> in_wave(w2, j, x),
    decreases k,
{
    if k > 0 {
        lemma_levels_agree(gv, w1, w2, k - 1);
    }
    assert forall|j: int, x: Seq<char>| 0 <= j <= k && #[trigger] in_wave(w1, j, x) implies in_wave(
        w2,
        j,
        x,
    ) by {
        if j == k {
            lemma_level_step(gv, w1, w2, k, x);
        }
    }
}

/// In a layering each node's wave is one past the latest wave of its
/// dependencies: wave 0 exactly when it has none, every dependency in an
/// earlier wave, and one of them in the wave just before.
pub proof fn lemma_wave_one_past_deps(
    gv: Map<Seq<char>, Seq<Seq<char>>>,
    w: Seq<Seq<Seq<char>>>,
    k: int,
    x: Seq<char>,
)
    requires
        is_layering(gv, w),
        in_wave(w, k, x),
    ensures
        k == 0 <==> deps_of(gv, x).len() == 0,
        forall|d: Seq<char>|
            #[trigger] deps_of(gv, x).contains(d) ==> exists|j: int| 0 <= j < k && #[trigger] in_wave(
                w,
                j,
                d,
            ),
        k > 0 ==> exists|d: Seq<char>| #[trigger] deps_of(gv, x).contains(d) && in_wave(w, k - 1, d),
{
    reveal(is_layering);
    assert forall|d: Seq<char>| #[trigger] deps_of(gv, x).contains(d) implies exists|j: int|
        0 <= j < k && #[trigger] in_wave(w, j, d) by {
        let j = choose|j: int| j < k && #[trigger] in_wave(w, j, d);
        assert(in_wave(w, j, d));
    }
    if deps_of(gv, x).len() > 0 {
        let d = deps_of(gv, x)[0];
        assert(deps_of(gv, x).contains(d));
        let j = choose|j: int| j < k && #[trigger] in_wave(w, j, d);
        assert(in_wave(w, j, d));
    }
    if k > 0 {
        let d = choose|d: Seq<char>| #[trigger] deps_of(gv, x).contains(d) && in_wave(w, k - 1, d);
        assert(deps_of(gv, x).contains(d));
    }
}

/// A graph has at most one layering: every node's wave is fixed by its
/// dependencies (one past the latest of theirs), and each wave is sorted.
pub proof fn lemma_layering_unique(
    gv: Map<Seq<char>, Seq<Seq<char>>>,
    w1: Seq<Seq<Seq<char>>>,
    w2: Seq<Seq<Seq<char>>>,
)
    requires
        is_layering(gv, w1),
        is_layering(gv, w2),
    ensures
        w1 == w2,
{
    let n = if w1.len() > w2.len() {
        w1.len() as int
    } else {
        w2.len() as int
    };
    lemma_levels_agree(gv, w1, w2, n);
    lemma_levels_agree(gv, w2, w1, n);
    assert(forall|k: int| 0 <= k < w1.len() ==> #[trigger] w1[k].len() > 0 && sorted_strict(w1[k]))
        by {
        reveal(is_layering);
    }
    assert(forall|k: int| 0 <= k < w2.len() ==> #[trigger] w2[k].len() > 0 && sorted_strict(w2[k]))
        by {
        reveal(is_layering);
    }
    if w1.len() > w2.len() {
        let k = w2.len() as int;
        assert(w1[k].len() > 0);
        assert(in_wave(w1, k, w1[k][0]));
    }
    if w2.len() > w1.len() {
        let k = w1.len() as int;
        assert(w2[k].len() > 0);
        assert(in_wave(w2, k, w2[k][0]));
    }
    assert(w1.len() == w2.len());
    assert forall|k: int| 0 <= k < w1.len() implies #[trigger] w1[k] == w2[k] by {
        assert forall|x: Seq<char>| w1[k].contains(x) <==> w2[k].contains(x) by {
            if w1[k].contains(x) {
                assert(in_wave(w1, k, x));
            }
            if w2[k].contains(x) {
                assert(in_wave(w2, k, x));
            }
        }
        lemma_sorted_same_members(w1[k], w2[k]);
    }
    assert(w1 =~= w2);
}

proof fn lemma_layering_transfer(
    g1: Map<Seq<char>, Seq<Seq<char>>>,
    g2: Map<Seq<char>, Seq<Seq<char>>>,
    w: Seq<Seq<Seq<char>>>,
)
    requires
        forall|x: Seq<char>| #[trigger] is_node(g1, x) == is_node(g2, x),
        forall|x: Seq<char>| #[trigger] deps_of(g1, x) == deps_of(g2, x),
        is_layering(g1, w),
    ensures
        is_layering(g2, w),
{
    reveal(is_layering);
    assert forall|k: int, x: Seq<char>| #[trigger] in_wave(w, k, x) implies is_node(g2, x) by {
        assert(is_node(g1, x));
    }
    assert forall|x: Seq<char>| is_node(g2, x) implies exists|k: int| #[trigger] in_wave(w, k, x) by {
        assert(is_node(g1, x));
    }
    assert forall|k: int, x: Seq<char>, d: Seq<char>|
        #[trigger] in_wave(w, k, x) && #[trigger] deps_of(g2, x).contains(d) implies exists|j: int|
        j < k && #[trigger] in_wave(w, j, d) by {
        assert(deps_of(g1, x) == deps_of(g2, x));
        assert(deps_of(g1, x).contains(d));
    }
    assert forall|k: int, x: Seq<char>| #[trigger] in_wave(w, k, x) && k > 0 implies exists|
        d: Seq<char>,
    | #[trigger] deps_of(g2, x).contains(d) && in_wave(w, k - 1, d) by {
        let d = choose|d: Seq<char>| #[trigger] deps_of(g1, x).contains(d) && in_wave(w, k - 1, d);
        assert(deps_of(g1, x) == deps_of(g2, x));
        assert(deps_of(g2, x).contains(d));
    }
}

#[verifier::spinoff_prover]
#[verifier::rlimit(40)]
proof fn lemma_stuck_transfer(
    g1: Map<Seq<char>, Seq<Seq<char>>>,
    g2: Map<Seq<char>, Seq<Seq<char>>>,
    s: Set<Seq<char>>,
)
    requires
        forall|x: Seq<char>| #[trigger] is_node(g1, x) == is_node(g2, x),
        forall|x: Seq<char>| #[trigger] deps_of(g1, x) == deps_of(g2, x),
        is_stuck(g1, s),
    ensures
        is_stuck(g2, s),
{
    assert forall|x: Seq<char>| #[trigger] s.contains(x) implies is_node(g2, x) && exists|d: Seq<char>|
        #[trigger] deps_of(g2, x).contains(d) && s.contains(d) by {
        lemma_stuck_member(g1, s, x);
        assert(is_node(g1, x) == is_node(g2, x));
        let d = choose|d: Seq<char>| #[trigger] deps_of(g1, x).contains(d) && s.contains(d);
        assert(deps_of(g1, x) == deps_of(g2, x));
        assert(deps_of(g2, x).contains(d));
    }
    assert(exists|x: Seq<char>| s.contains(x)) by {
        reveal(is_stuck);
    }
    reveal(is_stuck);
}

/// Graphs with the same nodes and the same dependencies have the same
/// layerings and the same cycles.
proof fn lemma_same_shape(
    g1: Map<Seq<char>, Seq<Seq<char>>>,
    g2: Map<Seq<char>, Seq<Seq<char>>>,
    w: Seq<Seq<Seq<char>>>,
)
    requires
        forall|x: Seq<char>| #[trigger] is_node(g1, x) == is_node(g2, x),
        forall|x: Seq<char>| #[trigger] deps_of(g1, x) == deps_of(g2, x),
    ensures
        is_layering(g1, w) == is_layering(g2, w),
        has_cycle(g1) == has_cycle(g2),
{
    if is_layering(g1, w) {
        lemma_layering_transfer(g1, g2, w);
    }
    if is_layering(g2, w) {
        lemma_layering_transfer(g2, g1, w);
    }
    if has_cycle(g1) {
        let s = choose|s: Set<Seq<char>>| is_stuck(g1, s);
        lemma_stuck_transfer(g1, g2, s);
    }
    if has_cycle(g2) {
        let s = choose|s: Set<Seq<char>>| is_stuck(g2, s);
        lemma_stuck_transfer(g2, g1, s);
    }
}

/// Requesting every key of the graph orders the whole graph: the graph of
/// the request has the same nodes and dependencies, so it has a cycle
/// exactly when the whole graph has, and its layering is the whole graph's.
pub proof fn lemma_full_request_same_order(
    g: &DepGraph,
    requested: Seq<String>,
    w1: Seq<Seq<Seq<char>>>,
    w2: Seq<Seq<Seq<char>>>,
)
    requires
        strs(requested).to_set() == g.keys().to_set(),
    ensures
        has_cycle(requested_graph(g, requested)) == has_cycle(graph_view(g)),
        is_layering(requested_graph(g, requested), w1) && is_layering(graph_view(g), w2) ==> w1
            == w2,
{
    let gv = graph_view(g);
    let req = strs(requested).to_set();
    let c = closure(gv, req);
    let rv = requested_graph(g, requested);
    lemma_closure_covers(gv, req);
    let nodes = Set::new(|x: Seq<char>| is_node(gv, x));
    assert(req.subset_of(nodes)) by {
        assert forall|x: Seq<char>| req.contains(x) implies nodes.contains(x) by {
            assert(g.keys().to_set().contains(x));
            assert(gv.contains_key(x));
        }
    }
    assert(dep_closed(gv, nodes)) by {
        assert forall|x: Seq<char>, d: Seq<char>|
            nodes.contains(x) && #[trigger] deps_of(gv, x).contains(d) implies nodes.contains(d) by {
            assert(gv.contains_key(x));
            assert(gv[x].contains(d));
        }
    }
    assert(c.subset_of(nodes));
    assert forall|x: Seq<char>| #[trigger] is_node(rv, x) == is_node(gv, x) by {
        lemma_filtered_nodes(gv, req, x);
        if is_node(gv, x) {
            if gv.contains_key(x) {
                assert(g.keys().contains(x));
                assert(g.keys().to_set().contains(x));
                assert(req.contains(x));
            } else {
                let m = choose|m: Seq<char>| gv.contains_key(m) && #[trigger] gv[m].contains(x);
                assert(g.keys().contains(m));
                assert(g.keys().to_set().contains(m));
                assert(req.contains(m));
                assert(c.contains(m));
                assert(deps_of(gv, m).contains(x));
            }
        } else {
            assert(!nodes.contains(x));
        }
    }
    assert forall|x: Seq<char>| #[trigger] deps_of(rv, x) == deps_of(gv, x) by {
        if !c.contains(x) {
            lemma_filtered_nodes(gv, req, x);
            assert(is_node(rv, x) == is_node(gv, x));
            assert(!gv.contains_key(x));
        }
    }
    lemma_same_shape(rv, gv, w1);
    if is_layering(rv, w1) && is_layering(gv, w2) {
        assert(is_layering(gv, w1));
        lemma_layering_unique(gv, w1, w2);
    }
}

/// The error of a dependency graph that cannot be ordered.
#[derive(Debug)]
pub enum DepError {
    Cycle,
}

impl DepError {
    /// The error's message.
    pub fn message(&self) -> (s: String)
        ensures
            s@ == "dependency graph contains a cycle"@,
    {
        String::from_str("dependency graph contains a cycle")
    }
}

// ---------------------------------------------------------------------------
// The graph by node index
// ---------------------------------------------------------------------------

/// `adj[i]` lists, by index, the dependencies of node `nm[i]`.
pub open spec fn adj_ok(
    gv: Map<Seq<char>, Seq<Seq<char>>>,
    nm: Seq<Seq<char>>,
    adj: Seq<Vec<usize>>,
) -> bool {
    &&& adj.len() == nm.len()
    &&& forall|i: int|
        0 <= i < nm.len() ==> (#[trigger] adj[i])@.len() == deps_of(gv, nm[i]).len()
    &&& forall|i: int, t: int|
        0 <= i < nm.len() && 0 <= t < adj[i]@.len() ==> #[trigger] adj[i]@[t] < nm.len() && nm[adj[i]@[t] as int] == deps_of(
            gv,
            nm[i],
        )[t]
}

/// The position of `x` among `names`.
fn index_in(names: &Vec<String>, x: &str) -> (r: Option<usize>)
    ensures
        match r {
            Some(i) => i < names.len() && names@[i as int]@ == x@,
            None => !strs(names@).contains(x@),
        },
{
    let mut i: usize = 0;
    while i < names.len()
        invariant
            i <= names.len(),
            forall|j: int| 0 <= j < i ==> names@[j]@ != x@,
        decreases names.len() - i,
    {
        if crate::text::str_eq(names[i].as_str(), x) {
            return Some(i);
        }
        i = i + 1;
    }
    proof {
        if strs(names@).contains(x@) {
            let j = choose|j: int| 0 <= j < strs(names@).len() && strs(names@)[j] == x@;
            assert(names@[j]@ == x@);
        }
    }
    None
}

proof fn lemma_key_lookup(g: &DepGraph, i: int)
    requires
        g.inv(),
        0 <= i < g.keys().len(),
    ensures
        graph_view(g).contains_key(g.keys()[i]),
        deps_of(graph_view(g), g.keys()[i]) == strs(g.vals()[i]@),
{
    g.lemma_inv();
    assert(g.keys().contains(g.keys()[i]));
}

/// The nodes of the graph (keys first, in order) and, by index, each node's
/// dependencies.
fn index_graph(g: &DepGraph) -> (res: (Vec<String>, Vec<Vec<usize>>))
    ensures
        strs(res.0@).no_duplicates(),
        forall|x: Seq<char>| strs(res.0@).contains(x) <==> is_node(graph_view(g), x),
        adj_ok(graph_view(g), strs(res.0@), res.1@),
{
    let ghost gv = graph_view(g);
    proof {
        use_type_invariant(g);
        g.lemma_inv();
    }
    let nk = g.len();
    let mut names: Vec<String> = Vec::new();
    let mut i: usize = 0;
    while i < nk
        invariant
            nk == g.keys().len(),
            i <= nk,
            strs(names@) == g.keys().take(i as int),
            names.len() == i,
            g.keys().no_duplicates(),
        decreases nk - i,
    {
        let ghost before = names@;
        let k = g.key_at(i).clone();
        names.push(k);
        proof {
            assert(names@ == before.push(k));
            assert(k@ == g.keys()[i as int]);
            assert forall|j: int| 0 <= j < i + 1 implies strs(names@)[j] == g.keys().take(i + 1)[j] by {
                assert(strs(names@)[j] == names@[j]@);
                if j < i {
                    assert(names@[j] == before[j]);
                    assert(strs(before)[j] == before[j]@);
                    assert(strs(before)[j] == g.keys().take(i as int)[j]);
                } else {
                    assert(names@[j] == k);
                }
            }
            assert(strs(names@) =~= g.keys().take(i + 1));
        }
        i = i + 1;
    }
    proof {
        assert(g.keys().take(nk as int) =~= g.keys());
    }
    // Add the dependencies that are not keys.
    i = 0;
    while i < nk
        invariant
            nk == g.keys().len(),
            nk == g.vals().len(),
            i <= nk,
            g.inv(),
            strs(names@).no_duplicates(),
            strs(names@).take(nk as int) == g.keys(),
            names.len() >= nk,
            gv == graph_view(g),
            forall|x: Seq<char>|
                #[trigger] strs(names@).contains(x) ==> is_node(gv, x),
            forall|j: int, x: Seq<char>|
                0 <= j < i && #[trigger] strs(g.vals()[j]@).contains(x) ==> strs(names@).contains(x),
        decreases nk - i,
    {
        let ds = g.value_at(i);
        let mut t: usize = 0;
        proof {
            lemma_key_lookup(g, i as int);
        }
        while t < ds.len()
            invariant
                nk == g.keys().len(),
                nk == g.vals().len(),
                i < nk,
                t <= ds.len(),
                g.inv(),
                *ds == g.vals()[i as int],
                strs(names@).no_duplicates(),
                strs(names@).take(nk as int) == g.keys(),
                names.len() >= nk,
                gv == graph_view(g),
                gv.contains_key(g.keys()[i as int]),
                deps_of(gv, g.keys()[i as int]) == strs(g.vals()[i as int]@),
                forall|x: Seq<char>|
                    #[trigger] strs(names@).contains(x) ==> is_node(gv, x),
                forall|j: int, x: Seq<char>|
                    0 <= j < i && #[trigger] strs(g.vals()[j]@).contains(x) ==> strs(
                        names@,
                    ).contains(x),
                forall|u: int| 0 <= u < t ==> strs(names@).contains(#[trigger] ds@[u]@),
            decreases ds.len() - t,
        {
            let ghost before = strs(names@);
            let found = index_in(&names, ds[t].as_str());
            if let Some(q) = found {
                proof {
                    assert(strs(names@)[q as int] == ds@[t as int]@);
                }
            }
            if found.is_none() {
                names.push(ds[t].clone());
                proof {
                    let after = strs(names@);
                    let y = ds@[t as int]@;
                    assert(after =~= before.push(y));
                    assert(after.take(nk as int) =~= before.take(nk as int));
                    assert forall|a: int, b: int|
                        0 <= a < after.len() && 0 <= b < after.len() && a != b implies after[a]
                        != after[b] by {
                        if a < before.len() && b < before.len() {
                        } else if a == before.len() {
                            assert(before[b] != y);
                        } else {
                            assert(before[a] != y);
                        }
                    }
                    let kx = g.keys()[i as int];
                    assert(strs(g.vals()[i as int]@)[t as int] == y);
                    assert(gv[kx].contains(y));
                    assert(is_node(gv, y));
                    assert forall|x: Seq<char>| #[trigger] after.contains(x) implies is_node(gv, x) by {
                        if x != y {
                            let q = choose|q: int| 0 <= q < after.len() && after[q] == x;
                            assert(before[q] == x);
                            assert(before.contains(x));
                        }
                    }
                    assert forall|j: int, x: Seq<char>|
                        0 <= j < i && #[trigger] strs(g.vals()[j]@).contains(x) implies after.contains(x) by {
                        assert(before.contains(x));
                        let q = choose|q: int| 0 <= q < before.len() && before[q] == x;
                        assert(after[q] == x);
                    }
                    assert forall|u: int| 0 <= u < t + 1 implies after.contains(#[trigger] ds@[u]@) by {
                        if u < t {
                            let q = choose|q: int| 0 <= q < before.len() && before[q] == ds@[u]@;
                            assert(after[q] == ds@[u]@);
                        } else {
                            assert(after[before.len() as int] == y);
                        }
                    }
                }
            }
            t = t + 1;
        }
        proof {
            assert forall|j: int, x: Seq<char>|
                0 <= j < i + 1 && #[trigger] strs(g.vals()[j]@).contains(x) implies strs(names@).contains(x) by {
                if j == i {
                    let u = choose|u: int| 0 <= u < strs(ds@).len() && strs(ds@)[u] == x;
                    assert(ds@[u]@ == x);
                }
            }
        }
        i = i + 1;
    }
    proof {
        assert forall|x: Seq<char>| is_node(gv, x) implies strs(names@).contains(x) by {
            if gv.contains_key(x) {
                assert(g.keys().contains(x));
                let q = choose|q: int| 0 <= q < g.keys().len() && g.keys()[q] == x;
                assert(strs(names@).take(nk as int)[q] == x);
                assert(strs(names@)[q] == x);
            } else {
                let m = choose|m: Seq<char>| gv.contains_key(m) && #[trigger] gv[m].contains(x);
                assert(g.keys().contains(m));
                let q = choose|q: int| 0 <= q < g.keys().len() && g.keys()[q] == m;
                lemma_key_lookup(g, q);
                assert(strs(g.vals()[q]@).contains(x));
            }
        }
    }
    // Dependencies by index.
    let n = names.len();
    let mut adj: Vec<Vec<usize>> = Vec::new();
    let mut a: usize = 0;
    while a < n
        invariant
            n == names.len(),
            nk == g.keys().len(),
            nk == g.vals().len(),
            nk <= n,
            a <= n,
            g.inv(),
            strs(names@).no_duplicates(),
            strs(names@).take(nk as int) == g.keys(),
            gv == graph_view(g),
            forall|x: Seq<char>| strs(names@).contains(x) <==> is_node(gv, x),
            adj.len() == a,
            forall|b: int|
                0 <= b < a ==> (#[trigger] adj@[b])@.len() == deps_of(gv, strs(names@)[b]).len(),
            forall|b: int, t: int|
                0 <= b < a && 0 <= t < adj@[b]@.len() ==> #[trigger] adj@[b]@[t] < n && strs(
                    names@,
                )[adj@[b]@[t] as int] == deps_of(gv, strs(names@)[b])[t],
        decreases n - a,
    {
        let ghost nm = strs(names@);
        let mut row: Vec<usize> = Vec::new();
        if a < nk {
            let ds = g.value_at(a);
            proof {
                lemma_key_lookup(g, a as int);
                assert(nm[a as int] == g.keys()[a as int]);
            }
            let mut t: usize = 0;
            while t < ds.len()
                invariant
                    n == names.len(),
                    nm == strs(names@),
                    a < nk,
                    t <= ds.len(),
                    *ds == g.vals()[a as int],
                    gv.contains_key(nm[a as int]),
                    deps_of(gv, nm[a as int]) == strs(ds@),
                    forall|x: Seq<char>| nm.contains(x) <==> is_node(gv, x),
                    row.len() == t,
                    forall|u: int|
                        0 <= u < t ==> #[trigger] row@[u] < n && nm[row@[u] as int] == strs(ds@)[u],
                decreases ds.len() - t,
            {
                proof {
                    assert(strs(ds@)[t as int] == ds@[t as int]@);
                    assert(gv[nm[a as int]].contains(ds@[t as int]@));
                    assert(is_node(gv, ds@[t as int]@));
                }
                let j = index_in(&names, ds[t].as_str());
                match j {
                    Some(j) => {
                        row.push(j);
                    },
                    None => {
                        proof {
                            assert(false);
                        }
                        row.push(0);
                    },
                }
                t = t + 1;
            }
        } else {
            proof {
                assert(!g.keys().contains(nm[a as int])) by {
                    if g.keys().contains(nm[a as int]) {
                        let q = choose|q: int| 0 <= q < g.keys().len() && g.keys()[q] == nm[a as int];
                        assert(nm.take(nk as int)[q] == nm[q]);
                        assert(nm[q] == nm[a as int]);
                    }
                }
            }
        }
        adj.push(row);
        a = a + 1;
    }
    (names, adj)
}

// ---------------------------------------------------------------------------
// Layering by index
// ---------------------------------------------------------------------------

/// Every dependency of node `i` has been placed.
fn deps_placed(row: &Vec<usize>, placed: &Vec<bool>) -> (r: bool)
    requires
        forall|t: int| 0 <= t < row.len() ==> #[trigger] row@[t] < placed.len(),
    ensures
        r == forall|t: int| 0 <= t < row.len() ==> placed@[#[trigger] row@[t] as int],
{
    let mut t: usize = 0;
    while t < row.len()
        invariant
            t <= row.len(),
            forall|u: int| 0 <= u < row.len() ==> #[trigger] row@[u] < placed.len(),
            forall|u: int| 0 <= u < t ==> placed@[#[trigger] row@[u] as int],
        decreases row.len() - t,
    {
        if !placed[row[t]] {
            return false;
        }
        t = t + 1;
    }
    true
}

/// Index-level facts about a partial layering `w` with levels `lv`.
pub open spec fn layered(
    adj: Seq<Vec<usize>>,
    placed: Seq<bool>,
    lv: Seq<int>,
    w: Seq<Vec<usize>>,
) -> bool {
    let n = adj.len();
    &&& placed.len() == n
    &&& lv.len() == n
    &&& forall|i: int| 0 <= i < n && #[trigger] placed[i] ==> 0 <= lv[i] < w.len()
    &&& forall|k: int| 0 <= k < w.len() ==> (#[trigger] w[k])@.len() > 0 && w[k]@.no_duplicates()
    &&& forall|k: int, t: int|
        0 <= k < w.len() && 0 <= t < w[k]@.len() ==> #[trigger] w[k]@[t] < n && placed[w[k]@[t] as int]
            && lv[w[k]@[t] as int] == k
    &&& forall|i: int| 0 <= i < n && placed[i] ==> #[trigger] w[lv[i]]@.contains(i as usize)
    &&& forall|i: int, t: int|
        0 <= i < n && placed[i] && 0 <= t < adj[i]@.len() ==> placed[#[trigger] adj[i]@[t] as int]
            && lv[adj[i]@[t] as int] < lv[i]
    &&& forall|i: int|
        0 <= i < n && #[trigger] placed[i] && lv[i] > 0 ==> exists|t: int|
            0 <= t < adj[i]@.len() && lv[#[trigger] adj[i]@[t] as int] == lv[i] - 1
}

/// Every dependency of node `x` has been placed.
pub open spec fn eligible(adj: Seq<Vec<usize>>, placed: Seq<bool>, x: usize) -> bool {
    forall|t: int| 0 <= t < adj[x as int]@.len() ==> placed[#[trigger] adj[x as int]@[t] as int]
}

proof fn lemma_push_contains<A>(v: Seq<A>, x: A, y: A)
    ensures
        v.push(x).contains(y) <==> (v.contains(y) || y == x),
{
    if v.contains(y) {
        let q = choose|q: int| 0 <= q < v.len() && v[q] == y;
        assert(v.push(x)[q] == y);
    }
    if y == x {
        assert(v.push(x)[v.len() as int] == y);
    }
    if v.push(x).contains(y) && y != x {
        let q = choose|q: int| 0 <= q < v.len() + 1 && v.push(x)[q] == y;
        assert(v[q] == y);
    }
}

proof fn lemma_take_step_contains<A>(v: Seq<A>, j: int, y: A)
    requires
        0 <= j < v.len(),
    ensures
        v.take(j + 1).contains(y) <==> (v.take(j).contains(y) || y == v[j]),
{
    assert(v.take(j + 1) =~= v.take(j).push(v[j]));
    lemma_push_contains(v.take(j), v[j], y);
}

proof fn lemma_push_no_dup<A>(v: Seq<A>, x: A)
    requires
        v.no_duplicates(),
        !v.contains(x),
    ensures
        v.push(x).no_duplicates(),
{
    let w = v.push(x);
    assert forall|a: int, b: int| 0 <= a < w.len() && 0 <= b < w.len() && a != b implies w[a]
        != w[b] by {
        if a < v.len() && b < v.len() {
        } else if a == v.len() {
            assert(v.contains(v[b]));
        } else {
            assert(v.contains(v[a]));
        }
    }
}

/// Places nodes round by round: in each round, every node whose
/// dependencies were all placed in earlier rounds. Stops when a round
/// places nothing.
fn layer_indices(adj: &Vec<Vec<usize>>) -> (res: (Vec<Vec<usize>>, Vec<bool>, Ghost<Seq<int>>))
    requires
        forall|i: int, t: int|
            0 <= i < adj.len() && 0 <= t < adj@[i]@.len() ==> #[trigger] adj@[i]@[t] < adj.len(),
    ensures
        layered(adj@, res.1@, res.2@, res.0@),
        forall|i: int|
            0 <= i < adj.len() && !res.1@[i] ==> exists|t: int|
                0 <= t < adj@[i]@.len() && !res.1@[#[trigger] adj@[i]@[t] as int],
{
    let n = adj.len();
    let mut placed: Vec<bool> = Vec::new();
    let mut unplaced: Vec<usize> = Vec::new();
    let mut i: usize = 0;
    while i < n
        invariant
            i <= n,
            placed.len() == i,
            forall|j: int| 0 <= j < i ==> !placed@[j],
            unplaced@ == Seq::new(i as nat, |j: int| j as usize),
        decreases n - i,
    {
        placed.push(false);
        unplaced.push(i);
        proof {
            assert(unplaced@ =~= Seq::new((i + 1) as nat, |j: int| j as usize));
        }
        i = i + 1;
    }
    let ghost mut lv: Seq<int> = Seq::new(n as nat, |j: int| 0int);
    let mut waves: Vec<Vec<usize>> = Vec::new();
    proof {
        assert forall|j: int| 0 <= j < n implies (!placed@[j] <==> unplaced@.contains(j as usize)) by {
            assert(unplaced@[j] == j as usize);
        }
    }
    loop
        invariant
            n == adj.len(),
            forall|a: int, t: int|
                0 <= a < n && 0 <= t < adj@[a]@.len() ==> #[trigger] adj@[a]@[t] < n,
            layered(adj@, placed@, lv, waves@),
            unplaced@.no_duplicates(),
            forall|t: int| 0 <= t < unplaced.len() ==> #[trigger] unplaced@[t] < n,
            forall|j: int| 0 <= j < n ==> (!placed@[j] <==> unplaced@.contains(j as usize)),
            waves.len() > 0 ==> forall|j: int|
                0 <= j < n && !placed@[j] ==> exists|t: int|
                    0 <= t < adj@[j]@.len() && !(placed@[#[trigger] adj@[j]@[t] as int]
                        && lv[adj@[j]@[t] as int] < waves.len() - 1),
        decreases unplaced.len(),
    {
        let ghost r = waves.len() as int;
        let mut cand: Vec<usize> = Vec::new();
        let mut rest: Vec<usize> = Vec::new();
        let mut j: usize = 0;
        while j < unplaced.len()
            invariant
                n == adj.len(),
                placed.len() == n,
                forall|a: int, t: int|
                    0 <= a < n && 0 <= t < adj@[a]@.len() ==> #[trigger] adj@[a]@[t] < n,
                j <= unplaced.len(),
                unplaced@.no_duplicates(),
                forall|t: int| 0 <= t < unplaced.len() ==> #[trigger] unplaced@[t] < n,
                cand.len() + rest.len() == j,
                cand@.no_duplicates(),
                rest@.no_duplicates(),
                forall|y: usize|
                    #[trigger] cand@.contains(y) <==> (unplaced@.take(j as int).contains(y)
                        && eligible(adj@, placed@, y)),
                forall|y: usize|
                    #[trigger] rest@.contains(y) <==> (unplaced@.take(j as int).contains(y)
                        && !eligible(adj@, placed@, y)),
            decreases unplaced.len() - j,
        {
            let x = unplaced[j];
            proof {
                assert(!unplaced@.take(j as int).contains(x)) by {
                    if unplaced@.take(j as int).contains(x) {
                        let q = choose|q: int| 0 <= q < j && unplaced@.take(j as int)[q] == x;
                        assert(unplaced@[q] == unplaced@[j as int]);
                    }
                }
                assert forall|y: usize| #[trigger] unplaced@.take(j + 1).contains(y) <==> (unplaced@.take(j as int).contains(y) || y == x) by {
                    lemma_take_step_contains(unplaced@, j as int, y);
                }
                assert(x < n);
            }
            let ghost old_cand = cand@;
            let ghost old_rest = rest@;
            if deps_placed(&adj[x], &placed) {
                cand.push(x);
                proof {
                    assert(eligible(adj@, placed@, x));
                    assert(!old_cand.contains(x));
                    lemma_push_no_dup(old_cand, x);
                    assert forall|y: usize| #[trigger] cand@.contains(y) <==> (old_cand.contains(y) || y == x) by {
                        lemma_push_contains(old_cand, x, y);
                    }
                }
            } else {
                rest.push(x);
                proof {
                    assert(!eligible(adj@, placed@, x));
                    assert(!old_rest.contains(x));
                    lemma_push_no_dup(old_rest, x);
                    assert forall|y: usize| #[trigger] rest@.contains(y) <==> (old_rest.contains(y) || y == x) by {
                        lemma_push_contains(old_rest, x, y);
                    }
                }
            }
            j = j + 1;
        }
        proof {
            assert(unplaced@.take(unplaced.len() as int) =~= unplaced@);
        }
        if cand.len() == 0 {
            proof {
                assert forall|a: int|
                    0 <= a < n && !placed@[a] implies exists|t: int|
                        0 <= t < adj@[a]@.len() && !placed@[#[trigger] adj@[a]@[t] as int] by {
                    assert(unplaced@.contains(a as usize));
                    assert(!cand@.contains(a as usize));
                    assert(!eligible(adj@, placed@, a as usize));
                }
            }
            return (waves, placed, Ghost(lv));
        }
        // Place the candidates at level r.
        proof {
            assert forall|t: int| 0 <= t < cand.len() implies #[trigger] cand@[t] < n by {
                assert(cand@.contains(cand@[t]));
                let q = choose|q: int| 0 <= q < unplaced@.len() && unplaced@.take(unplaced.len() as int)[q] == cand@[t];
                assert(unplaced@[q] == cand@[t]);
            }
        }
        let ghost old_placed = placed@;
        let ghost old_lv = lv;
        let mut c: usize = 0;
        while c < cand.len()
            invariant
                placed.len() == n,
                lv.len() == n,
                c <= cand.len(),
                old_placed.len() == n,
                forall|t: int| 0 <= t < cand.len() ==> #[trigger] cand@[t] < n,
                forall|y: int|
                    0 <= y < n ==> #[trigger] placed@[y] == (old_placed[y] || cand@.take(
                        c as int,
                    ).contains(y as usize)),
                forall|y: int|
                    0 <= y < n ==> #[trigger] lv[y] == (if cand@.take(c as int).contains(
                        y as usize,
                    ) {
                        r
                    } else {
                        old_lv[y]
                    }),
            decreases cand.len() - c,
        {
            let x = cand[c];
            let ghost pl = placed@;
            let ghost lv0 = lv;
            placed.set(x, true);
            proof {
                lv = lv.update(x as int, r);
                assert forall|y: int| 0 <= y < n implies #[trigger] placed@[y] == (old_placed[y] || cand@.take(
                        c + 1).contains(y as usize)) by {
                    lemma_take_step_contains(cand@, c as int, y as usize);
                    assert(pl[y] == (old_placed[y] || cand@.take(c as int).contains(y as usize)));
                }
                assert forall|y: int| 0 <= y < n implies #[trigger] lv[y] == (if cand@.take(c + 1).contains(
                        y as usize,
                    ) {
                        r
                    } else {
                        old_lv[y]
                    }) by {
                    lemma_take_step_contains(cand@, c as int, y as usize);
                    assert(lv0[y] == (if cand@.take(c as int).contains(y as usize) { r } else { old_lv[y] }));
                }
            }
            c = c + 1;
        }
        proof {
            assert(cand@.take(cand.len() as int) =~= cand@);
        }
        let ghost old_waves = waves@;
        waves.push(cand);
        proof {
            let w = waves@;
            assert(w =~= old_waves.push(cand));
            // Newly placed nodes were eligible: all dependencies placed before
            // this round, and (for r > 0) one of them in the round before.
            assert forall|y: int| 0 <= y < n && placed@[y] implies 0 <= lv[y] < w.len() by {}
            assert forall|k: int, t: int|
                0 <= k < w.len() && 0 <= t < w[k]@.len() implies #[trigger] w[k]@[t] < n && placed@[w[k]@[t] as int]
                && lv[w[k]@[t] as int] == k by {
                if k < old_waves.len() {
                    assert(old_waves[k]@[t] < n);
                    assert(!cand@.contains(w[k]@[t])) by {
                        if cand@.contains(w[k]@[t]) {
                            assert(unplaced@.contains(w[k]@[t]));
                        }
                    }
                } else {
                    assert(cand@.contains(cand@[t]));
                }
            }
            assert forall|y: int| 0 <= y < n && placed@[y] implies #[trigger] w[lv[y]]@.contains(
                y as usize,
            ) by {
                if cand@.contains(y as usize) {
                    assert(w[r]@ == cand@);
                } else {
                    assert(old_placed[y]);
                    assert(old_waves[old_lv[y]]@.contains(y as usize));
                }
            }
            assert forall|y: int, t: int|
                0 <= y < n && placed@[y] && 0 <= t < adj@[y]@.len() implies placed@[#[trigger] adj@[y]@[t] as int]
                && lv[adj@[y]@[t] as int] < lv[y] by {
                let z = adj@[y]@[t] as int;
                if cand@.contains(y as usize) {
                    assert(old_placed[z]);
                    assert(!cand@.contains(z as usize)) by {
                        if cand@.contains(z as usize) {
                            assert(unplaced@.contains(z as usize));
                        }
                    }
                } else {
                    assert(old_placed[y]);
                    assert(old_placed[z]);
                    assert(!cand@.contains(z as usize)) by {
                        if cand@.contains(z as usize) {
                            assert(unplaced@.contains(z as usize));
                        }
                    }
                }
            }
            assert forall|y: int|
                0 <= y < n && #[trigger] placed@[y] && lv[y] > 0 implies exists|t: int|
                    0 <= t < adj@[y]@.len() && lv[#[trigger] adj@[y]@[t] as int] == lv[y] - 1 by {
                if cand@.contains(y as usize) {
                    assert(unplaced@.contains(y as usize));
                    assert(!old_placed[y]);
                    let t = choose|t: int|
                        0 <= t < adj@[y]@.len() && !(old_placed[#[trigger] adj@[y]@[t] as int]
                            && old_lv[adj@[y]@[t] as int] < r - 1);
                    let z = adj@[y]@[t] as int;
                    assert(old_placed[z]);
                    assert(!cand@.contains(z as usize)) by {
                        if cand@.contains(z as usize) {
                            assert(unplaced@.contains(z as usize));
                        }
                    }
                    assert(lv[z] == r - 1);
                } else {
                    let t = choose|t: int|
                        0 <= t < adj@[y]@.len() && old_lv[#[trigger] adj@[y]@[t] as int] == old_lv[y] - 1;
                    let z = adj@[y]@[t] as int;
                    assert(old_placed[z]);
                    assert(!cand@.contains(z as usize)) by {
                        if cand@.contains(z as usize) {
                            assert(unplaced@.contains(z as usize));
                        }
                    }
                }
            }
            assert forall|y: int|
                0 <= y < n && !placed@[y] implies exists|t: int|
                    0 <= t < adj@[y]@.len() && !(placed@[#[trigger] adj@[y]@[t] as int]
                        && lv[adj@[y]@[t] as int] < w.len() - 1) by {
                assert(unplaced@.contains(y as usize));
                assert(!cand@.contains(y as usize));
                assert(rest@.contains(y as usize));
                let t = choose|t: int| 0 <= t < adj@[y]@.len() && !old_placed[#[trigger] adj@[y]@[t] as int];
            }
            assert forall|y: int| 0 <= y < n implies (!placed@[y] <==> rest@.contains(y as usize)) by {
                if rest@.contains(y as usize) {
                    assert(unplaced@.contains(y as usize));
                    assert(!cand@.contains(y as usize));
                }
                if !placed@[y] {
                    assert(unplaced@.contains(y as usize));
                }
            }
            assert forall|t: int| 0 <= t < rest.len() implies #[trigger] rest@[t] < n by {
                assert(rest@.contains(rest@[t]));
                assert(unplaced@.contains(rest@[t]));
            }
        }
        unplaced = rest;
    }
}


/// The names of the nodes listed by index in `row`.
fn names_at(names: &Vec<String>, row: &Vec<usize>) -> (r: Vec<String>)
    requires
        forall|t: int| 0 <= t < row.len() ==> #[trigger] row@[t] < names.len(),
    ensures
        r.len() == row.len(),
        forall|t: int| 0 <= t < row.len() ==> #[trigger] strs(r@)[t] == strs(names@)[row@[t] as int],
{
    let mut r: Vec<String> = Vec::new();
    let mut t: usize = 0;
    while t < row.len()
        invariant
            t <= row.len(),
            forall|u: int| 0 <= u < row.len() ==> #[trigger] row@[u] < names.len(),
            r.len() == t,
            forall|u: int| 0 <= u < t ==> #[trigger] strs(r@)[u] == strs(names@)[row@[u] as int],
        decreases row.len() - t,
    {
        let ghost before = r@;
        r.push(names[row[t]].clone());
        proof {
            assert forall|u: int| 0 <= u < t + 1 implies #[trigger] strs(r@)[u] == strs(names@)[row@[u] as int] by {
                if u < t {
                    assert(r@[u] == before[u]);
                    assert(strs(before)[u] == before[u]@);
                }
            }
        }
        t = t + 1;
    }
    r
}

/// Orders the nodes of `graph` into waves: wave 0 holds the nodes without
/// dependencies, and each later wave the nodes whose dependencies all lie in
/// earlier waves, one of them in the wave just before. Names within a wave
/// are sorted. Fails exactly when the graph has a dependency cycle.
pub fn resolve_order(graph: &DepGraph) -> (r: Result<Vec<Vec<String>>, DepError>)
    ensures
        match r {
            Ok(w) => is_layering(graph_view(graph), waves_view(w@)),
            Err(_) => has_cycle(graph_view(graph)),
        },
        r is Err <==> has_cycle(graph_view(graph)),
{
    let ghost gv = graph_view(graph);
    let (names, adj) = index_graph(graph);
    let ghost nm = strs(names@);
    let n = names.len();
    let (widx, placed, Ghost(lv)) = layer_indices(&adj);
    let mut i: usize = 0;
    while i < n
        invariant
            gv == graph_view(graph),
            n == names.len(),
            nm == strs(names@),
            nm.no_duplicates(),
            adj.len() == n,
            adj_ok(gv, nm, adj@),
            forall|x: Seq<char>| nm.contains(x) <==> is_node(gv, x),
            layered(adj@, placed@, lv, widx@),
            forall|a: int|
                0 <= a < adj.len() && !placed@[a] ==> exists|t: int|
                    0 <= t < adj@[a]@.len() && !placed@[#[trigger] adj@[a]@[t] as int],
            i <= n,
            placed.len() == n,
            forall|j: int| 0 <= j < i ==> placed@[j],
        decreases n - i,
    {
        if !placed[i] {
            proof {
                let st = Set::new(|y: Seq<char>| exists|a: int| 0 <= a < n && !placed@[a] && nm[a] == y);
                assert(is_stuck(gv, st)) by {
                    reveal(is_stuck);
                    assert(st.contains(nm[i as int]));
                    assert forall|y: Seq<char>| #[trigger] st.contains(y) implies is_node(gv, y)
                        && exists|d: Seq<char>| #[trigger] deps_of(gv, y).contains(d) && st.contains(d) by {
                        let a = choose|a: int| 0 <= a < n && !placed@[a] && nm[a] == y;
                        assert(nm.len() == n);
                        assert(nm[a] == y);
                        assert(nm.contains(y));
                        let t = choose|t: int|
                            0 <= t < adj@[a]@.len() && !placed@[#[trigger] adj@[a]@[t] as int];
                        let b = adj@[a]@[t] as int;
                        let d = nm[b];
                        assert(d == deps_of(gv, y)[t]);
                        assert(deps_of(gv, y).contains(d));
                        assert(st.contains(d));
                    }
                }
                assert(has_cycle(gv));
            }
            return Err(DepError::Cycle);
        }
        i = i + 1;
    }
    let mut waves: Vec<Vec<String>> = Vec::new();
    let mut k: usize = 0;
    while k < widx.len()
        invariant
            gv == graph_view(graph),
            n == names.len(),
            nm == strs(names@),
            nm.no_duplicates(),
            adj.len() == n,
            adj_ok(gv, nm, adj@),
            forall|x: Seq<char>| nm.contains(x) <==> is_node(gv, x),
            layered(adj@, placed@, lv, widx@),
            forall|j: int| 0 <= j < n ==> placed@[j],
            k <= widx.len(),
            waves.len() == k,
            forall|q: int| 0 <= q < k ==> (#[trigger] waves@[q]).len() > 0 && sorted_strict(strs(waves@[q]@)),
            forall|q: int, y: Seq<char>|
                0 <= q < k ==> (#[trigger] strs(waves@[q]@).contains(y) <==> exists|t: int|
                    0 <= t < widx@[q]@.len() && nm[#[trigger] widx@[q]@[t] as int] == y),
        decreases widx.len() - k,
    {
        let row = &widx[k];
        let ws = names_at(&names, row);
        proof {
            assert forall|a: int, b: int|
                0 <= a < strs(ws@).len() && 0 <= b < strs(ws@).len() && a != b implies strs(ws@)[a]
                != strs(ws@)[b] by {
                assert(row@[a] != row@[b]);
                assert(strs(ws@)[a] == nm[row@[a] as int]);
                assert(strs(ws@)[b] == nm[row@[b] as int]);
            }
        }
        let sorted = sort_strings(ws);
        let ghost before = waves@;
        waves.push(sorted);
        proof {
            assert forall|y: Seq<char>| #[trigger] strs(waves@[k as int]@).contains(y) <==> exists|t: int|
                0 <= t < widx@[k as int]@.len() && nm[#[trigger] widx@[k as int]@[t] as int] == y by {
                let sw = strs(waves@[k as int]@);
                assert(sw.to_set().contains(y) == sw.contains(y));
                assert(strs(ws@).to_set().contains(y) == strs(ws@).contains(y));
                if strs(ws@).contains(y) {
                    let t = choose|t: int| 0 <= t < strs(ws@).len() && strs(ws@)[t] == y;
                    assert(nm[widx@[k as int]@[t] as int] == y);
                }
                if exists|t: int| 0 <= t < widx@[k as int]@.len() && nm[#[trigger] widx@[k as int]@[t] as int] == y {
                    let t = choose|t: int| 0 <= t < widx@[k as int]@.len() && nm[#[trigger] widx@[k as int]@[t] as int] == y;
                    assert(strs(ws@)[t] == y);
                    assert(strs(ws@).contains(y));
                }
            }
            assert forall|q: int, y: Seq<char>|
                0 <= q < k + 1 implies (#[trigger] strs(waves@[q]@).contains(y) <==> exists|t: int|
                    0 <= t < widx@[q]@.len() && nm[#[trigger] widx@[q]@[t] as int] == y) by {
                if q < k {
                    assert(waves@[q] == before[q]);
                }
            }
            assert forall|q: int| 0 <= q < k + 1 implies (#[trigger] waves@[q]).len() > 0 && sorted_strict(strs(waves@[q]@)) by {
                if q < k {
                    assert(waves@[q] == before[q]);
                }
            }
        }
        k = k + 1;
    }
    proof {
        let w = waves_view(waves@);
        assert forall|q: int| 0 <= q < w.len() implies #[trigger] w[q] == strs(waves@[q]@) by {}
        // Membership of a wave, by node index.
        assert forall|q: int, y: Seq<char>| #[trigger] in_wave(w, q, y) <==> exists|a: int|
            0 <= a < n && lv[a] == q && nm[a] == y by {
            if in_wave(w, q, y) {
                assert(strs(waves@[q]@).contains(y));
                let t = choose|t: int| 0 <= t < widx@[q]@.len() && nm[#[trigger] widx@[q]@[t] as int] == y;
                let a = widx@[q]@[t] as int;
                assert(lv[a] == q);
            }
            if exists|a: int| 0 <= a < n && lv[a] == q && nm[a] == y {
                let a = choose|a: int| 0 <= a < n && lv[a] == q && nm[a] == y;
                assert(placed@[a]);
                assert(widx@[lv[a]]@.contains(a as usize));
                let t = choose|t: int| 0 <= t < widx@[q]@.len() && widx@[q]@[t] == a as usize;
                assert(nm[widx@[q]@[t] as int] == y);
                assert(strs(waves@[q]@).contains(y));
            }
        }
        assert(is_layering(gv, w)) by {
            reveal(is_layering);
            assert forall|q: int, x: Seq<char>| #[trigger] in_wave(w, q, x) implies is_node(gv, x) by {
                let a = choose|a: int| 0 <= a < n && lv[a] == q && nm[a] == x;
                assert(nm.contains(x));
            }
            assert forall|x: Seq<char>| is_node(gv, x) implies exists|q: int| #[trigger] in_wave(w, q, x) by {
                assert(nm.contains(x));
                let a = choose|a: int| 0 <= a < nm.len() && nm[a] == x;
                assert(placed@[a]);
                assert(in_wave(w, lv[a], x));
            }
            assert forall|k1: int, k2: int, x: Seq<char>|
                #[trigger] in_wave(w, k1, x) && #[trigger] in_wave(w, k2, x) implies k1 == k2 by {
                let a1 = choose|a: int| 0 <= a < n && lv[a] == k1 && nm[a] == x;
                let a2 = choose|a: int| 0 <= a < n && lv[a] == k2 && nm[a] == x;
                assert(a1 == a2);
            }
            assert forall|q: int, x: Seq<char>, d: Seq<char>|
                #[trigger] in_wave(w, q, x) && #[trigger] deps_of(gv, x).contains(d) implies exists|j: int|
                    j < q && #[trigger] in_wave(w, j, d) by {
                let a = choose|a: int| 0 <= a < n && lv[a] == q && nm[a] == x;
                let t = choose|t: int| 0 <= t < deps_of(gv, x).len() && deps_of(gv, x)[t] == d;
                assert(placed@[a]);
                let b = adj@[a]@[t] as int;
                assert(nm[b] == d);
                assert(placed@[b] && lv[b] < lv[a]);
                assert(in_wave(w, lv[b], d));
            }
            assert forall|q: int, x: Seq<char>|
                #[trigger] in_wave(w, q, x) && q > 0 implies exists|d: Seq<char>|
                    #[trigger] deps_of(gv, x).contains(d) && in_wave(w, q - 1, d) by {
                let a = choose|a: int| 0 <= a < n && lv[a] == q && nm[a] == x;
                assert(placed@[a]);
                let t = choose|t: int| 0 <= t < adj@[a]@.len() && lv[#[trigger] adj@[a]@[t] as int] == lv[a] - 1;
                let b = adj@[a]@[t] as int;
                let d = nm[b];
                assert(deps_of(gv, x)[t] == d);
                assert(deps_of(gv, x).contains(d));
                assert(in_wave(w, q - 1, d));
            }
        }
        assert forall|st: Set<Seq<char>>| !is_stuck(gv, st) by {
            lemma_layering_acyclic(gv, w, st);
        }
    }
    Ok(waves)
}


// ---------------------------------------------------------------------------
// Ordering a requested subset
// ---------------------------------------------------------------------------

/// Every dependency of a member of `s` is a member of `s`.
pub open spec fn dep_closed(gv: Map<Seq<char>, Seq<Seq<char>>>, s: Set<Seq<char>>) -> bool {
    forall|x: Seq<char>, d: Seq<char>|
        s.contains(x) && #[trigger] deps_of(gv, x).contains(d) ==> s.contains(d)
}

/// The requested names together with everything they depend on,
/// transitively: the least dependency-closed set that holds `req`.
pub open spec fn closure(gv: Map<Seq<char>, Seq<Seq<char>>>, req: Set<Seq<char>>) -> Set<Seq<char>> {
    Set::new(
        |x: Seq<char>|
            forall|s: Set<Seq<char>>| req.subset_of(s) && dep_closed(gv, s) ==> #[trigger] s.contains(x),
    )
}

/// The requested names and all their transitive dependencies: the closure
/// holds every requested name, every dependency of a member, and nothing
/// that some dependency-closed superset of the request leaves out.
pub proof fn lemma_closure_covers(gv: Map<Seq<char>, Seq<Seq<char>>>, req: Set<Seq<char>>)
    ensures
        req.subset_of(closure(gv, req)),
        dep_closed(gv, closure(gv, req)),
        forall|s: Set<Seq<char>>|
            req.subset_of(s) && dep_closed(gv, s) ==> #[trigger] closure(gv, req).subset_of(s),
{
    assert forall|x: Seq<char>, d: Seq<char>|
        closure(gv, req).contains(x) && #[trigger] deps_of(gv, x).contains(d) implies closure(
        gv,
        req,
    ).contains(d) by {
        assert forall|s: Set<Seq<char>>| req.subset_of(s) && dep_closed(gv, s) implies #[trigger] s.contains(
            d,
        ) by {
            assert(s.contains(x));
        }
    }
}

/// Starting a filtered set of services starts exactly the requested ones
/// and their transitive dependencies: those are the nodes of the filtered
/// graph.
pub proof fn lemma_filtered_nodes(gv: Map<Seq<char>, Seq<Seq<char>>>, req: Set<Seq<char>>, x: Seq<char>)
    ensures
        is_node(restrict(gv, closure(gv, req)), x) <==> closure(gv, req).contains(x),
{
    lemma_closure_covers(gv, req);
    let keep = closure(gv, req);
    let r = restrict(gv, keep);
    if is_node(r, x) && !r.contains_key(x) {
        let m = choose|m: Seq<char>| r.contains_key(m) && #[trigger] r[m].contains(x);
        assert(keep.contains(m));
        assert(deps_of(gv, m).contains(x));
    }
}

/// The graph cut down to the nodes in `keep` (each keeping its
/// dependencies).
pub open spec fn restrict(gv: Map<Seq<char>, Seq<Seq<char>>>, keep: Set<Seq<char>>) -> Map<
    Seq<char>,
    Seq<Seq<char>>,
> {
    Map::new(|k: Seq<char>| keep.contains(k), |k: Seq<char>| deps_of(gv, k))
}

/// The graph of the requested services and their transitive dependencies.
pub open spec fn requested_graph(g: &DepGraph, requested: Seq<String>) -> Map<
    Seq<char>,
    Seq<Seq<char>>,
> {
    restrict(graph_view(g), closure(graph_view(g), strs(requested).to_set()))
}

/// The needed names: the requested ones and, transitively, their
/// dependencies (in the order they were found).
fn collect_needed(graph: &DepGraph, requested: &Vec<String>) -> (needed: Vec<String>)
    ensures
        strs(needed@).no_duplicates(),
        strs(needed@).to_set() == closure(graph_view(graph), strs(requested@).to_set()),
{
    let ghost gv = graph_view(graph);
    let ghost req = strs(requested@).to_set();
    let (nodes, _adj) = index_graph(graph);
    let mut univ: Vec<String> = requested.clone();
    let mut a: usize = 0;
    while a < nodes.len()
        invariant
            a <= nodes.len(),
            strs(univ@) == strs(requested@) + strs(nodes@).take(a as int),
        decreases nodes.len() - a,
    {
        let ghost before = univ@;
        univ.push(nodes[a].clone());
        proof {
            assert(strs(univ@) =~= strs(requested@) + strs(nodes@).take(a + 1)) by {
                assert(strs(univ@) =~= strs(before).push(nodes@[a as int]@));
            }
        }
        a = a + 1;
    }
    proof {
        assert(strs(nodes@).take(nodes.len() as int) =~= strs(nodes@));
        assert forall|y: Seq<char>| req.contains(y) || is_node(gv, y) implies strs(univ@).contains(y) by {
            if req.contains(y) {
                let t = choose|t: int| 0 <= t < strs(requested@).len() && strs(requested@)[t] == y;
                assert(strs(univ@)[t] == y);
            } else {
                assert(strs(nodes@).contains(y));
                let t = choose|t: int| 0 <= t < strs(nodes@).len() && strs(nodes@)[t] == y;
                assert(strs(univ@)[requested.len() + t] == y);
            }
        }
        strs(univ@).lemma_cardinality_of_set();
    }
    let mut needed: Vec<String> = Vec::new();
    let mut queue: Vec<String> = requested.clone();
    let mut head: usize = 0;
    proof {
        assert(strs(needed@) =~= Seq::<Seq<char>>::empty());
        assert(strs(queue@).subrange(0, queue.len() as int) =~= strs(requested@));
        assert forall|y: Seq<char>| #[trigger] strs(queue@).contains(y) implies closure(gv, req).contains(y) by {
            assert(req.contains(y));
        }
    }
    while head < queue.len()
        invariant
            gv == graph_view(graph),
            req == strs(requested@).to_set(),
            head <= queue.len(),
            strs(needed@).no_duplicates(),
            strs(univ@).to_set().len() <= univ.len(),
            forall|y: Seq<char>| req.contains(y) || is_node(gv, y) ==> strs(univ@).contains(y),
            forall|y: Seq<char>|
                #[trigger] strs(needed@).contains(y) ==> req.contains(y) || is_node(gv, y),
            forall|y: Seq<char>|
                #[trigger] strs(queue@).contains(y) ==> req.contains(y) || is_node(gv, y),
            forall|y: Seq<char>|
                #[trigger] strs(needed@).contains(y) ==> closure(gv, req).contains(y),
            forall|y: Seq<char>|
                #[trigger] strs(queue@).contains(y) ==> closure(gv, req).contains(y),
            forall|y: Seq<char>|
                #[trigger] req.contains(y) ==> strs(needed@).contains(y) || strs(queue@).subrange(
                    head as int,
                    queue.len() as int,
                ).contains(y),
            forall|x: Seq<char>, d: Seq<char>|
                strs(needed@).contains(x) && #[trigger] deps_of(gv, x).contains(d) ==> strs(
                    needed@,
                ).contains(d) || strs(queue@).subrange(head as int, queue.len() as int).contains(d),
        decreases univ.len() - needed.len(), queue.len() - head,
    {
        proof {
            strs(needed@).unique_seq_to_set();
            assert(strs(needed@).to_set().subset_of(strs(univ@).to_set()));
            vstd::set_lib::lemma_len_subset(strs(needed@).to_set(), strs(univ@).to_set());
        }
        let node = queue[head].clone();
        let ghost nv = node@;
        let ghost old_needed = strs(needed@);
        let ghost old_rest = strs(queue@).subrange(head as int, queue.len() as int);
        proof {
            assert(strs(queue@)[head as int] == nv);
            assert(strs(queue@).contains(nv));
        }
        head = head + 1;
        let ghost rest0 = strs(queue@).subrange(head as int, queue.len() as int);
        proof {
            assert(old_rest =~= seq![nv] + strs(queue@).subrange(head as int, queue.len() as int));
            assert forall|y: Seq<char>| old_rest.contains(y) implies y == nv || strs(queue@).subrange(
                head as int,
                queue.len() as int,
            ).contains(y) by {
                let t = choose|t: int| 0 <= t < old_rest.len() && old_rest[t] == y;
                if t > 0 {
                    assert(strs(queue@).subrange(head as int, queue.len() as int)[t - 1] == y);
                }
            }
        }
        let already = index_in(&needed, node.as_str());
        if let Some(q) = already {
            proof {
                assert(strs(needed@)[q as int] == nv);
                assert(old_needed.contains(nv));
            }
        }
        if already.is_none() {
            needed.push(node.clone());
            proof {
                assert(strs(needed@) =~= old_needed.push(nv));
                lemma_push_no_dup(old_needed, nv);
                assert forall|y: Seq<char>| #[trigger] strs(needed@).contains(y) <==> (old_needed.contains(y) || y == nv) by {
                    lemma_push_contains(old_needed, nv, y);
                }
            }
            match graph.get(node.as_str()) {
                Some(ds) => {
                    proof {
                        use_type_invariant(graph);
                        graph.lemma_inv();
                        assert(gv.contains_key(nv));
                        assert(deps_of(gv, nv) == strs(ds@));
                    }
                    let mut t: usize = 0;
                    while t < ds.len()
                        invariant
                            gv == graph_view(graph),
                            req == strs(requested@).to_set(),
                            head <= queue.len(),
                            gv.contains_key(nv),
                            deps_of(gv, nv) == strs(ds@),
                            closure(gv, req).contains(nv),
                            strs(needed@).contains(nv),
                            t <= ds.len(),
                            forall|y: Seq<char>|
                                #[trigger] strs(queue@).contains(y) ==> req.contains(y) || is_node(gv, y),
                            forall|y: Seq<char>|
                                #[trigger] strs(queue@).contains(y) ==> closure(gv, req).contains(y),
                            forall|y: Seq<char>|
                                #[trigger] req.contains(y) ==> strs(needed@).contains(y) || strs(queue@).subrange(
                                    head as int,
                                    queue.len() as int,
                                ).contains(y),
                            forall|x: Seq<char>, d: Seq<char>|
                                strs(needed@).contains(x) && x != nv && #[trigger] deps_of(gv, x).contains(d) ==> strs(
                                    needed@,
                                ).contains(d) || strs(queue@).subrange(head as int, queue.len() as int).contains(d),
                            forall|y: Seq<char>|
                                #[trigger] rest0.contains(y) ==> strs(queue@).subrange(head as int, queue.len() as int).contains(y),
                            forall|u: int|
                                0 <= u < t ==> strs(needed@).contains(#[trigger] ds@[u]@) || strs(queue@).subrange(
                                    head as int,
                                    queue.len() as int,
                                ).contains(ds@[u]@),
                        decreases ds.len() - t,
                    {
                        let ghost qb = strs(queue@);
                        proof {
                            assert(strs(ds@)[t as int] == ds@[t as int]@);
                            assert(deps_of(gv, nv).contains(ds@[t as int]@));
                        }
                        let found = index_in(&needed, ds[t].as_str());
                        if let Some(q) = found {
                            proof {
                                assert(strs(needed@)[q as int] == ds@[t as int]@);
                            }
                        }
                        if found.is_none() {
                            queue.push(ds[t].clone());
                            proof {
                                let y0 = ds@[t as int]@;
                                assert(strs(queue@) =~= qb.push(y0));
                                assert(strs(queue@).subrange(head as int, queue.len() as int) =~= qb.subrange(
                                    head as int,
                                    qb.len() as int,
                                ).push(y0));
                                assert forall|y: Seq<char>| qb.subrange(head as int, qb.len() as int).contains(y) || y == y0
                                    implies #[trigger] strs(queue@).subrange(head as int, queue.len() as int).contains(y) by {
                                    lemma_push_contains(qb.subrange(head as int, qb.len() as int), y0, y);
                                }
                                assert forall|y: Seq<char>| #[trigger] strs(queue@).contains(y) implies qb.contains(y) || y == y0 by {
                                    lemma_push_contains(qb, y0, y);
                                }
                                assert(gv[nv].contains(y0));
                                assert(is_node(gv, y0));
                                assert forall|st: Set<Seq<char>>| req.subset_of(st) && dep_closed(gv, st) implies #[trigger] st.contains(y0) by {
                                    assert(st.contains(nv));
                                }
                            }
                        }
                        t = t + 1;
                    }
                    proof {
                        assert forall|x: Seq<char>, d: Seq<char>|
                            strs(needed@).contains(x) && #[trigger] deps_of(gv, x).contains(d) implies strs(
                                needed@,
                            ).contains(d) || strs(queue@).subrange(head as int, queue.len() as int).contains(d) by {
                            if x == nv {
                                let u = choose|u: int| 0 <= u < strs(ds@).len() && strs(ds@)[u] == d;
                                assert(ds@[u]@ == d);
                            }
                        }
                    }
                },
                None => {
                    proof {
                        assert(!gv.contains_key(nv));
                        assert forall|x: Seq<char>, d: Seq<char>|
                            strs(needed@).contains(x) && #[trigger] deps_of(gv, x).contains(d) implies strs(
                                needed@,
                            ).contains(d) || strs(queue@).subrange(head as int, queue.len() as int).contains(d) by {
                            if x == nv {
                                assert(deps_of(gv, x).len() == 0);
                            } else {
                                assert(old_needed.contains(x));
                            }
                        }
                    }
                },
            }
        }
        proof {
            let rest = strs(queue@).subrange(head as int, queue.len() as int);
            assert(strs(needed@).contains(nv));
            assert forall|y: Seq<char>| old_rest.contains(y) implies strs(needed@).contains(y) || rest.contains(y) by {
                if y != nv {
                    assert(rest0.contains(y));
                }
            }
            assert forall|y: Seq<char>| #[trigger] req.contains(y) implies strs(needed@).contains(y) || rest.contains(y) by {
                if old_needed.contains(y) {
                    let q = choose|q: int| 0 <= q < old_needed.len() && old_needed[q] == y;
                    assert(strs(needed@)[q] == y);
                }
            }
            strs(needed@).unique_seq_to_set();
            assert forall|y: Seq<char>| strs(needed@).to_set().contains(y) implies strs(univ@).to_set().contains(y) by {
                assert(strs(needed@).contains(y));
            }
            vstd::set_lib::lemma_len_subset(strs(needed@).to_set(), strs(univ@).to_set());
        }
    }
    proof {
        let nset = strs(needed@).to_set();
        assert(req.subset_of(nset));
        assert(dep_closed(gv, nset));
        assert(nset =~= closure(gv, req)) by {
            assert forall|y: Seq<char>| closure(gv, req).contains(y) implies nset.contains(y) by {
                assert(req.subset_of(nset) && dep_closed(gv, nset));
            }
        }
    }
    needed
}

/// Orders the requested services and everything they depend on
/// (transitively), as `resolve_order` orders a whole graph.
pub fn resolve_with_filter(graph: &DepGraph, requested: &Vec<String>) -> (r: Result<
    Vec<Vec<String>>,
    DepError,
>)
    ensures
        match r {
            Ok(w) => is_layering(requested_graph(graph, requested@), waves_view(w@)),
            Err(_) => has_cycle(requested_graph(graph, requested@)),
        },
        r is Err <==> has_cycle(requested_graph(graph, requested@)),
{
    let ghost gv = graph_view(graph);
    let needed = collect_needed(graph, requested);
    let ghost keep = strs(needed@).to_set();
    let mut sub: DepGraph = StrMap::new();
    let mut i: usize = 0;
    while i < needed.len()
        invariant
            gv == graph_view(graph),
            keep == strs(needed@).to_set(),
            keep == closure(gv, strs(requested@).to_set()),
            strs(needed@).no_duplicates(),
            i <= needed.len(),
            sub.keys() == strs(needed@).take(i as int),
            sub.vals().len() == i,
            forall|j: int| 0 <= j < i ==> strs(#[trigger] sub.vals()[j]@) == deps_of(gv, strs(needed@)[j]),
        decreases needed.len() - i,
    {
        let name = &needed[i];
        let mut deps: Vec<String> = Vec::new();
        let ghost nv = name@;
        proof {
            assert(strs(needed@)[i as int] == nv);
            assert(keep.contains(nv));
        }
        match graph.get(name.as_str()) {
            Some(ds) => {
                proof {
                    use_type_invariant(graph);
                    graph.lemma_inv();
                    assert(deps_of(gv, nv) == strs(ds@));
                }
                let mut t: usize = 0;
                while t < ds.len()
                    invariant
                        keep == strs(needed@).to_set(),
                        keep == closure(gv, strs(requested@).to_set()),
                        keep.contains(nv),
                        deps_of(gv, nv) == strs(ds@),
                        t <= ds.len(),
                        strs(deps@) == strs(ds@).take(t as int),
                    decreases ds.len() - t,
                {
                    proof {
                        assert(strs(ds@)[t as int] == ds@[t as int]@);
                        assert(deps_of(gv, nv).contains(ds@[t as int]@));
                        // The closure is closed under dependencies.
                        let req = strs(requested@).to_set();
                        assert forall|st: Set<Seq<char>>| req.subset_of(st) && dep_closed(gv, st) implies #[trigger] st.contains(ds@[t as int]@) by {
                            assert(st.contains(nv));
                        }
                        assert(keep.contains(ds@[t as int]@));
                    }
                    if index_in(&needed, ds[t].as_str()).is_some() {
                        let ghost before = deps@;
                        deps.push(ds[t].clone());
                        proof {
                            assert(strs(deps@) =~= strs(before).push(ds@[t as int]@));
                        }
                    } else {
                        proof {
                            assert(strs(needed@).to_set().contains(ds@[t as int]@));
                            assert(false);
                        }
                    }
                    proof {
                        assert(strs(ds@).take(t + 1) =~= strs(ds@).take(t as int).push(ds@[t as int]@));
                    }
                    t = t + 1;
                }
                proof {
                    assert(strs(ds@).take(ds.len() as int) =~= strs(ds@));
                }
            },
            None => {
                proof {
                    assert(strs(deps@) =~= deps_of(gv, nv));
                }
            },
        }
        let ghost old_keys = sub.keys();
        let ghost old_vals = sub.vals();
        proof {
            assert(!old_keys.contains(nv)) by {
                if old_keys.contains(nv) {
                    let q = choose|q: int| 0 <= q < old_keys.len() && old_keys[q] == nv;
                    assert(strs(needed@)[q] == strs(needed@)[i as int]);
                }
            }
        }
        sub.insert(name.clone(), deps);
        proof {
            assert(sub.keys() =~= strs(needed@).take(i + 1));
            assert forall|j: int| 0 <= j < i + 1 implies strs(#[trigger] sub.vals()[j]@) == deps_of(gv, strs(needed@)[j]) by {
                if j < i {
                    assert(sub.vals()[j] == old_vals[j]);
                }
            }
        }
        i = i + 1;
    }
    proof {
        assert(strs(needed@).take(needed.len() as int) =~= strs(needed@));
        use_type_invariant(&sub);
        sub.lemma_inv();
        let sg = requested_graph(graph, requested@);
        assert(graph_view(&sub) =~= sg) by {
            assert forall|k: Seq<char>| #[trigger] graph_view(&sub).contains_key(k) <==> sg.contains_key(k) by {
                assert(sub.keys().to_set().contains(k) == sub.keys().contains(k));
            }
            assert forall|k: Seq<char>| #[trigger] graph_view(&sub).contains_key(k) implies graph_view(&sub)[k] == sg[k] by {
                let q = choose|q: int| 0 <= q < sub.keys().len() && sub.keys()[q] == k;
                assert(sub.lookup(sub.keys()[q]) == Some(sub.vals()[q]));
            }
        }
    }
    resolve_order(&sub)
}

} // verus!
