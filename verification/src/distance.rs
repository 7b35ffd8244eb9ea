//! Hop distances: the least number of edges between two vertices, `-1`
//! between vertices that no walk joins.

use crate::graph::{row_has, Graph, GraphView, MAX_ORDER};
use vstd::prelude::*;

verus! {

/// There is a walk of exactly `k` edges from `u` to `v`.
pub open spec fn walk(g: GraphView, u: int, v: int, k: nat) -> bool
    decreases k,
{
    if k == 0 {
        u == v && 0 <= u < g.order
    } else {
        exists|w: int| walk(g, u, w, (k - 1) as nat) && #[trigger] g.adjacent(w, v)
    }
}

/// Some walk leads from `u` to `v`: they lie in one component.
pub open spec fn connected(g: GraphView, u: int, v: int) -> bool {
    exists|k: nat| walk(g, u, v, k)
}

/// A walk of `k` edges leads from `u` to `v`, and none of fewer edges.
pub open spec fn shortest(g: GraphView, u: int, v: int, k: nat) -> bool {
    walk(g, u, v, k) && forall|j: nat| j < k ==> !walk(g, u, v, j)
}

/// The hop distance from `u` to `v`: the length of a shortest walk, or `-1`
/// when `u` and `v` lie in different components.
pub open spec fn distance(g: GraphView, u: int, v: int) -> int {
    if connected(g, u, v) {
        (choose|k: nat| shortest(g, u, v, k)) as int
    } else {
        -1
    }
}

/// Below any walk there is a shortest one.
pub proof fn lemma_shortest_exists(g: GraphView, u: int, v: int, k: nat)
    requires
        walk(g, u, v, k),
    ensures
        exists|m: nat| m <= k && shortest(g, u, v, m),
    decreases k,
{
    if forall|j: nat| j < k ==> !walk(g, u, v, j) {
        assert(shortest(g, u, v, k));
    } else {
        let j = choose|j: nat| j < k && walk(g, u, v, j);
        lemma_shortest_exists(g, u, v, j);
        let m = choose|m: nat| m <= j && shortest(g, u, v, m);
        assert(m <= k && shortest(g, u, v, m));
    }
}

/// The distance is the length of the shortest walk, when there is one.
pub proof fn lemma_distance_is_shortest(g: GraphView, u: int, v: int, d: nat)
    requires
        shortest(g, u, v, d),
    ensures
        distance(g, u, v) == d,
{
    assert(connected(g, u, v));
    let m = choose|k: nat| shortest(g, u, v, k);
    assert(shortest(g, u, v, m));
    if m < d {
        assert(!walk(g, u, v, m));
    }
    if d < m {
        assert(!walk(g, u, v, d));
    }
}

/// Between connected vertices the distance is a shortest walk's length;
/// otherwise it is `-1`.
pub proof fn lemma_distance_cases(g: GraphView, u: int, v: int)
    ensures
        connected(g, u, v) ==> distance(g, u, v) >= 0 && shortest(
            g,
            u,
            v,
            distance(g, u, v) as nat,
        ),
        !connected(g, u, v) <==> distance(g, u, v) == -1,
{
    if connected(g, u, v) {
        let k = choose|k: nat| walk(g, u, v, k);
        lemma_shortest_exists(g, u, v, k);
        let m = choose|m: nat| m <= k && shortest(g, u, v, m);
        lemma_distance_is_shortest(g, u, v, m);
    }
}

/// A walk can be entered through one more edge at its start.
pub proof fn lemma_walk_prepend(g: GraphView, x: int, u: int, v: int, k: nat)
    requires
        g.wf(),
        g.adjacent(x, u),
        walk(g, u, v, k),
    ensures
        walk(g, x, v, k + 1),
    decreases k,
{
    if k == 0 {
        assert(walk(g, x, x, 0));
        assert(g.adjacent(x, v));
    } else {
        let w = choose|w: int| walk(g, u, w, (k - 1) as nat) && #[trigger] g.adjacent(w, v);
        lemma_walk_prepend(g, x, u, w, (k - 1) as nat);
        assert(walk(g, x, w, k) && g.adjacent(w, v));
    }
}

/// A walk can be walked backwards.
pub proof fn lemma_walk_reverse(g: GraphView, u: int, v: int, k: nat)
    requires
        g.wf(),
        walk(g, u, v, k),
    ensures
        walk(g, v, u, k),
    decreases k,
{
    if k > 0 {
        let w = choose|w: int| walk(g, u, w, (k - 1) as nat) && #[trigger] g.adjacent(w, v);
        lemma_walk_reverse(g, u, w, (k - 1) as nat);
        lemma_walk_prepend(g, v, w, u, (k - 1) as nat);
    }
}

/// Two walks that meet make one walk.
pub proof fn lemma_walk_concat(g: GraphView, u: int, v: int, w: int, j: nat, k: nat)
    requires
        walk(g, u, v, j),
        walk(g, v, w, k),
    ensures
        walk(g, u, w, j + k),
    decreases k,
{
    if k > 0 {
        let x = choose|x: int| walk(g, v, x, (k - 1) as nat) && #[trigger] g.adjacent(x, w);
        lemma_walk_concat(g, u, v, x, j, (k - 1) as nat);
        assert(walk(g, u, x, (j + k - 1) as nat) && g.adjacent(x, w));
    }
}

/// Every walk stays inside the graph.
pub proof fn lemma_walk_in_range(g: GraphView, u: int, v: int, k: nat)
    requires
        g.wf(),
        walk(g, u, v, k),
    ensures
        0 <= u < g.order,
        0 <= v < g.order,
    decreases k,
{
    if k > 0 {
        let w = choose|w: int| walk(g, u, w, (k - 1) as nat) && #[trigger] g.adjacent(w, v);
        lemma_walk_in_range(g, u, w, (k - 1) as nat);
    }
}

/// Being connected is an equivalence on the vertices: its classes are the
/// components of the graph.
pub proof fn lemma_connected_is_equivalence(g: GraphView)
    requires
        g.wf(),
    ensures
        forall|u: int| 0 <= u < g.order ==> #[trigger] connected(g, u, u),
        forall|u: int, v: int| #[trigger] connected(g, u, v) ==> connected(g, v, u),
        forall|u: int, v: int, w: int|
            #[trigger] connected(g, u, v) && #[trigger] connected(g, v, w) ==> connected(g, u, w),
{
    assert forall|u: int| 0 <= u < g.order implies #[trigger] connected(g, u, u) by {
        assert(walk(g, u, u, 0));
    }
    assert forall|u: int, v: int| #[trigger] connected(g, u, v) implies connected(g, v, u) by {
        let k = choose|k: nat| walk(g, u, v, k);
        lemma_walk_reverse(g, u, v, k);
    }
    assert forall|u: int, v: int, w: int|
        #[trigger] connected(g, u, v) && #[trigger] connected(g, v, w) implies connected(
        g,
        u,
        w,
    ) by {
        let j = choose|j: nat| walk(g, u, v, j);
        let k = choose|k: nat| walk(g, v, w, k);
        lemma_walk_concat(g, u, v, w, j, k);
    }
}

/// A vertex is at distance 0 from itself.
pub proof fn lemma_distance_to_self(g: GraphView, u: int)
    requires
        0 <= u < g.order,
    ensures
        distance(g, u, u) == 0,
{
    assert(shortest(g, u, u, 0));
    lemma_distance_is_shortest(g, u, u, 0);
}

/// The distance from `u` to `v` is the distance from `v` to `u`.
pub proof fn lemma_distance_symmetric(g: GraphView, u: int, v: int)
    requires
        g.wf(),
    ensures
        distance(g, u, v) == distance(g, v, u),
{
    lemma_distance_cases(g, u, v);
    lemma_distance_cases(g, v, u);
    if connected(g, u, v) {
        let d = distance(g, u, v) as nat;
        lemma_walk_reverse(g, u, v, d);
        assert forall|j: nat| j < d implies !walk(g, v, u, j) by {
            if walk(g, v, u, j) {
                lemma_walk_reverse(g, v, u, j);
            }
        }
        lemma_distance_is_shortest(g, v, u, d);
    } else if connected(g, v, u) {
        let k = choose|k: nat| walk(g, v, u, k);
        lemma_walk_reverse(g, v, u, k);
    }
}

/// The distance is `-1` exactly between vertices of different components.
pub proof fn lemma_distance_unreachable(g: GraphView, u: int, v: int)
    ensures
        distance(g, u, v) == -1 <==> !connected(g, u, v),
        distance(g, u, v) >= -1,
{
    lemma_distance_cases(g, u, v);
}

/// The vertices that a search has labelled so far.
spec fn labeled(dist: Seq<i32>) -> Set<int> {
    Set::new(|v: int| 0 <= v < dist.len() && dist[v] >= 0)
}

/// The labels of a search from `src` that has reached `level`: `src` has 0,
/// no label exceeds `level`, and each label is the length of some walk.
spec fn labels_ok(g: GraphView, src: int, dist: Seq<i32>, level: int) -> bool {
    &&& dist.len() == g.order
    &&& 0 <= src < g.order
    &&& dist[src] == 0
    &&& forall|v: int| 0 <= v < g.order ==> -1 <= #[trigger] dist[v] <= level
    &&& forall|v: int| 0 <= v < g.order && #[trigger] dist[v] >= 0 ==> walk(g, src, v, dist[v] as nat)
}

/// Every neighbour of a vertex labelled below `bound` is labelled, at most
/// one above that vertex.
spec fn closed_below(g: GraphView, dist: Seq<i32>, bound: int) -> bool {
    forall|w: int, v: int|
        0 <= w < g.order && 0 <= dist[w] < bound && #[trigger] g.adjacent(w, v) ==> 0 <= dist[v]
            <= dist[w] + 1
}

/// `layer` lists exactly the vertices labelled `level`.
spec fn is_layer(dist: Seq<i32>, layer: Seq<usize>, level: int) -> bool {
    &&& forall|k: int| 0 <= k < layer.len() ==> #[trigger] layer[k] < dist.len() && dist[layer[k] as int] == level
    &&& forall|v: int| 0 <= v < dist.len() && #[trigger] dist[v] == level ==> exists|k: int| 0 <= k < layer.len() && #[trigger] layer[k] == v
}

/// The neighbours of the first `upto` vertices of `layer` are all labelled,
/// none above `level + 1`.
spec fn scanned(g: GraphView, dist: Seq<i32>, layer: Seq<usize>, upto: int, level: int) -> bool {
    forall|k: int, v: int|
        0 <= k < upto && #[trigger] g.adjacent(#[trigger] layer[k] as int, v) ==> 0 <= dist[v] <= level + 1
}

proof fn lemma_labeled_bound(dist: Seq<i32>)
    ensures
        labeled(dist).finite(),
        labeled(dist).len() <= dist.len(),
{
    let range = Set::new(|v: int| 0 <= v < dist.len());
    vstd::set_lib::lemma_int_range(0, dist.len() as int);
    assert(range =~= vstd::set_lib::set_int_range(0, dist.len() as int));
    assert(labeled(dist).subset_of(range));
    vstd::set_lib::lemma_len_subset(labeled(dist), range);
}

proof fn lemma_labeled_grows(dist: Seq<i32>, v: int, d: i32)
    requires
        0 <= v < dist.len(),
        dist[v] < 0,
        d >= 0,
    ensures
        labeled(dist.update(v, d)).len() == labeled(dist).len() + 1,
{
    lemma_labeled_bound(dist);
    assert(labeled(dist.update(v, d)) =~= labeled(dist).insert(v));
}

/// Labelling an unlabelled neighbour `v` of a vertex `u` of the current
/// layer with `level + 1` keeps everything the search relies on.
proof fn lemma_label_step(
    g: GraphView,
    src: int,
    dist: Seq<i32>,
    layer: Seq<usize>,
    next: Seq<usize>,
    upto: int,
    level: int,
    u: int,
    v: usize,
)
    requires
        g.wf(),
        labels_ok(g, src, dist, level + 1),
        closed_below(g, dist, level),
        is_layer(dist, layer, level),
        is_layer(dist, next, level + 1),
        scanned(g, dist, layer, upto, level),
        0 <= upto <= layer.len(),
        0 <= u < g.order,
        dist[u] == level,
        g.adjacent(u, v as int),
        dist[v as int] == -1,
        0 <= level < i32::MAX,
    ensures
        labels_ok(g, src, dist.update(v as int, (level + 1) as i32), level + 1),
        closed_below(g, dist.update(v as int, (level + 1) as i32), level),
        is_layer(dist.update(v as int, (level + 1) as i32), layer, level),
        is_layer(dist.update(v as int, (level + 1) as i32), next.push(v), level + 1),
        scanned(g, dist.update(v as int, (level + 1) as i32), layer, upto, level),
{
    let d2 = dist.update(v as int, (level + 1) as i32);
    let n2 = next.push(v);
    assert(0 <= v < g.order);
    let vi = v as int;
    assert(walk(g, src, vi, (level + 1) as nat)) by {
        assert(walk(g, src, u, level as nat));
        assert(walk(g, src, u, ((level + 1) - 1) as nat) && g.adjacent(u, vi));
    }
    assert(labels_ok(g, src, d2, level + 1));
    assert(closed_below(g, d2, level)) by {
        assert forall|w: int, x: int|
            0 <= w < g.order && 0 <= d2[w] < level && #[trigger] g.adjacent(w, x) implies 0 <= d2[x]
            <= d2[w] + 1 by {
            assert(w != vi);
            assert(0 <= dist[x] <= dist[w] + 1);
        }
    }
    assert(is_layer(d2, layer, level)) by {
        assert forall|k: int| 0 <= k < layer.len() implies #[trigger] layer[k] < d2.len() && d2[layer[k] as int]
            == level by {
            assert(dist[layer[k] as int] == level);
        }
        assert forall|x: int| 0 <= x < d2.len() && #[trigger] d2[x] == level implies exists|k: int|
            0 <= k < layer.len() && #[trigger] layer[k] == x by {
            assert(dist[x] == level);
        }
    }
    assert(is_layer(d2, n2, level + 1)) by {
        assert forall|k: int| 0 <= k < n2.len() implies #[trigger] n2[k] < d2.len() && d2[n2[k] as int] == level
            + 1 by {
            if k < next.len() {
                assert(n2[k] == next[k]);
                assert(dist[next[k] as int] == level + 1);
            }
        }
        assert forall|x: int| 0 <= x < d2.len() && #[trigger] d2[x] == level + 1 implies exists|k: int|
            0 <= k < n2.len() && #[trigger] n2[k] == x by {
            if x == vi {
                assert(n2[next.len() as int] == v);
            } else {
                assert(dist[x] == level + 1);
                let k = choose|k: int| 0 <= k < next.len() && #[trigger] next[k] == x;
                assert(n2[k] == x);
            }
        }
    }
    assert(scanned(g, d2, layer, upto, level)) by {
        assert forall|k: int, x: int|
            0 <= k < upto && #[trigger] g.adjacent(#[trigger] layer[k] as int, x) implies 0 <= d2[x] <= level
            + 1 by {
            assert(0 <= dist[x] <= level + 1);
        }
    }
}

/// Once a layer is scanned to its end, the labels are closed one level up.
proof fn lemma_layer_done(g: GraphView, dist: Seq<i32>, layer: Seq<usize>, level: int)
    requires
        dist.len() == g.order,
        closed_below(g, dist, level),
        is_layer(dist, layer, level),
        scanned(g, dist, layer, layer.len() as int, level),
    ensures
        closed_below(g, dist, level + 1),
{
    assert forall|w: int, v: int|
        0 <= w < g.order && 0 <= dist[w] < level + 1 && #[trigger] g.adjacent(w, v) implies 0 <= dist[v]
        <= dist[w] + 1 by {
        if dist[w] == level {
            let k = choose|k: int| 0 <= k < layer.len() && #[trigger] layer[k] == w;
            assert(g.adjacent(layer[k] as int, v));
        }
    }
}

/// Under closed labels, whatever a walk from `src` reaches is labelled, with
/// no more than the walk's length.
proof fn lemma_walk_is_labeled(g: GraphView, src: int, dist: Seq<i32>, bound: int, v: int, k: nat)
    requires
        g.wf(),
        labels_ok(g, src, dist, bound),
        closed_below(g, dist, bound + 1),
        walk(g, src, v, k),
    ensures
        0 <= v < g.order,
        0 <= dist[v] <= k,
    decreases k,
{
    lemma_walk_in_range(g, src, v, k);
    if k > 0 {
        let w = choose|w: int| walk(g, src, w, (k - 1) as nat) && #[trigger] g.adjacent(w, v);
        lemma_walk_is_labeled(g, src, dist, bound, w, (k - 1) as nat);
    }
}

/// Closed labels are the distances from `src`.
proof fn lemma_labels_are_distances(g: GraphView, src: int, dist: Seq<i32>, bound: int)
    requires
        g.wf(),
        labels_ok(g, src, dist, bound),
        closed_below(g, dist, bound + 1),
    ensures
        forall|v: int| 0 <= v < g.order ==> #[trigger] dist[v] == distance(g, src, v),
{
    assert forall|v: int| 0 <= v < g.order implies #[trigger] dist[v] == distance(g, src, v) by {
        if dist[v] >= 0 {
            let d = dist[v] as nat;
            assert forall|j: nat| j < d implies !walk(g, src, v, j) by {
                if walk(g, src, v, j) {
                    lemma_walk_is_labeled(g, src, dist, bound, v, j);
                }
            }
            lemma_distance_is_shortest(g, src, v, d);
        } else {
            if connected(g, src, v) {
                let k = choose|k: nat| walk(g, src, v, k);
                lemma_walk_is_labeled(g, src, dist, bound, v, k);
            }
        }
    }
}

/// One breadth-first search: the distance from `src` to every vertex.
fn distances_from(g: &Graph, src: usize) -> (dist: Vec<i32>)
    requires
        g.wf(),
        src < g@.order,
    ensures
        dist@.len() == g@.order,
        forall|v: int| 0 <= v < g@.order ==> #[trigger] dist@[v] == distance(g@, src as int, v),
{
    let n = g.vertex_ct();
    let mut dist: Vec<i32> = Vec::new();
    let mut i: usize = 0;
    while i < n
        invariant
            i <= n,
            dist@.len() == i,
            forall|v: int| 0 <= v < i ==> #[trigger] dist@[v] == -1,
        decreases n - i,
    {
        dist.push(-1);
        i += 1;
    }
    let ghost blank = dist@;
    dist[src] = 0;
    proof {
        g.lemma_view_wf();
        assert(dist@ == blank.update(src as int, 0i32));
        lemma_labeled_grows(blank, src as int, 0);
        lemma_labeled_bound(dist@);
    }
    let mut layer: Vec<usize> = Vec::new();
    layer.push(src);
    let mut level: i32 = 0;
    proof {
        assert(walk(g@, src as int, src as int, 0));
        assert(layer@[0] == src);
    }
    while layer.len() > 0
        invariant
            g.wf(),
            g@.wf(),
            n == g@.order,
            n <= MAX_ORDER,
            0 <= level,
            labels_ok(g@, src as int, dist@, level as int),
            closed_below(g@, dist@, level as int),
            is_layer(dist@, layer@, level as int),
            level + (if layer@.len() > 0 { 1int } else { 0int }) <= labeled(dist@).len() <= n,
        decreases n - labeled(dist@).len(), layer@.len(),
    {
        let ghost labeled_before = labeled(dist@).len();
        let mut next: Vec<usize> = Vec::new();
        let mut i: usize = 0;
        while i < layer.len()
            invariant
                g.wf(),
                g@.wf(),
                n == g@.order,
                n <= MAX_ORDER,
                0 <= level < i32::MAX,
                i <= layer@.len(),
                labels_ok(g@, src as int, dist@, level + 1),
                closed_below(g@, dist@, level as int),
                is_layer(dist@, layer@, level as int),
                is_layer(dist@, next@, level + 1),
                scanned(g@, dist@, layer@, i as int, level as int),
                labeled_before + (if next@.len() > 0 { 1int } else { 0int }) <= labeled(dist@).len() <= n,
            decreases layer@.len() - i,
        {
            let u = layer[i];
            assert(dist@[u as int] == level);
            match g.neighbors(u) {
                Ok(row) => {
                    let mut j: usize = 0;
                    while j < row.len()
                        invariant
                            g.wf(),
                            g@.wf(),
                            n == g@.order,
                            n <= MAX_ORDER,
                            0 <= level < i32::MAX,
                            i < layer@.len(),
                            u == layer@[i as int],
                            u < n,
                            dist@[u as int] == level,
                            j <= row@.len(),
                            forall|v: int| row_has(row@, v) <==> g@.adjacent(u as int, v),
                            labels_ok(g@, src as int, dist@, level + 1),
                            closed_below(g@, dist@, level as int),
                            is_layer(dist@, layer@, level as int),
                            is_layer(dist@, next@, level + 1),
                            scanned(g@, dist@, layer@, i as int, level as int),
                            forall|k: int| 0 <= k < j ==> 0 <= dist@[#[trigger] row@[k] as int] <= level + 1,
                            labeled_before + (if next@.len() > 0 { 1int } else { 0int }) <= labeled(dist@).len() <= n,
                        decreases row@.len() - j,
                    {
                        let v = row[j];
                        proof {
                            assert(row_has(row@, v as int));
                            assert(g@.adjacent(u as int, v as int));
                        }
                        let ghost seen = dist@;
                        if dist[v] == -1 {
                            proof {
                                lemma_label_step(
                                    g@,
                                    src as int,
                                    dist@,
                                    layer@,
                                    next@,
                                    i as int,
                                    level as int,
                                    u as int,
                                    v,
                                );
                                lemma_labeled_grows(dist@, v as int, (level + 1) as i32);
                                lemma_labeled_bound(dist@.update(v as int, (level + 1) as i32));
                            }
                            dist[v] = level + 1;
                            next.push(v);
                        }
                        proof {
                            assert forall|k: int| 0 <= k < j + 1 implies 0 <= dist@[#[trigger] row@[k] as int]
                                <= level + 1 by {
                                assert(row_has(row@, row@[k] as int));
                                assert(g@.adjacent(u as int, row@[k] as int));
                                if k < j {
                                    assert(0 <= seen[row@[k] as int] <= level + 1);
                                } else {
                                    assert(-1 <= seen[v as int] <= level + 1);
                                }
                            }
                        }
                        j += 1;
                    }
                    proof {
                        assert forall|k: int, v: int|
                            0 <= k < i + 1 && #[trigger] g@.adjacent(
                                #[trigger] layer@[k] as int,
                                v,
                            ) implies 0 <= dist@[v] <= level + 1 by {
                            if k == i {
                                assert(row_has(row@, v));
                                let jj = choose|jj: int| 0 <= jj < row@.len() && #[trigger] row@[jj] == v;
                                assert(0 <= dist@[row@[jj] as int] <= level + 1);
                            }
                        }
                    }
                },
                Err(_) => {},
            }
            i += 1;
        }
        proof {
            lemma_layer_done(g@, dist@, layer@, level as int);
        }
        layer = next;
        level = level + 1;
    }
    proof {
        assert(closed_below(g@, dist@, level + 1)) by {
            assert forall|w: int, v: int|
                0 <= w < g@.order && 0 <= dist@[w] < level + 1 && #[trigger] g@.adjacent(
                    w,
                    v,
                ) implies 0 <= dist@[v] <= dist@[w] + 1 by {
                assert(dist@[w] != level);
            }
        }
        lemma_labels_are_distances(g@, src as int, dist@, level as int);
    }
    dist
}

/// The table of hop distances between all pairs of vertices of one graph.
pub struct DistanceMatrix {
    rows: Vec<Vec<i32>>,
}

impl View for DistanceMatrix {
    type V = Seq<Seq<int>>;

    closed spec fn view(&self) -> Seq<Seq<int>> {
        Seq::new(
            self.rows@.len(),
            |u: int| Seq::new(self.rows@[u]@.len(), |v: int| self.rows@[u]@[v] as int),
        )
    }
}

impl DistanceMatrix {
    /// The table is square and holds, for every pair of vertices of `g`,
    /// their hop distance in `g`.
    pub open spec fn describes(&self, g: GraphView) -> bool {
        &&& self@.len() == g.order
        &&& forall|u: int| 0 <= u < g.order ==> (#[trigger] self@[u]).len() == g.order
        &&& forall|u: int, v: int|
            0 <= u < g.order && 0 <= v < g.order ==> #[trigger] self@[u][v] == distance(g, u, v)
    }

    /// The number of vertices the table covers.
    pub fn order(&self) -> (n: usize)
        ensures
            n == self@.len(),
    {
        self.rows.len()
    }

    /// The entry for `(u, v)`: the hop distance, or `-1` across components.
    /// `None` when `u` or `v` is outside the table.
    pub fn get(&self, u: usize, v: usize) -> (d: Option<i32>)
        ensures
            d is Some <==> u < self@.len() && v < self@[u as int].len(),
            d matches Some(x) ==> x == self@[u as int][v as int],
    {
        if u < self.rows.len() {
            let row = &self.rows[u];
            if v < row.len() {
                return Some(row[v]);
            }
        }
        None
    }

    /// What the table says of a well-formed graph it describes: zero on the
    /// diagonal, the same in both directions, and `-1` exactly between
    /// vertices of different components.
    pub proof fn lemma_table_laws(&self, g: GraphView)
        requires
            g.wf(),
            self.describes(g),
        ensures
            forall|u: int| 0 <= u < g.order ==> (#[trigger] self@[u])[u] == 0,
            forall|u: int, v: int|
                0 <= u < g.order && 0 <= v < g.order ==> #[trigger] self@[u][v] == self@[v][u],
            forall|u: int, v: int|
                0 <= u < g.order && 0 <= v < g.order ==> (#[trigger] self@[u][v] == -1
                    <==> !connected(g, u, v)),
            forall|u: int, v: int|
                0 <= u < g.order && 0 <= v < g.order ==> #[trigger] self@[u][v] >= -1,
    {
        assert forall|u: int| 0 <= u < g.order implies (#[trigger] self@[u])[u] == 0 by {
            lemma_distance_to_self(g, u);
            assert(self@[u][u] == distance(g, u, u));
        }
        assert forall|u: int, v: int| 0 <= u < g.order && 0 <= v < g.order implies #[trigger] self@[u][v]
            == self@[v][u] by {
            lemma_distance_symmetric(g, u, v);
            assert(self@[v][u] == distance(g, v, u));
        }
        assert forall|u: int, v: int| 0 <= u < g.order && 0 <= v < g.order implies (
        #[trigger] self@[u][v] == -1 <==> !connected(g, u, v)) && self@[u][v] >= -1 by {
            lemma_distance_unreachable(g, u, v);
        }
    }
}

impl Graph {
    /// The hop distance between every two vertices, by one breadth-first
    /// search from each vertex.
    pub fn unweighted_all_pairs_distance(&self) -> (m: DistanceMatrix)
        requires
            self.wf(),
        ensures
            m.describes(self@),
    {
        let n = self.vertex_ct();
        let mut rows: Vec<Vec<i32>> = Vec::new();
        let mut u: usize = 0;
        while u < n
            invariant
                self.wf(),
                n == self@.order,
                u <= n,
                rows@.len() == u,
                forall|a: int| 0 <= a < u ==> (#[trigger] rows@[a])@.len() == n,
                forall|a: int, b: int|
                    0 <= a < u && 0 <= b < n ==> #[trigger] rows@[a]@[b] == distance(self@, a, b),
            decreases n - u,
        {
            let row = distances_from(self, u);
            rows.push(row);
            u += 1;
        }
        let m = DistanceMatrix { rows };
        proof {
            assert forall|a: int| 0 <= a < self@.order implies (#[trigger] m@[a]).len()
                == self@.order by {
                assert(m.rows@[a]@.len() == n);
            }
            assert forall|a: int, b: int|
                0 <= a < self@.order && 0 <= b < self@.order implies #[trigger] m@[a][b]
                == distance(self@, a, b) by {
                assert(m.rows@[a]@[b] == distance(self@, a, b));
            }
        }
        m
    }
}

} // verus!
