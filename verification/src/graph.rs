//! Undirected simple graphs on the vertex range `0..order`.

use vstd::prelude::*;

verus! {

/// The largest number of vertices a graph may hold. Hop distances are stored
/// as `i32`, so every distance must stay below `i32::MAX`.
pub const MAX_ORDER: usize = 0x7fff_ffff;

/// Why a graph operation was refused.
#[derive(Clone, Copy, Debug, PartialEq, Eq, Structural)]
pub enum GraphError {
    /// A vertex id was not below the vertex count.
    InvalidIndex,
    /// Both endpoints of an edge were the same vertex.
    SelfLoop,
    /// A vertex was to be removed from a graph without vertices.
    Empty,
}

/// The vertex id that `a` had before vertex `id` was removed and every
/// larger id moved down by one.
pub open spec fn lift(id: int, a: int) -> int {
    if a >= id {
        a + 1
    } else {
        a
    }
}

/// The vertex id that `a` has after vertex `id` is removed. It is meant for
/// `a != id`.
pub open spec fn settle(id: int, a: int) -> int {
    if a > id {
        a - 1
    } else {
        a
    }
}

/// A graph as a mathematical value: the vertices are `0..order`, and `edges`
/// holds both orientations of every edge.
pub struct GraphView {
    pub order: nat,
    pub edges: Set<(int, int)>,
}

impl GraphView {
    /// Every edge joins two distinct vertices of the graph and is present in
    /// both orientations.
    pub open spec fn wf(self) -> bool {
        forall|u: int, v: int| #[trigger]
            self.edges.contains((u, v)) ==> {
                &&& 0 <= u < self.order
                &&& 0 <= v < self.order
                &&& u != v
                &&& self.edges.contains((v, u))
            }
    }

    pub open spec fn adjacent(self, u: int, v: int) -> bool {
        self.edges.contains((u, v))
    }

    /// The graph without vertices.
    pub open spec fn empty() -> GraphView {
        GraphView { order: 0, edges: Set::empty() }
    }

    /// One more vertex, with id `order`, and no new edge.
    pub open spec fn add_vertex(self) -> GraphView {
        GraphView { order: self.order + 1, edges: self.edges }
    }

    /// What adding the edge `{u, v}` answers: an endpoint outside the graph
    /// is an invalid index, equal endpoints are a self-loop.
    pub open spec fn add_edge_outcome(self, u: int, v: int) -> Result<(), GraphError> {
        if !(0 <= u < self.order && 0 <= v < self.order) {
            Err(GraphError::InvalidIndex)
        } else if u == v {
            Err(GraphError::SelfLoop)
        } else {
            Ok(())
        }
    }

    /// The edge `{u, v}` added.
    pub open spec fn add_edge(self, u: int, v: int) -> GraphView {
        GraphView { order: self.order, edges: self.edges.insert((u, v)).insert((v, u)) }
    }

    /// What removing vertex `id` answers: nothing can leave a graph without
    /// vertices, and `id` must be one of the vertices.
    pub open spec fn remove_vertex_outcome(self, id: int) -> Result<(), GraphError> {
        if self.order == 0 {
            Err(GraphError::Empty)
        } else if !(0 <= id < self.order) {
            Err(GraphError::InvalidIndex)
        } else {
            Ok(())
        }
    }

    /// Vertex `id` and its edges removed, larger ids moved down by one.
    pub open spec fn remove_vertex(self, id: int) -> GraphView {
        GraphView {
            order: (self.order - 1) as nat,
            edges: Set::new(
                |e: (int, int)|
                    0 <= e.0 < self.order - 1 && 0 <= e.1 < self.order - 1 && self.edges.contains(
                        (lift(id, e.0), lift(id, e.1)),
                    ),
            ),
        }
    }

    /// The vertex range cut or extended to `0..n`; edges that touch a vertex
    /// outside the new range are dropped.
    pub open spec fn resize(self, n: nat) -> GraphView {
        GraphView {
            order: n,
            edges: Set::new(|e: (int, int)| e.0 < n && e.1 < n && self.edges.contains(e)),
        }
    }
}

impl GraphView {
    /// A new vertex leaves the graph well-formed.
    pub proof fn lemma_add_vertex_wf(self)
        requires
            self.wf(),
        ensures
            self.add_vertex().wf(),
    {
    }

    /// An edge between two different vertices of the graph leaves it
    /// well-formed.
    pub proof fn lemma_add_edge_wf(self, u: int, v: int)
        requires
            self.wf(),
            0 <= u < self.order,
            0 <= v < self.order,
            u != v,
        ensures
            self.add_edge(u, v).wf(),
    {
    }

    /// Removing a vertex leaves the graph well-formed.
    pub proof fn lemma_remove_vertex_wf(self, id: int)
        requires
            self.wf(),
            0 <= id < self.order,
        ensures
            self.remove_vertex(id).wf(),
    {
        let after = self.remove_vertex(id);
        assert forall|u: int, v: int| #[trigger] after.edges.contains((u, v)) implies {
            &&& 0 <= u < after.order
            &&& 0 <= v < after.order
            &&& u != v
            &&& after.edges.contains((v, u))
        } by {
            assert(self.edges.contains((lift(id, u), lift(id, v))));
        }
    }

    /// Cutting or extending the vertex range leaves the graph well-formed.
    pub proof fn lemma_resize_wf(self, n: nat)
        requires
            self.wf(),
        ensures
            self.resize(n).wf(),
    {
    }
}

/// `v` occurs in the adjacency row `row`.
pub open spec fn row_has(row: Seq<usize>, v: int) -> bool {
    exists|j: int| 0 <= j < row.len() && #[trigger] row[j] == v
}

/// `to` is the row `from` after vertex `id` left the graph: `id` itself is
/// dropped, larger entries are one less, and nothing occurs twice.
spec fn moved_row(from: Seq<usize>, to: Seq<usize>, id: int) -> bool {
    &&& to.no_duplicates()
    &&& forall|x: int| row_has(to, x) <==> row_has(from, lift(id, x))
}

/// Copies `row` without `id`, taking one off every entry above `id`.
fn shifted_row(row: &Vec<usize>, id: usize) -> (out: Vec<usize>)
    requires
        row@.no_duplicates(),
    ensures
        moved_row(row@, out@, id as int),
{
    let mut out: Vec<usize> = Vec::new();
    let mut j: usize = 0;
    while j < row.len()
        invariant
            j <= row.len(),
            row@.no_duplicates(),
            out@.no_duplicates(),
            forall|k: int|
                0 <= k < out@.len() ==> exists|i: int|
                    0 <= i < j && #[trigger] row@[i] == lift(id as int, #[trigger] out@[k] as int),
            forall|i: int|
                0 <= i < j && row@[i] != id ==> exists|k: int|
                    0 <= k < out@.len() && lift(id as int, #[trigger] out@[k] as int)
                        == #[trigger] row@[i],
        decreases row.len() - j,
    {
        let x = row[j];
        if x != id {
            let y: usize = if x > id {
                x - 1
            } else {
                x
            };
            let ghost prev = out@;
            proof {
                assert(lift(id as int, y as int) == x);
                if exists|k: int| 0 <= k < prev.len() && prev[k] == y {
                    let k = choose|k: int| 0 <= k < prev.len() && prev[k] == y;
                    let i = choose|i: int|
                        0 <= i < j && #[trigger] row@[i] == lift(id as int, prev[k] as int);
                    assert(row@[i] == row@[j as int]);
                }
            }
            out.push(y);
            proof {
                assert forall|k: int| 0 <= k < out@.len() implies exists|i: int|
                    0 <= i < j + 1 && #[trigger] row@[i] == lift(
                        id as int,
                        #[trigger] out@[k] as int,
                    ) by {
                    if k < prev.len() {
                        assert(out@[k] == prev[k]);
                        let i = choose|i: int|
                            0 <= i < j && #[trigger] row@[i] == lift(id as int, prev[k] as int);
                        assert(row@[i] == lift(id as int, out@[k] as int));
                    } else {
                        assert(row@[j as int] == lift(id as int, out@[k] as int));
                    }
                }
                assert forall|i: int| 0 <= i < j + 1 && row@[i] != id implies exists|k: int|
                    0 <= k < out@.len() && lift(id as int, #[trigger] out@[k] as int)
                        == #[trigger] row@[i] by {
                    if i < j {
                        let k = choose|k: int|
                            0 <= k < prev.len() && lift(id as int, #[trigger] prev[k] as int)
                                == row@[i];
                        assert(out@[k] == prev[k]);
                    } else {
                        assert(out@[prev.len() as int] == y);
                    }
                }
            }
        }
        j += 1;
    }
    proof {
        assert forall|x: int| row_has(out@, x) <==> row_has(row@, lift(id as int, x)) by {
            if row_has(out@, x) {
                let k = choose|k: int| 0 <= k < out@.len() && #[trigger] out@[k] == x;
                let i = choose|i: int|
                    0 <= i < j && #[trigger] row@[i] == lift(id as int, out@[k] as int);
                assert(row@[i] == lift(id as int, x));
            }
            if row_has(row@, lift(id as int, x)) {
                let i = choose|i: int| 0 <= i < row@.len() && #[trigger] row@[i] == lift(id as int, x);
                let k = choose|k: int|
                    0 <= k < out@.len() && lift(id as int, #[trigger] out@[k] as int) == row@[i];
                assert(out@[k] == x);
            }
        }
    }
    out
}

/// An undirected simple graph, stored as one adjacency row per vertex.
pub struct Graph {
    adj: Vec<Vec<usize>>,
}

impl View for Graph {
    type V = GraphView;

    closed spec fn view(&self) -> GraphView {
        GraphView {
            order: self.adj@.len(),
            edges: Set::new(
                |e: (int, int)| 0 <= e.0 < self.adj@.len() && row_has(self.adj@[e.0]@, e.1),
            ),
        }
    }
}

impl Graph {
    /// The representation invariant: at most `MAX_ORDER` rows; every row
    /// lists vertices of the graph other than its own, none of them twice;
    /// and `v` is in the row of `u` exactly when `u` is in the row of `v`.
    pub closed spec fn wf(&self) -> bool {
        &&& self.adj@.len() <= MAX_ORDER
        &&& forall|u: int, j: int|
            #![trigger self.adj@[u]@[j]]
            0 <= u < self.adj@.len() && 0 <= j < self.adj@[u]@.len() ==> {
                &&& self.adj@[u]@[j] < self.adj@.len()
                &&& self.adj@[u]@[j] != u
                &&& row_has(self.adj@[self.adj@[u]@[j] as int]@, u)
            }
        &&& forall|u: int| 0 <= u < self.adj@.len() ==> (#[trigger] self.adj@[u])@.no_duplicates()
    }

    /// A well-formed graph has a well-formed model and respects the limit.
    pub proof fn lemma_view_wf(&self)
        requires
            self.wf(),
        ensures
            self@.wf(),
            self@.order <= MAX_ORDER,
    {
        assert forall|u: int, v: int| #[trigger] self@.edges.contains((u, v)) implies {
            &&& 0 <= u < self@.order
            &&& 0 <= v < self@.order
            &&& u != v
            &&& self@.edges.contains((v, u))
        } by {
            let j = choose|j: int| 0 <= j < self.adj@[u]@.len() && #[trigger] self.adj@[u]@[j] == v;
            assert(self.adj@[u]@[j] < self.adj@.len());
        }
    }

    /// The graph without vertices.
    pub fn new() -> (g: Graph)
        ensures
            g.wf(),
            g@ == GraphView::empty(),
    {
        let g = Graph { adj: Vec::new() };
        assert(g@.edges =~= Set::empty());
        g
    }

    /// The number of vertices.
    pub fn vertex_ct(&self) -> (n: usize)
        ensures
            n == self@.order,
    {
        self.adj.len()
    }

    /// Appends a vertex without edges and returns its id, the old vertex
    /// count.
    pub fn add_vertex(&mut self) -> (id: usize)
        requires
            old(self).wf(),
            old(self)@.order < MAX_ORDER,
        ensures
            final(self).wf(),
            final(self)@ == old(self)@.add_vertex(),
            id == old(self)@.order,
    {
        let id = self.adj.len();
        self.adj.push(Vec::new());
        proof {
            let before = old(self).adj@;
            let after = self.adj@;
            assert forall|u: int| 0 <= u < before.len() implies after[u] == before[u] by {}
            assert(after[id as int]@.len() == 0);
            assert(self@.edges =~= old(self)@.edges) by {
                assert forall|e: (int, int)| self@.edges.contains(e) == old(self)@.edges.contains(
                    e,
                ) by {
                    if 0 <= e.0 < before.len() {
                        assert(after[e.0] == before[e.0]);
                    }
                }
            }
        }
        id
    }

    /// Whether `{u, v}` is an edge. Ids outside the graph have no edges.
    pub fn adjacent(&self, u: usize, v: usize) -> (b: bool)
        ensures
            b == self@.adjacent(u as int, v as int),
    {
        if u >= self.adj.len() {
            return false;
        }
        let row = &self.adj[u];
        let mut j: usize = 0;
        while j < row.len()
            invariant
                j <= row.len(),
                row == self.adj@[u as int],
                u < self.adj@.len(),
                forall|i: int| 0 <= i < j ==> row@[i] != v,
            decreases row.len() - j,
        {
            if row[j] == v {
                return true;
            }
            j += 1;
        }
        false
    }

    /// Adds the edge `{u, v}`; adding an edge that is present changes
    /// nothing. An endpoint outside the graph or `u == v` is refused and
    /// leaves the graph as it was.
    pub fn add_edge(&mut self, u: usize, v: usize) -> (r: Result<(), GraphError>)
        requires
            old(self).wf(),
        ensures
            final(self).wf(),
            r == old(self)@.add_edge_outcome(u as int, v as int),
            r is Ok ==> final(self)@ == old(self)@.add_edge(u as int, v as int),
            r is Err ==> final(self)@ == old(self)@,
    {
        if u >= self.adj.len() || v >= self.adj.len() {
            return Err(GraphError::InvalidIndex);
        }
        if u == v {
            return Err(GraphError::SelfLoop);
        }
        if self.adjacent(u, v) {
            proof {
                self.lemma_view_wf();
                assert(self@.edges =~= self@.edges.insert((u as int, v as int)).insert(
                    (v as int, u as int),
                ));
            }
            return Ok(());
        }
        self.adj[u].push(v);
        self.adj[v].push(u);
        proof {
            old(self).lemma_view_wf();
            let before = old(self).adj@;
            let after = self.adj@;
            assert(after[u as int]@ == before[u as int]@.push(v));
            assert(after[v as int]@ == before[v as int]@.push(u));
            assert forall|w: int| 0 <= w < before.len() && w != u && w != v implies after[w]
                == before[w] by {}
            // Every old entry is still in its row, at the same place.
            assert forall|w: int, x: int| 0 <= w < before.len() && row_has(before[w]@, x) implies row_has(
                after[w]@,
                x,
            ) by {
                let j = choose|j: int| 0 <= j < before[w]@.len() && #[trigger] before[w]@[j] == x;
                assert(after[w]@[j] == x);
            }
            assert(after[u as int]@[before[u as int]@.len() as int] == v);
            assert(after[v as int]@[before[v as int]@.len() as int] == u);
            assert(row_has(after[u as int]@, v as int));
            assert(row_has(after[v as int]@, u as int));
            // Every new entry is an old one, or one of the two just pushed.
            assert forall|w: int, j: int|
                0 <= w < after.len() && 0 <= j < after[w]@.len() implies (j < before[w]@.len()
                && after[w]@[j] == before[w]@[j]) || (w == u && after[w]@[j] == v) || (w == v
                && after[w]@[j] == u) by {}
            assert forall|w: int, j: int|
                #![trigger after[w]@[j]]
                0 <= w < after.len() && 0 <= j < after[w]@.len() implies {
                &&& after[w]@[j] < after.len()
                &&& after[w]@[j] != w
                &&& row_has(after[after[w]@[j] as int]@, w)
            } by {
                if j < before[w]@.len() {
                    let x = before[w]@[j];
                    assert(row_has(before[x as int]@, w));
                }
            }
            assert(!row_has(before[u as int]@, v as int));
            assert(!row_has(before[v as int]@, u as int)) by {
                if row_has(before[v as int]@, u as int) {
                    let j = choose|j: int|
                        0 <= j < before[v as int]@.len() && #[trigger] before[v as int]@[j] == u;
                    assert(row_has(before[before[v as int]@[j] as int]@, v as int));
                }
            }
            assert forall|w: int| 0 <= w < after.len() implies (#[trigger] after[w])@.no_duplicates() by {
                assert(before[w]@.no_duplicates());
            }
            assert(self@.edges =~= old(self)@.add_edge(u as int, v as int).edges) by {
                assert forall|e: (int, int)|
                    self@.edges.contains(e) == old(self)@.add_edge(
                        u as int,
                        v as int,
                    ).edges.contains(e) by {
                    if 0 <= e.0 < after.len() {
                        if row_has(after[e.0]@, e.1) {
                            let j = choose|j: int|
                                0 <= j < after[e.0]@.len() && #[trigger] after[e.0]@[j] == e.1;
                            if j < before[e.0]@.len() {
                                assert(before[e.0]@[j] == e.1);
                            }
                        }
                    }
                }
            }
        }
        Ok(())
    }

    /// The neighbours of `id`, each once. An id outside the graph is refused.
    pub fn neighbors(&self, id: usize) -> (r: Result<&Vec<usize>, GraphError>)
        requires
            self.wf(),
        ensures
            id < self@.order ==> r is Ok,
            id >= self@.order ==> r == Err::<&Vec<usize>, GraphError>(GraphError::InvalidIndex),
            r matches Ok(row) ==> {
                &&& row@.no_duplicates()
                &&& forall|v: int| row_has(row@, v) <==> self@.adjacent(id as int, v)
            },
    {
        if id >= self.adj.len() {
            return Err(GraphError::InvalidIndex);
        }
        Ok(&self.adj[id])
    }

    /// Removes vertex `id` together with its edges; every larger id moves
    /// down by one. Refused, with the graph unchanged, when the graph has
    /// no vertices or `id` is not one of them.
    pub fn remove_vertex(&mut self, id: usize) -> (r: Result<(), GraphError>)
        requires
            old(self).wf(),
        ensures
            final(self).wf(),
            r == old(self)@.remove_vertex_outcome(id as int),
            r is Ok ==> final(self)@ == old(self)@.remove_vertex(id as int),
            r is Err ==> final(self)@ == old(self)@,
    {
        let n = self.adj.len();
        if n == 0 {
            return Err(GraphError::Empty);
        }
        if id >= n {
            return Err(GraphError::InvalidIndex);
        }
        let mut rows: Vec<Vec<usize>> = Vec::new();
        let mut u: usize = 0;
        while u < n
            invariant
                u <= n,
                id < n,
                n == self.adj@.len(),
                self.wf(),
                rows@.len() == (if u <= id { u as int } else { u - 1 }),
                forall|r: int|
                    0 <= r < rows@.len() ==> moved_row(
                        self.adj@[lift(id as int, r)]@,
                        (#[trigger] rows@[r])@,
                        id as int,
                    ),
            decreases n - u,
        {
            if u != id {
                let row = shifted_row(&self.adj[u], id);
                assert(lift(id as int, rows@.len() as int) == u);
                rows.push(row);
            }
            u += 1;
        }
        proof {
            let before = self.adj@;
            let after = rows@;
            assert forall|r: int, k: int|
                #![trigger after[r]@[k]]
                0 <= r < after.len() && 0 <= k < after[r]@.len() implies {
                &&& after[r]@[k] < after.len()
                &&& after[r]@[k] != r
                &&& row_has(after[after[r]@[k] as int]@, r)
            } by {
                let y = after[r]@[k] as int;
                assert(moved_row(before[lift(id as int, r)]@, after[r]@, id as int));
                assert(row_has(after[r]@, y));
                let src = before[lift(id as int, r)]@;
                let j = choose|j: int| 0 <= j < src.len() && #[trigger] src[j] == lift(id as int, y);
                assert(row_has(before[src[j] as int]@, lift(id as int, r)));
                assert(moved_row(before[lift(id as int, y)]@, after[y]@, id as int));
            }
        }
        let ghost before = self@;
        self.adj = rows;
        proof {
            assert(self@.edges =~= before.remove_vertex(id as int).edges) by {
                assert forall|e: (int, int)|
                    self@.edges.contains(e) == before.remove_vertex(id as int).edges.contains(
                        e,
                    ) by {
                    if 0 <= e.0 < self.adj@.len() {
                        assert(moved_row(
                            old(self).adj@[lift(id as int, e.0)]@,
                            self.adj@[e.0]@,
                            id as int,
                        ));
                        if row_has(self.adj@[e.0]@, e.1) {
                            let k = choose|k: int|
                                0 <= k < self.adj@[e.0]@.len() && #[trigger] self.adj@[e.0]@[k]
                                    == e.1;
                            assert(self.adj@[e.0]@[k] < self.adj@.len());
                        }
                    }
                }
            }
        }
        Ok(())
    }

    /// Cuts or extends the vertex range to `0..new_count`. Vertices leave and
    /// arrive at the high end; those that leave take their edges with them.
    pub fn resize(&mut self, new_count: usize)
        requires
            old(self).wf(),
            new_count <= MAX_ORDER,
        ensures
            final(self).wf(),
            final(self)@ == old(self)@.resize(new_count as nat),
    {
        proof {
            self.lemma_view_wf();
            assert(self@.edges =~= self@.resize(self@.order).edges);
        }
        if self.adj.len() > new_count {
            while self.adj.len() > new_count
                invariant
                    self.wf(),
                    old(self)@.wf(),
                    new_count <= self@.order <= old(self)@.order,
                    self@ == old(self)@.resize(self@.order),
                decreases self@.order,
            {
                let last = self.adj.len() - 1;
                let _ = self.remove_vertex(last);
                proof {
                    assert(self@.edges =~= old(self)@.resize(self@.order).edges);
                }
            }
        } else {
            while self.adj.len() < new_count
                invariant
                    self.wf(),
                    old(self)@.wf(),
                    new_count <= MAX_ORDER,
                    old(self)@.order <= self@.order <= new_count,
                    self@ == old(self)@.resize(self@.order),
                decreases new_count - self@.order,
            {
                self.add_vertex();
                proof {
                    assert(self@.edges =~= old(self)@.resize(self@.order).edges);
                }
            }
        }
    }

    /// Every edge once, each as `(u, v)` with `u < v`.
    pub fn edges(&self) -> (out: Vec<(usize, usize)>)
        requires
            self.wf(),
        ensures
            out@.no_duplicates(),
            forall|k: int|
                0 <= k < out@.len() ==> (#[trigger] out@[k]).0 < out@[k].1 && self@.adjacent(
                    out@[k].0 as int,
                    out@[k].1 as int,
                ),
            forall|u: int, v: int|
                u < v && self@.adjacent(u, v) ==> exists|k: int|
                    0 <= k < out@.len() && (#[trigger] out@[k]).0 == u && out@[k].1 == v,
    {
        let mut out: Vec<(usize, usize)> = Vec::new();
        let n = self.adj.len();
        let mut u: usize = 0;
        while u < n
            invariant
                u <= n,
                n == self.adj@.len(),
                self.wf(),
                out@.no_duplicates(),
                forall|k: int|
                    0 <= k < out@.len() ==> (#[trigger] out@[k]).0 < u && out@[k].0 < out@[k].1
                        && row_has(self.adj@[out@[k].0 as int]@, out@[k].1 as int),
                forall|a: int, j: int|
                    0 <= a < u && 0 <= j < self.adj@[a]@.len() && a < #[trigger] self.adj@[a]@[j]
                        ==> exists|k: int|
                        0 <= k < out@.len() && (#[trigger] out@[k]).0 == a && out@[k].1
                            == self.adj@[a]@[j],
            decreases n - u,
        {
            let row = &self.adj[u];
            let mut j: usize = 0;
            while j < row.len()
                invariant
                    j <= row.len(),
                    u < n,
                    n == self.adj@.len(),
                    row == self.adj@[u as int],
                    self.wf(),
                    out@.no_duplicates(),
                    forall|k: int|
                        0 <= k < out@.len() ==> (#[trigger] out@[k]).0 <= u && out@[k].0
                            < out@[k].1 && row_has(
                            self.adj@[out@[k].0 as int]@,
                            out@[k].1 as int,
                        ),
                    forall|k: int|
                        0 <= k < out@.len() && (#[trigger] out@[k]).0 == u ==> exists|i: int|
                            0 <= i < j && #[trigger] row@[i] == out@[k].1,
                    forall|a: int, i: int|
                        0 <= a < u && 0 <= i < self.adj@[a]@.len() && a
                            < #[trigger] self.adj@[a]@[i] ==> exists|k: int|
                            0 <= k < out@.len() && (#[trigger] out@[k]).0 == a && out@[k].1
                                == self.adj@[a]@[i],
                    forall|i: int|
                        0 <= i < j && u < #[trigger] row@[i] ==> exists|k: int|
                            0 <= k < out@.len() && (#[trigger] out@[k]).0 == u && out@[k].1
                                == row@[i],
                decreases row.len() - j,
            {
                let v = row[j];
                if u < v {
                    let ghost prev = out@;
                    proof {
                        if exists|k: int| 0 <= k < prev.len() && prev[k] == (u, v) {
                            let k = choose|k: int| 0 <= k < prev.len() && prev[k] == (u, v);
                            let i = choose|i: int| 0 <= i < j && #[trigger] row@[i] == prev[k].1;
                            assert(row@[i] == row@[j as int]);
                        }
                    }
                    out.push((u, v));
                    proof {
                        assert forall|k: int| 0 <= k < prev.len() implies out@[k] == prev[k] by {}
                        assert(out@[prev.len() as int] == (u, v));
                        assert forall|k: int|
                            0 <= k < out@.len() && (#[trigger] out@[k]).0 == u implies exists|
                            i: int,
                        | 0 <= i < j + 1 && #[trigger] row@[i] == out@[k].1 by {
                            if k < prev.len() {
                                let i = choose|i: int|
                                    0 <= i < j && #[trigger] row@[i] == prev[k].1;
                                assert(row@[i] == out@[k].1);
                            } else {
                                assert(row@[j as int] == out@[k].1);
                            }
                        }
                        assert forall|a: int, i: int|
                            0 <= a < u && 0 <= i < self.adj@[a]@.len() && a
                                < #[trigger] self.adj@[a]@[i] implies exists|k: int|
                            0 <= k < out@.len() && (#[trigger] out@[k]).0 == a && out@[k].1
                                == self.adj@[a]@[i] by {
                            let k = choose|k: int|
                                0 <= k < prev.len() && (#[trigger] prev[k]).0 == a && prev[k].1
                                    == self.adj@[a]@[i];
                            assert(out@[k] == prev[k]);
                        }
                        assert forall|i: int| 0 <= i < j + 1 && u < #[trigger] row@[i] implies exists|
                            k: int,
                        |
                            0 <= k < out@.len() && (#[trigger] out@[k]).0 == u && out@[k].1
                                == row@[i] by {
                            if i < j {
                                let k = choose|k: int|
                                    0 <= k < prev.len() && (#[trigger] prev[k]).0 == u
                                        && prev[k].1 == row@[i];
                                assert(out@[k] == prev[k]);
                            }
                        }
                    }
                }
                j += 1;
            }
            u += 1;
        }
        proof {
            assert forall|a: int, b: int| a < b && self@.adjacent(a, b) implies exists|k: int|
                0 <= k < out@.len() && (#[trigger] out@[k]).0 == a && out@[k].1 == b by {
                let j = choose|j: int| 0 <= j < self.adj@[a]@.len() && #[trigger] self.adj@[a]@[j] == b;
                assert(a < self.adj@[a]@[j]);
            }
        }
        out
    }
}

} // verus!
