//! The graph that the structure stands for, and what its operations do to
//! it.

use vstd::prelude::*;

verus! {

/// The graph that the structure stands for: its live vertex keys and its
/// edges, each a pair of source and target key.
#[verifier::ext_equal]
pub struct GraphView {
    pub vertices: Set<usize>,
    pub edges: Set<(usize, usize)>,
}

/// An operation that changes the graph.
pub enum GraphOp {
    AddVertex(usize),
    RemoveVertex(usize),
    AddEdge(usize, usize),
    RemoveEdge(usize, usize),
}

impl GraphView {
    /// The graph without vertices.
    pub open spec fn empty() -> GraphView {
        GraphView { vertices: Set::empty(), edges: Set::empty() }
    }

    /// Every edge joins two vertices of the graph.
    pub open spec fn wf(self) -> bool {
        forall|p: (usize, usize)| #[trigger]
            self.edges.contains(p) ==> self.vertices.contains(p.0) && self.vertices.contains(p.1)
    }

    /// Whether the graph has the edge from `source` to `target`.
    pub open spec fn has_edge(self, source: usize, target: usize) -> bool {
        self.edges.contains((source, target))
    }

    /// The graph with the vertex `key`.
    pub open spec fn add_vertex(self, key: usize) -> GraphView {
        GraphView { vertices: self.vertices.insert(key), edges: self.edges }
    }

    /// The graph without the vertex `key` and without the edges that leave
    /// or reach it.
    pub open spec fn remove_vertex(self, key: usize) -> GraphView {
        GraphView {
            vertices: self.vertices.remove(key),
            edges: Set::new(|p: (usize, usize)| self.edges.contains(p) && p.0 != key && p.1 != key),
        }
    }

    /// The graph with the edge from `source` to `target`, if both are
    /// vertices; the same graph if one of them is not.
    pub open spec fn add_edge(self, source: usize, target: usize) -> GraphView {
        if self.vertices.contains(source) && self.vertices.contains(target) {
            GraphView { vertices: self.vertices, edges: self.edges.insert((source, target)) }
        } else {
            self
        }
    }

    /// The graph without the edge from `source` to `target`.
    pub open spec fn remove_edge(self, source: usize, target: usize) -> GraphView {
        GraphView { vertices: self.vertices, edges: self.edges.remove((source, target)) }
    }

    /// The graph after `op`.
    pub open spec fn apply(self, op: GraphOp) -> GraphView {
        match op {
            GraphOp::AddVertex(key) => self.add_vertex(key),
            GraphOp::RemoveVertex(key) => self.remove_vertex(key),
            GraphOp::AddEdge(source, target) => self.add_edge(source, target),
            GraphOp::RemoveEdge(source, target) => self.remove_edge(source, target),
        }
    }

    /// The graph after the operations `ops`, in order.
    pub open spec fn apply_all(self, ops: Seq<GraphOp>) -> GraphView
        decreases ops.len(),
    {
        if ops.len() == 0 {
            self
        } else {
            self.apply_all(ops.drop_last()).apply(ops.last())
        }
    }

    /// Every operation takes a graph to a graph: edges keep joining
    /// vertices.
    pub proof fn lemma_apply_wf(self, op: GraphOp)
        requires
            self.wf(),
        ensures
            self.apply(op).wf(),
    {
    }

    /// A vertex that was added is a vertex until it is removed: after
    /// `add_vertex(key)` and any operations that do not remove `key`, `key`
    /// is a vertex.
    pub proof fn lemma_added_vertex_stays(self, key: usize, ops: Seq<GraphOp>)
        requires
            forall|i: int| 0 <= i < ops.len() ==> ops[i] != GraphOp::RemoveVertex(key),
        ensures
            self.add_vertex(key).apply_all(ops).vertices.contains(key),
        decreases ops.len(),
    {
        if ops.len() > 0 {
            self.lemma_added_vertex_stays(key, ops.drop_last());
            assert(ops.last() == ops[ops.len() - 1]);
        }
    }

    /// Adding a vertex twice is adding it once: after the first addition the
    /// key is a vertex, which is when the second reports that it exists, and
    /// the second leaves the graph as the first made it.
    pub proof fn lemma_add_vertex_twice(self, key: usize)
        ensures
            self.add_vertex(key).vertices.contains(key),
            self.add_vertex(key).add_vertex(key) == self.add_vertex(key),
    {
        assert(self.add_vertex(key).add_vertex(key).vertices =~= self.add_vertex(key).vertices);
    }

    /// Removing a key that is no vertex leaves the graph unchanged.
    pub proof fn lemma_remove_absent_vertex(self, key: usize)
        requires
            self.wf(),
            !self.vertices.contains(key),
        ensures
            self.remove_vertex(key) == self,
    {
        assert(self.remove_vertex(key).vertices =~= self.vertices);
        assert(self.remove_vertex(key).edges =~= self.edges);
    }

    /// Edges are directed: adding the edge from `source` to `target`, two
    /// different vertices, makes it an edge and does not make the edge back
    /// from `target` to `source` one.
    pub proof fn lemma_add_edge_directed(self, source: usize, target: usize)
        requires
            self.vertices.contains(source),
            self.vertices.contains(target),
            source != target,
            !self.has_edge(target, source),
        ensures
            self.add_edge(source, target).has_edge(source, target),
            !self.add_edge(source, target).has_edge(target, source),
    {
    }

    /// Adding an edge between keys of which one is no vertex leaves the
    /// graph unchanged.
    pub proof fn lemma_add_edge_needs_vertices(self, source: usize, target: usize)
        requires
            !self.vertices.contains(source) || !self.vertices.contains(target),
        ensures
            self.add_edge(source, target) == self,
    {
    }

    /// Removing a vertex removes the edges that reach it: with the second
    /// way of treating such edges, an edge whose target is gone is gone.
    pub proof fn lemma_remove_vertex_drops_edges(self, key: usize, source: usize, target: usize)
        requires
            source == key || target == key,
        ensures
            !self.remove_vertex(key).has_edge(source, target),
    {
    }
}

} // verus!
