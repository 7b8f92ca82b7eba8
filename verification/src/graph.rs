//! The graph: one ordered list of vertices, and for every vertex an ordered
//! list of its outgoing edges.

use vstd::prelude::*;
use crate::collector::Collector;
use crate::collector::Session;
use crate::error::VertexNotFound;
use crate::find::FindOp;
use crate::find::FindPhase;
use crate::insert::InsertOp;
use crate::insert::InsertPhase;
use crate::key::NodeKey;
use crate::list::NodeList;
use crate::marking::Marking;
use crate::model::GraphView;
use crate::remove::RemoveOp;
use crate::remove::RemovePhase;
use crate::shared::Shared;

verus! {

/// What is read of a vertex node: its key, the place of its edge list and
/// its link to the next vertex.
#[derive(Clone, Copy, Debug)]
pub struct VertexNode {
    pub key: NodeKey,
    pub first_edge: Shared,
    pub next_vertex: Marking<Shared>,
}

/// What is read of an edge node: its key, which is the key of its target,
/// its link to the next edge, and the reference to the target vertex.
#[derive(Clone, Copy, Debug)]
pub struct EdgeNode {
    pub key: NodeKey,
    pub next_edge: Marking<Shared>,
    pub target: Shared,
}

/// A lock-free directed graph in its step-by-step model. Every cell of the
/// vertex list has an edge list of its own, at the place of the cell's
/// address; an edge carries its target's key and, as payload, a reference to
/// the target vertex that does not own it. An edge counts only while its
/// target is the live vertex with that key: removing a vertex removes the
/// edges that reach it.
pub struct ConcurrentGraph {
    collector: Collector,
    vertices: NodeList,
    edges: Vec<NodeList>,
}

impl View for ConcurrentGraph {
    type V = GraphView;

    open spec fn view(&self) -> GraphView {
        GraphView {
            vertices: self.vertex_list()@.dom(),
            edges: Set::new(|p: (usize, usize)| self.has_edge(p.0, p.1)),
        }
    }
}

impl ConcurrentGraph {
    /// The list of vertices.
    pub closed spec fn vertex_list(&self) -> NodeList {
        self.vertices
    }

    /// The edge lists, by place.
    pub closed spec fn edge_lists(&self) -> Seq<NodeList> {
        self.edges@
    }

    /// The generation counter and the open sessions.
    pub closed spec fn collector(&self) -> Collector {
        self.collector
    }

    /// Whether `session` is open on this graph.
    pub open spec fn is_open(&self, session: &Session) -> bool {
        self.collector().is_open(session)
    }

    /// The edge list of the vertex node `vertex`.
    pub open spec fn edges_of(&self, vertex: Shared) -> NodeList {
        self.edge_lists()[vertex.addr as int]
    }

    /// The edge list of the live vertex `source`.
    spec fn list_of(&self, source: usize) -> NodeList {
        self.edges@[self.vertices@[source].addr as int]
    }

    /// Whether the graph has an edge from `source` to `target`: both are
    /// live vertices, the edge list of `source` holds a live edge with key
    /// `target`, and that edge refers to the live vertex `target`.
    pub closed spec fn has_edge(&self, source: usize, target: usize) -> bool {
        &&& self.vertices@.contains_key(source)
        &&& self.vertices@.contains_key(target)
        &&& self.list_of(source)@.contains_key(target)
        &&& self.list_of(source).payload_of(self.list_of(source)@[target]) == self.vertices@[target]
    }

    /// Every list is well-formed and stamped within the current generation.
    spec fn lists_ok(&self) -> bool {
        &&& self.collector.wf()
        &&& self.vertices.wf()
        &&& self.vertices.stamps_within(self.collector.generation())
        &&& forall|e: int|
            0 <= e < self.edges@.len() ==> (#[trigger] self.edges@[e]).wf()
                && self.edges@[e].stamps_within(self.collector.generation())
    }

    /// Every cell of the vertex list has an edge list.
    spec fn places_ok(&self) -> bool {
        self.edges@.len() == self.vertices.capacity()
    }

    /// Every live edge refers to a cell that the vertex list has handed out.
    spec fn targets_ok(&self) -> bool {
        forall|e: int, k: usize|
            0 <= e < self.edges@.len() && #[trigger] self.edges@[e]@.contains_key(k)
                ==> self.edges@[e].payload_of(self.edges@[e]@[k]).addr < self.vertices.capacity()
    }

    /// The shape of the graph: every list is well-formed and stamped within
    /// the current generation, every cell of the vertex list has an edge
    /// list, and every live edge refers to a cell of the vertex list.
    pub closed spec fn wf(&self) -> bool {
        &&& self.lists_ok()
        &&& self.places_ok()
        &&& self.targets_ok()
    }

    /// Whether no logical deletion is pending in any list of the graph.
    pub open spec fn settled(&self) -> bool {
        &&& self.vertex_list().settled()
        &&& forall|e: int|
            0 <= e < self.edge_lists().len() ==> (#[trigger] self.edge_lists()[e]).settled()
    }

    /// What it means that the graph has an edge, said of its lists: both
    /// keys are live vertices, the edge list of the source holds a live edge
    /// with the target's key, and that edge refers to the live target
    /// vertex.
    pub proof fn lemma_has_edge(&self, source: usize, target: usize)
        ensures
            self.has_edge(source, target) == (self.vertex_list()@.contains_key(source)
                && self.vertex_list()@.contains_key(target) && self.edges_of(
                self.vertex_list()@[source],
            )@.contains_key(target) && self.edges_of(self.vertex_list()@[source]).payload_of(
                self.edges_of(self.vertex_list()@[source])@[target],
            ) == self.vertex_list()@[target]),
    {
    }

    /// What the parts of a well-formed graph are.
    pub proof fn lemma_parts_wf(&self)
        requires
            self.wf(),
        ensures
            self.collector().wf(),
            self.vertex_list().wf(),
            self.vertex_list().stamps_within(self.collector().generation()),
            self.edge_lists().len() == self.vertex_list().capacity(),
            forall|e: int|
                0 <= e < self.edge_lists().len() ==> (#[trigger] self.edge_lists()[e]).wf()
                    && self.edge_lists()[e].stamps_within(self.collector().generation()),
    {
    }

    /// The view of a well-formed graph is a graph: its edges join vertices.
    pub proof fn lemma_view_wf(&self)
        ensures
            self@.wf(),
    {
        assert forall|p: (usize, usize)| #[trigger] self@.edges.contains(p) implies self@.vertices.contains(
            p.0,
        ) && self@.vertices.contains(p.1) by {
            assert(self.has_edge(p.0, p.1));
        }
    }

    /// Edge lists that are stamped within a generation are stamped within
    /// every later one.
    proof fn lemma_lists_later(lists: Seq<NodeList>, earlier: u64, later: u64)
        requires
            earlier <= later,
            forall|e: int|
                0 <= e < lists.len() ==> (#[trigger] lists[e]).wf() && lists[e].stamps_within(
                    earlier,
                ),
        ensures
            forall|e: int|
                0 <= e < lists.len() ==> (#[trigger] lists[e]).wf() && lists[e].stamps_within(later),
    {
        assert forall|e: int| 0 <= e < lists.len() implies (#[trigger] lists[e]).wf()
            && lists[e].stamps_within(later) by {
            lists[e].lemma_stamps_within_later(earlier, later);
        }
    }

    /// A change of the vertex list that leaves it without pending deletions
    /// leaves the graph without.
    proof fn lemma_settled_vertices(pre: ConcurrentGraph, post: ConcurrentGraph)
        requires
            pre.settled(),
            post.vertices.settled(),
            post.edges == pre.edges,
        ensures
            post.settled(),
    {
        assert forall|e: int| 0 <= e < post.edge_lists().len() implies (
        #[trigger] post.edge_lists()[e]).settled() by {
            assert(pre.edge_lists()[e].settled());
        }
    }

    /// A change of one edge list that leaves it without pending deletions
    /// leaves the graph without.
    proof fn lemma_settled_edges(pre: ConcurrentGraph, post: ConcurrentGraph, e: int)
        requires
            pre.settled(),
            post.vertices.settled(),
            0 <= e < pre.edges@.len(),
            post.edges@.len() == pre.edges@.len(),
            forall|i: int| 0 <= i < pre.edges@.len() && i != e ==> post.edges@[i] == pre.edges@[i],
            post.edges@[e].settled(),
        ensures
            post.settled(),
    {
        assert forall|i: int| 0 <= i < post.edge_lists().len() implies (
        #[trigger] post.edge_lists()[i]).settled() by {
            if i != e {
                assert(pre.edge_lists()[i].settled());
            }
        }
    }

    /// A graph without vertices and without open sessions.
    pub fn new() -> (r: ConcurrentGraph)
        ensures
            r.wf(),
            r@ == GraphView::empty(),
            r.collector().sessions() == Seq::<u64>::empty(),
            r.collector().generation() == 0,
            r.settled(),
    {
        let mut edges: Vec<NodeList> = Vec::new();
        edges.push(NodeList::new());
        let r = ConcurrentGraph { collector: Collector::new(), vertices: NodeList::new(), edges };
        proof {
            assert(r@.vertices =~= Set::<usize>::empty());
            assert(r@.edges =~= Set::<(usize, usize)>::empty());
        }
        r
    }

    /// Begins a session on the graph. Every operation takes an open session.
    pub fn acquire_session(&mut self) -> (session: Session)
        requires
            old(self).wf(),
        ensures
            final(self).wf(),
            final(self)@ == old(self)@,
            final(self).is_open(&session),
            final(self).vertex_list() == old(self).vertex_list(),
            final(self).edge_lists() == old(self).edge_lists(),
            session.generation() == old(self).collector().generation(),
            final(self).collector().generation() == old(self).collector().generation(),
            final(self).collector().sessions() == old(self).collector().sessions().push(
                session.generation(),
            ),
    {
        self.collector.enter()
    }

    /// The reference to the sentinel of the vertex list.
    pub fn head(&self) -> (r: Shared)
        ensures
            r == NodeList::head_spec(),
    {
        self.vertices.head()
    }

    /// Searches the vertex list for the place of `key` behind the unmarked
    /// vertex node `start_from`, and returns the two nodes that border it.
    pub fn locate_vertex(&mut self, start_from: Shared, key: usize, guard: &Session) -> (r: (
        Shared,
        Shared,
    ))
        requires
            old(self).wf(),
            old(self).is_open(guard),
            old(self).vertex_list().holds(start_from),
            !old(self).vertex_list().link_of(start_from).marked(),
            old(self).vertex_list().key_of(start_from).rank() < key,
        ensures
            final(self).wf(),
            final(self)@ == old(self)@,
            final(self).collector().sessions() == old(self).collector().sessions(),
            final(self).edge_lists() == old(self).edge_lists(),
            final(self).vertex_list()@ == old(self).vertex_list()@,
            old(self).vertex_list().advances_to(
                &final(self).vertex_list(),
                old(self).collector().generation(),
            ),
            final(self).vertex_list().borders(r.0, r.1, key),
            final(self).collector().generation() >= old(self).collector().generation(),
            old(self).vertex_list().settled() ==> final(self).vertex_list() == old(
                self,
            ).vertex_list(),
    {
        let ghost before = *self;
        let r = self.vertices.locate_insert_position(start_from, key, guard, &mut self.collector);
        proof {
            Self::lemma_vertices_stepped(before, *self);
        }
        r
    }

    /// A step of the vertex list that leaves its view as it is leaves the
    /// graph as it is.
    proof fn lemma_vertices_stepped(pre: ConcurrentGraph, post: ConcurrentGraph)
        requires
            pre.wf(),
            post.edges == pre.edges,
            post.collector.wf(),
            post.collector.generation() >= pre.collector.generation(),
            post.vertices.wf(),
            post.vertices.stamps_within(post.collector.generation()),
            post.vertices@ == pre.vertices@,
            post.vertices.capacity() == pre.vertices.capacity(),
        ensures
            post.wf(),
            post@ == pre@,
    {
        Self::lemma_lists_later(
            pre.edges@,
            pre.collector.generation(),
            post.collector.generation(),
        );
        assert(post.targets_ok());
        assert forall|p: (usize, usize)| post.has_edge(p.0, p.1) == pre.has_edge(p.0, p.1) by {
            if pre.vertices@.contains_key(p.0) {
                assert(pre.vertices@.contains_key(p.0));
            }
        }
        assert(post@.edges =~= pre@.edges);
    }

    /// Adds the vertex `key`. Returns whether it was added: `false` where a
    /// live vertex with that key exists already.
    pub fn add_node(&mut self, key: usize, guard: &Session) -> (r: bool)
        requires
            old(self).wf(),
            old(self).is_open(guard),
        ensures
            final(self).wf(),
            final(self).collector().sessions() == old(self).collector().sessions(),
            r == !old(self)@.vertices.contains(key),
            final(self)@ == old(self)@.add_vertex(key),
            old(self).settled() ==> final(self).settled(),
            !r ==> final(self).edge_lists() == old(self).edge_lists(),
            !r && old(self).vertex_list().settled() ==> final(self).vertex_list() == old(
                self,
            ).vertex_list(),
    {
        let ghost before = *self;
        match self.vertices.insert(key, Shared::null(), guard, &mut self.collector) {
            Ok(fresh) => {
                self.edges.push(NodeList::new());
                proof {
                    Self::lemma_vertex_added(before, *self, key, fresh);
                    if before.settled() {
                        assert forall|e: int| 0 <= e < self.edge_lists().len() implies (
                        #[trigger] self.edge_lists()[e]).settled() by {
                            if e < before.edge_lists().len() {
                                assert(before.edge_lists()[e].settled());
                            }
                        }
                    }
                }
                true
            },
            Err(_) => {
                proof {
                    Self::lemma_vertices_stepped(before, *self);
                    assert(self@.vertices =~= before@.add_vertex(key).vertices);
                    if before.settled() {
                        Self::lemma_settled_vertices(before, *self);
                    }
                }
                false
            },
        }
    }

    /// What the publication of a new vertex does to the graph: it adds the
    /// vertex, with an empty edge list, and no edge.
    proof fn lemma_vertex_added(
        pre: ConcurrentGraph,
        post: ConcurrentGraph,
        key: usize,
        fresh: Shared,
    )
        requires
            pre.wf(),
            post.collector.wf(),
            post.collector.generation() >= pre.collector.generation(),
            post.vertices.wf(),
            post.vertices.stamps_within(post.collector.generation()),
            !pre.vertices@.contains_key(key),
            post.vertices@ == pre.vertices@.insert(key, fresh),
            fresh.addr == pre.vertices.capacity(),
            post.vertices.capacity() == pre.vertices.capacity() + 1,
            post.edges@.len() == pre.edges@.len() + 1,
            forall|e: int| 0 <= e < pre.edges@.len() ==> post.edges@[e] == pre.edges@[e],
            post.edges@[pre.edges@.len() as int].wf(),
            post.edges@[pre.edges@.len() as int].stamps_within(0),
            post.edges@[pre.edges@.len() as int]@ == Map::<usize, Shared>::empty(),
        ensures
            post.wf(),
            post@ == pre@.add_vertex(key),
    {
        let added = post.edges@[pre.edges@.len() as int];
        added.lemma_stamps_within_later(0, post.collector.generation());
        Self::lemma_lists_later(
            pre.edges@,
            pre.collector.generation(),
            post.collector.generation(),
        );
        assert forall|e: int| 0 <= e < post.edges@.len() implies (#[trigger] post.edges@[e]).wf()
            && post.edges@[e].stamps_within(post.collector.generation()) by {
            if e < pre.edges@.len() {
                assert(pre.edges@[e].wf());
            }
        }
        assert forall|k: usize| #[trigger] pre.vertices@.contains_key(k) implies pre.vertices@[k].addr
            < pre.edges@.len() && post.vertices@[k] == pre.vertices@[k] && k != key by {
            pre.vertices.lemma_mapped_is_live(k);
            pre.vertices.lemma_holds_within(pre.vertices@[k]);
        }
        assert forall|e: int, k: usize|
            0 <= e < post.edges@.len() && #[trigger] post.edges@[e]@.contains_key(
                k,
            ) implies post.edges@[e].payload_of(post.edges@[e]@[k]).addr
            < post.vertices.capacity() by {
            if e < pre.edges@.len() {
                assert(pre.edges@[e]@.contains_key(k));
            }
        }
        assert(post.targets_ok());
        assert(post@.vertices =~= pre@.add_vertex(key).vertices);
        assert forall|p: (usize, usize)| post.has_edge(p.0, p.1) == pre.has_edge(p.0, p.1) by {
            if p.0 != key && p.1 != key {
                if pre.vertices@.contains_key(p.0) && pre.vertices@.contains_key(p.1) {
                    assert(post.list_of(p.0) == pre.list_of(p.0));
                }
            } else if p.0 == key {
                assert(post.list_of(key) == added);
            } else {
                if pre.vertices@.contains_key(p.0) {
                    let list = pre.list_of(p.0);
                    assert(post.list_of(p.0) == list);
                    if list@.contains_key(key) {
                        assert(pre.edges@[pre.vertices@[p.0].addr as int]@.contains_key(key));
                    }
                }
            }
        }
        assert(post@.edges =~= pre@.add_vertex(key).edges);
    }

    /// Removes the vertex `key`, and with it every edge that leaves or
    /// reaches it. Returns whether a live vertex with that key was there.
    pub fn remove_vertex(&mut self, key: usize, guard: &Session) -> (r: bool)
        requires
            old(self).wf(),
            old(self).is_open(guard),
        ensures
            final(self).wf(),
            final(self).collector().sessions() == old(self).collector().sessions(),
            r == old(self)@.vertices.contains(key),
            final(self)@ == old(self)@.remove_vertex(key),
            !r ==> final(self)@ == old(self)@,
            old(self).settled() ==> final(self).settled(),
            final(self).edge_lists() == old(self).edge_lists(),
            !r && old(self).vertex_list().settled() ==> final(self).vertex_list() == old(
                self,
            ).vertex_list(),
    {
        let ghost before = *self;
        match self.vertices.remove(key, guard, &mut self.collector) {
            Ok(_) => {
                proof {
                    Self::lemma_vertex_removed(before, *self, key);
                    if before.settled() {
                        Self::lemma_settled_vertices(before, *self);
                    }
                }
                true
            },
            Err(_) => {
                proof {
                    Self::lemma_vertices_stepped(before, *self);
                    if before.settled() {
                        Self::lemma_settled_vertices(before, *self);
                    }
                    assert(self@.vertices =~= before@.remove_vertex(key).vertices);
                    assert(self@.edges =~= before@.remove_vertex(key).edges);
                }
                false
            },
        }
    }

    /// What the marking of a vertex does to the graph: it removes the
    /// vertex and every edge that leaves or reaches it.
    proof fn lemma_vertex_removed(pre: ConcurrentGraph, post: ConcurrentGraph, key: usize)
        requires
            pre.wf(),
            post.edges == pre.edges,
            post.collector.wf(),
            post.collector.generation() >= pre.collector.generation(),
            post.vertices.wf(),
            post.vertices.stamps_within(post.collector.generation()),
            pre.vertices@.contains_key(key),
            post.vertices@ == pre.vertices@.remove(key),
            post.vertices.capacity() == pre.vertices.capacity(),
        ensures
            post.wf(),
            post@ == pre@.remove_vertex(key),
    {
        Self::lemma_lists_later(
            pre.edges@,
            pre.collector.generation(),
            post.collector.generation(),
        );
        assert(post.targets_ok());
        assert(post@.vertices =~= pre@.remove_vertex(key).vertices);
        assert forall|p: (usize, usize)|
            post.has_edge(p.0, p.1) == (pre.has_edge(p.0, p.1) && p.0 != key && p.1 != key) by {
            if p.0 != key && p.1 != key {
                if pre.vertices@.contains_key(p.0) {
                    assert(post.vertices@.contains_key(p.0));
                }
            }
        }
        assert(post@.edges =~= pre@.remove_vertex(key).edges);
    }

    /// Reports whether `key` is a live vertex.
    pub fn contains_vertex(&mut self, key: usize, guard: &Session) -> (r: bool)
        requires
            old(self).wf(),
            old(self).is_open(guard),
        ensures
            final(self).wf(),
            final(self).collector().sessions() == old(self).collector().sessions(),
            final(self)@ == old(self)@,
            r == old(self)@.vertices.contains(key),
            final(self).edge_lists() == old(self).edge_lists(),
            old(self).vertex_list().settled() ==> final(self).vertex_list() == old(
                self,
            ).vertex_list(),
    {
        let ghost before = *self;
        let r = self.vertices.contains(key, guard, &mut self.collector);
        proof {
            Self::lemma_vertices_stepped(before, *self);
        }
        r
    }

    /// Locates the live vertex nodes of `source` and `target` in one sweep
    /// of the vertex list: the smaller key is searched from the sentinel, the
    /// larger one from the node found for the smaller. Returns both nodes,
    /// or two null references where one of the keys is not a live vertex.
    pub fn locate_both(&mut self, source: usize, target: usize, guard: &Session) -> (r: (
        Shared,
        Shared,
    ))
        requires
            old(self).wf(),
            old(self).is_open(guard),
        ensures
            final(self).wf(),
            final(self)@ == old(self)@,
            final(self).collector().sessions() == old(self).collector().sessions(),
            final(self).edge_lists() == old(self).edge_lists(),
            final(self).vertex_list()@ == old(self).vertex_list()@,
            final(self).collector().generation() >= old(self).collector().generation(),
            old(self).vertex_list().advances_to(
                &final(self).vertex_list(),
                old(self).collector().generation(),
            ),
            old(self)@.vertices.contains(source) && old(self)@.vertices.contains(target) ==> r == (
                old(self).vertex_list()@[source],
                old(self).vertex_list()@[target],
            ),
            !(old(self)@.vertices.contains(source) && old(self)@.vertices.contains(target)) ==> r
                == (Shared { addr: crate::shared::NULL_ADDR }, Shared { addr: crate::shared::NULL_ADDR }),
            !r.0.is_null() <==> old(self)@.vertices.contains(source) && old(self)@.vertices.contains(
                target,
            ),
            old(self).vertex_list().settled() ==> final(self).vertex_list() == old(
                self,
            ).vertex_list(),
    {
        let (less, greater) = if source < target {
            (source, target)
        } else {
            (target, source)
        };
        let head = self.head();
        proof {
            self.vertices.lemma_head();
        }
        let (_, lower) = self.locate_vertex(head, less, guard);
        if lower.is_null() || !self.vertices.key(lower).is(less) {
            proof {
                if self.vertices@.contains_key(less) {
                    self.vertices.lemma_mapped_is_live(less);
                    self.vertices.lemma_unmarked_is_live(lower);
                }
            }
            return (Shared::null(), Shared::null());
        }
        proof {
            self.vertices.lemma_live_is_mapped(lower, less);
            self.vertices.lemma_holds_not_null(lower);
        }
        if less == greater {
            return (lower, lower);
        }
        let (_, upper) = self.locate_vertex(lower, greater, guard);
        if upper.is_null() || !self.vertices.key(upper).is(greater) {
            proof {
                if self.vertices@.contains_key(greater) {
                    self.vertices.lemma_mapped_is_live(greater);
                    self.vertices.lemma_unmarked_is_live(upper);
                }
            }
            return (Shared::null(), Shared::null());
        }
        proof {
            self.vertices.lemma_live_is_mapped(upper, greater);
            self.vertices.lemma_holds_not_null(upper);
        }
        if source < target {
            (lower, upper)
        } else {
            (upper, lower)
        }
    }

    /// What a change of one edge list does to the graph. The list is that of
    /// the live vertex `source`; its view has changed at `target` at most;
    /// `present` says whether the edge from `source` to `target` counts
    /// afterwards. Every other edge is as it was.
    proof fn lemma_edge_changed(
        pre: ConcurrentGraph,
        post: ConcurrentGraph,
        e: int,
        source: usize,
        target: usize,
        present: bool,
    )
        requires
            pre.wf(),
            post.vertices == pre.vertices,
            post.collector.wf(),
            post.collector.generation() >= pre.collector.generation(),
            0 <= e < pre.edges@.len(),
            post.edges@.len() == pre.edges@.len(),
            forall|i: int| 0 <= i < pre.edges@.len() && i != e ==> post.edges@[i] == pre.edges@[i],
            post.edges@[e].wf(),
            post.edges@[e].stamps_within(post.collector.generation()),
            pre.vertices@.contains_key(source),
            pre.vertices@[source].addr == e,
            forall|k: usize|
                k != target ==> (#[trigger] post.edges@[e]@.contains_key(k))
                    == pre.edges@[e]@.contains_key(k),
            forall|k: usize|
                k != target && #[trigger] pre.edges@[e]@.contains_key(k) ==> post.edges@[e]@[k]
                    == pre.edges@[e]@[k],
            pre.edges@[e].keeps_payloads(&post.edges@[e]),
            post.edges@[e]@.contains_key(target) ==> post.edges@[e].payload_of(
                post.edges@[e]@[target],
            ).addr < pre.vertices.capacity(),
            present == (pre.vertices@.contains_key(target) && post.edges@[e]@.contains_key(target)
                && post.edges@[e].payload_of(post.edges@[e]@[target]) == pre.vertices@[target]),
        ensures
            post.wf(),
            post@.vertices == pre@.vertices,
            post@.edges == if present {
                pre@.edges.insert((source, target))
            } else {
                pre@.edges.remove((source, target))
            },
    {
        Self::lemma_lists_later(
            pre.edges@,
            pre.collector.generation(),
            post.collector.generation(),
        );
        assert forall|i: int| 0 <= i < post.edges@.len() implies (#[trigger] post.edges@[i]).wf()
            && post.edges@[i].stamps_within(post.collector.generation()) by {
            if i != e {
                assert(pre.edges@[i].wf());
            }
        }
        assert forall|i: int, k: usize|
            0 <= i < post.edges@.len() && #[trigger] post.edges@[i]@.contains_key(
                k,
            ) implies post.edges@[i].payload_of(post.edges@[i]@[k]).addr
            < post.vertices.capacity() by {
            if i != e {
                assert(pre.edges@[i]@.contains_key(k));
            } else if k != target {
                assert(pre.edges@[e]@.contains_key(k));
            }
        }
        assert(post.targets_ok());
        let goal = if present {
            pre@.edges.insert((source, target))
        } else {
            pre@.edges.remove((source, target))
        };
        assert forall|p: (usize, usize)| post.has_edge(p.0, p.1) == goal.contains(p) by {
            if pre.vertices@.contains_key(p.0) && pre.vertices@.contains_key(p.1) {
                pre.vertices.lemma_mapped_is_live(p.0);
                pre.vertices.lemma_mapped_is_live(source);
                pre.vertices.lemma_holds_within(pre.vertices@[p.0]);
                if p.0 != source {
                    assert(pre.vertices@[p.0] != pre.vertices@[source]);
                    assert(post.list_of(p.0) == pre.list_of(p.0));
                } else {
                    assert(post.list_of(p.0) == post.edges@[e]);
                    assert(pre.list_of(p.0) == pre.edges@[e]);
                    if p.1 != target {
                        assert(post.edges@[e]@.contains_key(p.1) == pre.edges@[e]@.contains_key(
                            p.1,
                        ));
                    }
                }
            }
            assert(pre@.edges.contains(p) == pre.has_edge(p.0, p.1));
        }
        assert(post@.edges =~= goal);
    }

    /// Adds the edge from `source` to `target`. It fails where one of the
    /// two is not a live vertex, and changes nothing in that case. An edge of
    /// `source` with the same key that refers to a vertex removed earlier
    /// is replaced.
    pub fn add_edge(&mut self, source: usize, target: usize, guard: &Session) -> (r: Result<
        (),
        VertexNotFound,
    >)
        requires
            old(self).wf(),
            old(self).is_open(guard),
        ensures
            final(self).wf(),
            final(self).collector().sessions() == old(self).collector().sessions(),
            r is Ok <==> old(self)@.vertices.contains(source) && old(self)@.vertices.contains(target),
            final(self)@ == old(self)@.add_edge(source, target),
            old(self).settled() ==> final(self).settled(),
            old(self).vertex_list().settled() ==> final(self).vertex_list() == old(
                self,
            ).vertex_list(),
            r is Err ==> final(self).edge_lists() == old(self).edge_lists(),
    {
        let (from, to) = self.locate_both(source, target, guard);
        if from.is_null() {
            return Err(VertexNotFound);
        }
        proof {
            self.vertices.lemma_mapped_is_live(source);
            self.vertices.lemma_mapped_is_live(target);
            self.vertices.lemma_holds_within(to);
            self.vertices.lemma_holds_within(from);
        }
        let e: usize = from.as_ptr();
        let ghost first = *self;
        let held = self.edges[e].lookup(target, guard, &mut self.collector);
        proof {
            first.edges@[e as int].lemma_advance_keeps(
                &self.edges@[e as int],
                first.collector.generation(),
            );
            Self::lemma_edge_changed(
                first,
                *self,
                e as int,
                source,
                target,
                first.has_edge(source, target),
            );
            assert(self@.edges =~= first@.edges);
        }
        if !held.is_null() {
            proof {
                self.edges@[e as int].lemma_mapped_is_live(target);
            }
            if self.edges[e].payload(held) == to {
                proof {
                    assert(self.has_edge(source, target));
                    assert(self@.edges =~= old(self)@.add_edge(source, target).edges);
                }
                return Ok(());
            }
            let ghost second = *self;
            let _ = self.edges[e].remove(target, guard, &mut self.collector);
            proof {
                second.edges@[e as int].lemma_advance_keeps(
                    &self.edges@[e as int],
                    second.collector.generation(),
                );
                Self::lemma_edge_changed(second, *self, e as int, source, target, false);
                assert(!second.has_edge(source, target));
                assert(self@.edges =~= second@.edges);
            }
        }
        let ghost third = *self;
        let _ = self.edges[e].insert(target, to, guard, &mut self.collector);
        proof {
            third.edges@[e as int].lemma_advance_keeps(
                &self.edges@[e as int],
                third.collector.generation(),
            );
            Self::lemma_edge_changed(third, *self, e as int, source, target, true);
        }
        Ok(())
    }

    /// Removes the edge from `source` to `target`. Returns whether the graph
    /// had that edge. An edge of `source` with the same key that refers to a
    /// vertex removed earlier is cleared away and does not count.
    pub fn remove_edge(&mut self, source: usize, target: usize, guard: &Session) -> (r: bool)
        requires
            old(self).wf(),
            old(self).is_open(guard),
        ensures
            final(self).wf(),
            final(self).collector().sessions() == old(self).collector().sessions(),
            r == old(self)@.has_edge(source, target),
            final(self)@ == old(self)@.remove_edge(source, target),
            old(self).settled() ==> final(self).settled(),
            old(self).vertex_list().settled() ==> final(self).vertex_list() == old(
                self,
            ).vertex_list(),
    {
        let ghost start = *self;
        let from = self.vertices.lookup(source, guard, &mut self.collector);
        proof {
            Self::lemma_vertices_stepped(start, *self);
            if start.settled() {
                Self::lemma_settled_vertices(start, *self);
            }
        }
        if from.is_null() {
            proof {
                assert(!self.has_edge(source, target));
                assert(self@.edges =~= old(self)@.remove_edge(source, target).edges);
            }
            return false;
        }
        proof {
            self.vertices.lemma_mapped_is_live(source);
            self.vertices.lemma_holds_within(from);
        }
        let e: usize = from.as_ptr();
        let ghost first = *self;
        let held = self.edges[e].lookup(target, guard, &mut self.collector);
        proof {
            first.edges@[e as int].lemma_advance_keeps(
                &self.edges@[e as int],
                first.collector.generation(),
            );
            Self::lemma_edge_changed(
                first,
                *self,
                e as int,
                source,
                target,
                first.has_edge(source, target),
            );
            assert(self@.edges =~= first@.edges);
            if first.settled() {
                assert(first.edge_lists()[e as int].settled());
                Self::lemma_settled_edges(first, *self, e as int);
            }
        }
        if held.is_null() {
            proof {
                assert(!self.has_edge(source, target));
                assert(self@.edges =~= old(self)@.remove_edge(source, target).edges);
            }
            return false;
        }
        proof {
            self.edges@[e as int].lemma_mapped_is_live(target);
        }
        let to = self.edges[e].payload(held);
        let counted = self.vertices.alive(to) && self.vertices.key(to).is(target);
        proof {
            if counted {
                self.vertices.lemma_live_is_mapped(to, target);
            }
            if self.has_edge(source, target) {
                self.vertices.lemma_mapped_is_live(target);
            }
            assert(counted == self.has_edge(source, target));
        }
        let ghost second = *self;
        let _ = self.edges[e].remove(target, guard, &mut self.collector);
        proof {
            second.edges@[e as int].lemma_advance_keeps(
                &self.edges@[e as int],
                second.collector.generation(),
            );
            Self::lemma_edge_changed(second, *self, e as int, source, target, false);
            if second.settled() {
                assert(second.edge_lists()[e as int].settled());
                Self::lemma_settled_edges(second, *self, e as int);
            }
        }
        counted
    }

    /// Reports whether the graph has the edge from `source` to `target`. The
    /// edge found in the list of `source` counts only if the vertex it refers
    /// to is live and has the key `target`.
    pub fn contains_edge(&mut self, source: usize, target: usize, guard: &Session) -> (r: bool)
        requires
            old(self).wf(),
            old(self).is_open(guard),
        ensures
            final(self).wf(),
            final(self).collector().sessions() == old(self).collector().sessions(),
            final(self)@ == old(self)@,
            r == old(self)@.has_edge(source, target),
            old(self).settled() ==> final(self).vertex_list() == old(self).vertex_list()
                && final(self).edge_lists() == old(self).edge_lists(),
    {
        let ghost start = *self;
        let from = self.vertices.lookup(source, guard, &mut self.collector);
        proof {
            Self::lemma_vertices_stepped(start, *self);
        }
        if from.is_null() {
            proof {
                assert(!self.has_edge(source, target));
            }
            return false;
        }
        proof {
            self.vertices.lemma_mapped_is_live(source);
            self.vertices.lemma_holds_within(from);
        }
        let e: usize = from.as_ptr();
        let ghost first = *self;
        let held = self.edges[e].lookup(target, guard, &mut self.collector);
        proof {
            first.edges@[e as int].lemma_advance_keeps(
                &self.edges@[e as int],
                first.collector.generation(),
            );
            Self::lemma_edge_changed(
                first,
                *self,
                e as int,
                source,
                target,
                first.has_edge(source, target),
            );
            assert(self@.edges =~= first@.edges);
        }
        if held.is_null() {
            proof {
                assert(!self.has_edge(source, target));
            }
            return false;
        }
        proof {
            self.edges@[e as int].lemma_mapped_is_live(target);
        }
        let to = self.edges[e].payload(held);
        let counted = self.vertices.alive(to) && self.vertices.key(to).is(target);
        proof {
            if counted {
                self.vertices.lemma_live_is_mapped(to, target);
            }
            if self.has_edge(source, target) {
                self.vertices.lemma_mapped_is_live(target);
            }
            assert(counted == self.has_edge(source, target));
        }
        counted
    }

    /// What a change of one edge list does to the graph when the view of
    /// that list and the payloads of its live nodes stay: nothing.
    proof fn lemma_edge_kept(pre: ConcurrentGraph, post: ConcurrentGraph, e: int)
        requires
            pre.wf(),
            post.vertices == pre.vertices,
            post.collector.wf(),
            post.collector.generation() >= pre.collector.generation(),
            0 <= e < pre.edges@.len(),
            post.edges@.len() == pre.edges@.len(),
            forall|i: int| 0 <= i < pre.edges@.len() && i != e ==> post.edges@[i] == pre.edges@[i],
            post.edges@[e].wf(),
            post.edges@[e].stamps_within(post.collector.generation()),
            post.edges@[e]@ == pre.edges@[e]@,
            pre.edges@[e].keeps_payloads(&post.edges@[e]),
        ensures
            post.wf(),
            post@ == pre@,
    {
        Self::lemma_lists_later(
            pre.edges@,
            pre.collector.generation(),
            post.collector.generation(),
        );
        assert forall|i: int| 0 <= i < post.edges@.len() implies (#[trigger] post.edges@[i]).wf()
            && post.edges@[i].stamps_within(post.collector.generation()) by {
            if i != e {
                assert(pre.edges@[i].wf());
            }
        }
        assert forall|i: int, k: usize|
            0 <= i < post.edges@.len() && #[trigger] post.edges@[i]@.contains_key(
                k,
            ) implies post.edges@[i].payload_of(post.edges@[i]@[k]).addr
            < post.vertices.capacity() by {
            assert(pre.edges@[i]@.contains_key(k));
        }
        assert(post.targets_ok());
        assert forall|p: (usize, usize)| post.has_edge(p.0, p.1) == pre.has_edge(p.0, p.1) by {
            if pre.vertices@.contains_key(p.0) && pre.vertices@.contains_key(p.1) {
                pre.vertices.lemma_mapped_is_live(p.0);
                pre.vertices.lemma_holds_within(pre.vertices@[p.0]);
                let i = pre.vertices@[p.0].addr as int;
                if i != e {
                    assert(post.list_of(p.0) == pre.list_of(p.0));
                } else {
                    assert(post.list_of(p.0) == post.edges@[e]);
                    assert(pre.list_of(p.0) == pre.edges@[e]);
                    if pre.edges@[e]@.contains_key(p.1) {
                    }
                }
            }
        }
        assert(post@.edges =~= pre@.edges);
    }

    /// Searches the edge list of the live vertex node `vertex` for the place
    /// of the target key `key`, from the head of that list, and returns the
    /// two edge nodes that border it.
    pub fn locate_edge_position(&mut self, vertex: Shared, key: usize, guard: &Session) -> (r: (
        Shared,
        Shared,
    ))
        requires
            old(self).wf(),
            old(self).is_open(guard),
            old(self).vertex_list().is_live(vertex),
        ensures
            final(self).wf(),
            final(self)@ == old(self)@,
            final(self).collector().sessions() == old(self).collector().sessions(),
            final(self).vertex_list() == old(self).vertex_list(),
            final(self).edges_of(vertex)@ == old(self).edges_of(vertex)@,
            final(self).edges_of(vertex).borders(r.0, r.1, key),
            old(self).settled() ==> final(self).edge_lists() == old(self).edge_lists(),
    {
        proof {
            self.vertices.lemma_holds_within(vertex);
        }
        let e: usize = vertex.as_ptr();
        let head = self.edges[e].head();
        proof {
            self.edges@[e as int].lemma_head();
        }
        let ghost before = *self;
        let r = self.edges[e].locate_insert_position(head, key, guard, &mut self.collector);
        proof {
            before.edges@[e as int].lemma_advance_keeps(
                &self.edges@[e as int],
                before.collector.generation(),
            );
            Self::lemma_edge_kept(before, *self, e as int);
        }
        r
    }

    /// Releases, in every list, the retired nodes that no open session can
    /// still reach. The graph stays as it is.
    pub fn collect(&mut self)
        requires
            old(self).wf(),
        ensures
            final(self).wf(),
            final(self)@ == old(self)@,
            final(self).collector() == old(self).collector(),
            final(self).vertex_list()@ == old(self).vertex_list()@,
            old(self).vertex_list().collect_frame(
                &final(self).vertex_list(),
                &old(self).collector(),
            ),
            final(self).edge_lists().len() == old(self).edge_lists().len(),
            forall|e: int|
                0 <= e < old(self).edge_lists().len() ==> (#[trigger] old(self).edge_lists()[e]).collect_frame(
                    &final(self).edge_lists()[e],
                    &old(self).collector(),
                ),
            old(self).settled() ==> final(self).settled(),
    {
        let ghost before = *self;
        self.vertices.collect(&self.collector);
        proof {
            before.vertices.lemma_collect_keeps(&self.vertices, &self.collector);
            assert(before.vertices.stamps_within(before.collector.generation()));
            Self::lemma_vertices_stepped(before, *self);
        }
        let ghost middle = *self;
        let mut e: usize = 0;
        while e < self.edges.len()
            invariant
                self.wf(),
                self@ == before@,
                self.vertices == middle.vertices,
                self.collector == before.collector,
                self.edges@.len() == before.edges@.len(),
                e <= self.edges@.len(),
                forall|i: int|
                    0 <= i < e ==> (#[trigger] before.edges@[i]).collect_frame(
                        &self.edges@[i],
                        &before.collector,
                    ),
                forall|i: int| e <= i < self.edges@.len() ==> self.edges@[i] == before.edges@[i],
                before.settled() ==> self.vertices.settled(),
                before.settled() ==> forall|i: int|
                    0 <= i < e ==> (#[trigger] self.edges@[i]).settled(),
            decreases self.edges@.len() - e,
        {
            let ghost pre = *self;
            self.edges[e].collect(&self.collector);
            proof {
                pre.edges@[e as int].lemma_collect_keeps(&self.edges@[e as int], &self.collector);
                assert(pre.edges@[e as int].stamps_within(pre.collector.generation()));
                Self::lemma_edge_kept(pre, *self, e as int);
                if before.settled() {
                    assert(before.edge_lists()[e as int].settled());
                }
            }
            e += 1;
        }
    }

    /// Ends `session` and releases what no open session can reach any more.
    /// The graph stays as it is.
    pub fn release_session(&mut self, session: Session)
        requires
            old(self).wf(),
        ensures
            final(self).wf(),
            final(self)@ == old(self)@,
            final(self).collector().generation() == old(self).collector().generation(),
            old(self).is_open(&session) ==> exists|i: int|
                crate::collector::first_pin(
                    old(self).collector().sessions(),
                    session.generation(),
                    i,
                ) && final(self).collector().sessions() == old(self).collector().sessions().remove(
                    i,
                ),
            !old(self).is_open(&session) ==> final(self).collector().sessions() == old(
                self,
            ).collector().sessions(),
            old(self).vertex_list().collect_frame(
                &final(self).vertex_list(),
                &final(self).collector(),
            ),
            final(self).edge_lists().len() == old(self).edge_lists().len(),
            forall|e: int|
                0 <= e < old(self).edge_lists().len() ==> (#[trigger] old(self).edge_lists()[e]).collect_frame(
                    &final(self).edge_lists()[e],
                    &final(self).collector(),
                ),
            old(self).settled() ==> final(self).settled(),
    {
        self.collector.leave(session);
        self.collect();
    }

    /// Reads the vertex node `node`, if the vertex list holds it.
    pub fn vertex(&self, node: Shared) -> (r: Option<VertexNode>)
        ensures
            r is Some <==> self.vertex_list().holds(node),
            r matches Some(found) ==> found.key == self.vertex_list().key_of(node)
                && found.first_edge == node && found.next_vertex == self.vertex_list().link_of(
                node,
            ),
    {
        if self.vertices.contains_node(node) {
            Some(
                VertexNode {
                    key: self.vertices.key(node),
                    first_edge: node,
                    next_vertex: self.vertices.link(node),
                },
            )
        } else {
            None
        }
    }

    /// Reads the edge node `node` of the edge list at `place`, if there is
    /// such a list and it holds the node.
    pub fn edge(&self, place: Shared, node: Shared) -> (r: Option<EdgeNode>)
        ensures
            r is Some <==> place.addr < self.edge_lists().len() && self.edge_lists()[place.addr as int].holds(
                node,
            ),
            r matches Some(found) ==> found.key == self.edge_lists()[place.addr as int].key_of(node)
                && found.next_edge == self.edge_lists()[place.addr as int].link_of(node)
                && found.target == self.edge_lists()[place.addr as int].payload_of(node),
    {
        if place.addr < self.edges.len() && self.edges[place.addr].contains_node(node) {
            Some(
                EdgeNode {
                    key: self.edges[place.addr].key(node),
                    next_edge: self.edges[place.addr].link(node),
                    target: self.edges[place.addr].payload(node),
                },
            )
        } else {
            None
        }
    }

    /// What a change of one edge list does to the graph when the view of
    /// that list has changed at the key `target` at most: the graph keeps its
    /// shape and its vertices, and every edge to another target is as it
    /// was.
    proof fn lemma_edge_list_changed(
        pre: ConcurrentGraph,
        post: ConcurrentGraph,
        e: int,
        target: usize,
    )
        requires
            pre.wf(),
            post.vertices == pre.vertices,
            post.collector.wf(),
            post.collector.generation() >= pre.collector.generation(),
            0 <= e < pre.edges@.len(),
            post.edges@.len() == pre.edges@.len(),
            forall|i: int| 0 <= i < pre.edges@.len() && i != e ==> post.edges@[i] == pre.edges@[i],
            post.edges@[e].wf(),
            post.edges@[e].stamps_within(post.collector.generation()),
            forall|k: usize|
                k != target ==> (#[trigger] post.edges@[e]@.contains_key(k))
                    == pre.edges@[e]@.contains_key(k),
            forall|k: usize|
                k != target && #[trigger] pre.edges@[e]@.contains_key(k) ==> post.edges@[e]@[k]
                    == pre.edges@[e]@[k],
            pre.edges@[e].keeps_payloads(&post.edges@[e]),
            post.edges@[e]@.contains_key(target) ==> post.edges@[e].payload_of(
                post.edges@[e]@[target],
            ).addr < pre.vertices.capacity(),
        ensures
            post.wf(),
            post@.vertices == pre@.vertices,
            forall|p: (usize, usize)|
                p.1 != target ==> #[trigger] post@.edges.contains(p) == pre@.edges.contains(p),
    {
        Self::lemma_lists_later(
            pre.edges@,
            pre.collector.generation(),
            post.collector.generation(),
        );
        assert forall|i: int| 0 <= i < post.edges@.len() implies (#[trigger] post.edges@[i]).wf()
            && post.edges@[i].stamps_within(post.collector.generation()) by {
            if i != e {
                assert(pre.edges@[i].wf());
            }
        }
        assert forall|i: int, k: usize|
            0 <= i < post.edges@.len() && #[trigger] post.edges@[i]@.contains_key(
                k,
            ) implies post.edges@[i].payload_of(post.edges@[i]@[k]).addr
            < post.vertices.capacity() by {
            if i != e {
                assert(pre.edges@[i]@.contains_key(k));
            } else if k != target {
                assert(pre.edges@[e]@.contains_key(k));
            }
        }
        assert(post.targets_ok());
        assert forall|p: (usize, usize)| p.1 != target implies #[trigger] post@.edges.contains(p)
            == pre@.edges.contains(p) by {
            if pre.vertices@.contains_key(p.0) && pre.vertices@.contains_key(p.1) {
                pre.vertices.lemma_mapped_is_live(p.0);
                pre.vertices.lemma_holds_within(pre.vertices@[p.0]);
                let i = pre.vertices@[p.0].addr as int;
                if i != e {
                    assert(post.list_of(p.0) == pre.list_of(p.0));
                } else {
                    assert(post.list_of(p.0) == post.edges@[e]);
                    assert(pre.list_of(p.0) == pre.edges@[e]);
                    assert(post.edges@[e]@.contains_key(p.1) == pre.edges@[e]@.contains_key(p.1));
                }
            }
            assert(post.has_edge(p.0, p.1) == pre.has_edge(p.0, p.1));
        }
    }

    /// Takes one step of a search on the vertex list. The graph stays as it
    /// is.
    pub fn vertex_find_step(&mut self, op: &mut FindOp)
        requires
            old(self).wf(),
            old(op).safe(&old(self).vertex_list()),
            old(op).generation <= old(self).collector().generation(),
            old(op).phase != FindPhase::Done,
        ensures
            final(self).wf(),
            final(self)@ == old(self)@,
            *final(op) == old(op).after(old(self).vertex_list().reply(old(op).next_action())),
            old(self).vertex_list().becomes(
                &final(self).vertex_list(),
                old(op).next_action(),
                old(self).collector().generation(),
            ),
            final(self).edge_lists() == old(self).edge_lists(),
            final(self).collector().sessions() == old(self).collector().sessions(),
            final(self).collector().generation() >= old(self).collector().generation(),
    {
        let ghost before = *self;
        op.step(&mut self.vertices, &mut self.collector);
        proof {
            Self::lemma_vertices_stepped(before, *self);
        }
    }

    /// Takes one step of an insertion into the vertex list. The step that
    /// publishes the new vertex adds it to the graph, with an empty edge
    /// list; every other step leaves the graph as it is.
    pub fn vertex_insert_step(&mut self, op: &mut InsertOp)
        requires
            old(self).wf(),
            old(op).safe(&old(self).vertex_list()),
            old(op).find.generation <= old(self).collector().generation(),
            old(op).phase != InsertPhase::Done,
        ensures
            final(self).wf(),
            final(self)@ == if final(op).phase == InsertPhase::Done && final(op).outcome is Some {
                old(self)@.add_vertex(old(op).find.key)
            } else {
                old(self)@
            },
            *final(op) == old(op).after(old(self).vertex_list().reply(old(op).next_action())),
            old(self).vertex_list().becomes(
                &final(self).vertex_list(),
                old(op).next_action(),
                old(self).collector().generation(),
            ),
            final(self).edge_lists().len() >= old(self).edge_lists().len(),
            forall|e: int|
                0 <= e < old(self).edge_lists().len() ==> #[trigger] final(self).edge_lists()[e]
                    == old(self).edge_lists()[e],
            final(self).collector().sessions() == old(self).collector().sessions(),
            final(self).collector().generation() >= old(self).collector().generation(),
    {
        let ghost before = *self;
        op.step(&mut self.vertices, &mut self.collector);
        if op.is_done() && op.outcome.is_some() {
            self.edges.push(NodeList::new());
            proof {
                Self::lemma_vertex_added(before, *self, op.find.key, op.outcome.unwrap());
            }
        } else {
            proof {
                Self::lemma_vertices_stepped(before, *self);
            }
        }
    }

    /// Takes one step of a removal from the vertex list. The step that marks
    /// the vertex removes it from the graph, with every edge that leaves or
    /// reaches it; every other step leaves the graph as it is.
    pub fn vertex_remove_step(&mut self, op: &mut RemoveOp)
        requires
            old(self).wf(),
            old(op).safe(&old(self).vertex_list()),
            old(op).find.generation <= old(self).collector().generation(),
            old(op).phase != RemovePhase::Done,
        ensures
            final(self).wf(),
            final(self)@ == if final(op).has_marked() && !old(op).has_marked() {
                old(self)@.remove_vertex(old(op).find.key)
            } else {
                old(self)@
            },
            *final(op) == old(op).after(old(self).vertex_list().reply(old(op).next_action())),
            old(self).vertex_list().becomes(
                &final(self).vertex_list(),
                old(op).next_action(),
                old(self).collector().generation(),
            ),
            final(self).edge_lists() == old(self).edge_lists(),
            final(self).collector().sessions() == old(self).collector().sessions(),
            final(self).collector().generation() >= old(self).collector().generation(),
    {
        let ghost before = *self;
        op.step(&mut self.vertices, &mut self.collector);
        proof {
            if op.has_marked() && !old(op).has_marked() {
                Self::lemma_vertex_removed(before, *self, op.find.key);
            } else {
                Self::lemma_vertices_stepped(before, *self);
            }
        }
    }

    /// Takes one step of a search on the edge list of the vertex cell
    /// `vertex`. The graph stays as it is.
    pub fn edge_find_step(&mut self, vertex: Shared, op: &mut FindOp)
        requires
            old(self).wf(),
            vertex.addr < old(self).edge_lists().len(),
            old(op).safe(&old(self).edges_of(vertex)),
            old(op).generation <= old(self).collector().generation(),
            old(op).phase != FindPhase::Done,
        ensures
            final(self).wf(),
            final(self)@ == old(self)@,
            *final(op) == old(op).after(old(self).edges_of(vertex).reply(old(op).next_action())),
            old(self).edges_of(vertex).becomes(
                &final(self).edges_of(vertex),
                old(op).next_action(),
                old(self).collector().generation(),
            ),
            final(self).vertex_list() == old(self).vertex_list(),
            final(self).edge_lists().len() == old(self).edge_lists().len(),
            forall|e: int|
                0 <= e < old(self).edge_lists().len() && e != vertex.addr ==> #[trigger] final(self).edge_lists()[e] == old(self).edge_lists()[e],
            final(self).collector().sessions() == old(self).collector().sessions(),
            final(self).collector().generation() >= old(self).collector().generation(),
    {
        let ghost before = *self;
        let e: usize = vertex.as_ptr();
        op.step(&mut self.edges[e], &mut self.collector);
        proof {
            before.edges@[e as int].lemma_advance_keeps(
                &self.edges@[e as int],
                before.collector.generation(),
            );
            Self::lemma_edge_kept(before, *self, e as int);
        }
    }

    /// Takes one step of an insertion into the edge list of the vertex cell
    /// `vertex`. The payload of the insertion refers to the target vertex.
    /// The graph keeps its vertices, and every edge to another target than
    /// the key of the insertion is as it was.
    pub fn edge_insert_step(&mut self, vertex: Shared, op: &mut InsertOp)
        requires
            old(self).wf(),
            vertex.addr < old(self).edge_lists().len(),
            old(op).safe(&old(self).edges_of(vertex)),
            old(op).find.generation <= old(self).collector().generation(),
            old(op).phase != InsertPhase::Done,
            old(op).payload.addr < old(self).vertex_list().capacity(),
        ensures
            final(self).wf(),
            final(self)@.vertices == old(self)@.vertices,
            forall|p: (usize, usize)|
                p.1 != old(op).find.key ==> #[trigger] final(self)@.edges.contains(p) == old(
                    self,
                )@.edges.contains(p),
            *final(op) == old(op).after(old(self).edges_of(vertex).reply(old(op).next_action())),
            old(self).edges_of(vertex).becomes(
                &final(self).edges_of(vertex),
                old(op).next_action(),
                old(self).collector().generation(),
            ),
            final(self).vertex_list() == old(self).vertex_list(),
            final(self).edge_lists().len() == old(self).edge_lists().len(),
            forall|e: int|
                0 <= e < old(self).edge_lists().len() && e != vertex.addr ==> #[trigger] final(self).edge_lists()[e] == old(self).edge_lists()[e],
            final(self).collector().sessions() == old(self).collector().sessions(),
            final(self).collector().generation() >= old(self).collector().generation(),
    {
        let ghost before = *self;
        let e: usize = vertex.as_ptr();
        op.step(&mut self.edges[e], &mut self.collector);
        proof {
            before.edges@[e as int].lemma_advance_keeps(
                &self.edges@[e as int],
                before.collector.generation(),
            );
            Self::lemma_edge_list_changed(before, *self, e as int, op.find.key);
        }
    }

    /// Takes one step of a removal from the edge list of the vertex cell
    /// `vertex`. The graph keeps its vertices, and every edge to another
    /// target than the key of the removal is as it was.
    pub fn edge_remove_step(&mut self, vertex: Shared, op: &mut RemoveOp)
        requires
            old(self).wf(),
            vertex.addr < old(self).edge_lists().len(),
            old(op).safe(&old(self).edges_of(vertex)),
            old(op).find.generation <= old(self).collector().generation(),
            old(op).phase != RemovePhase::Done,
        ensures
            final(self).wf(),
            final(self)@.vertices == old(self)@.vertices,
            forall|p: (usize, usize)|
                p.1 != old(op).find.key ==> #[trigger] final(self)@.edges.contains(p) == old(
                    self,
                )@.edges.contains(p),
            *final(op) == old(op).after(old(self).edges_of(vertex).reply(old(op).next_action())),
            old(self).edges_of(vertex).becomes(
                &final(self).edges_of(vertex),
                old(op).next_action(),
                old(self).collector().generation(),
            ),
            final(self).vertex_list() == old(self).vertex_list(),
            final(self).edge_lists().len() == old(self).edge_lists().len(),
            forall|e: int|
                0 <= e < old(self).edge_lists().len() && e != vertex.addr ==> #[trigger] final(self).edge_lists()[e] == old(self).edge_lists()[e],
            final(self).collector().sessions() == old(self).collector().sessions(),
            final(self).collector().generation() >= old(self).collector().generation(),
    {
        let ghost before = *self;
        let e: usize = vertex.as_ptr();
        op.step(&mut self.edges[e], &mut self.collector);
        proof {
            before.edges@[e as int].lemma_advance_keeps(
                &self.edges@[e as int],
                before.collector.generation(),
            );
            Self::lemma_edge_list_changed(before, *self, e as int, op.find.key);
        }
    }

    /// Begins a session and hands out the graph bound to it: every operation
    /// of the result runs in that session.
    pub fn pin(&mut self) -> (r: GraphRef<'_>)
        requires
            old(self).wf(),
        ensures
            r.wf(),
            r.graph()@ == old(self)@,
            r.graph().vertex_list() == old(self).vertex_list(),
            r.graph().edge_lists() == old(self).edge_lists(),
            r.guard().generation() == old(self).collector().generation(),
            r.graph().collector().generation() == old(self).collector().generation(),
            r.graph().collector().sessions() == old(self).collector().sessions().push(
                old(self).collector().generation(),
            ),
            *final(self) == *final(r.graph),
    {
        let guard = self.collector.enter();
        GraphRef { graph: self, guard }
    }
}

/// A graph together with an open session on it. The session ends with
/// `release`; until it does, no node retired since it began is released.
pub struct GraphRef<'graph> {
    pub graph: &'graph mut ConcurrentGraph,
    pub guard: Session,
}

impl<'graph> GraphRef<'graph> {
    /// The graph.
    pub open spec fn graph(&self) -> ConcurrentGraph {
        *self.graph
    }

    /// The session.
    pub open spec fn guard(&self) -> Session {
        self.guard
    }

    /// The graph is well-formed and the session is open on it.
    pub open spec fn wf(&self) -> bool {
        self.graph().wf() && self.graph().is_open(&self.guard())
    }

    /// Adds the vertex `key`; see `ConcurrentGraph::add_node`.
    pub fn add_node(&mut self, key: usize) -> (r: bool)
        requires
            old(self).wf(),
        ensures
            final(self).wf(),
            final(self).guard() == old(self).guard(),
            r == !old(self).graph()@.vertices.contains(key),
            final(self).graph()@ == old(self).graph()@.add_vertex(key),
    {
        self.graph.add_node(key, &self.guard)
    }

    /// Removes the vertex `key`; see `ConcurrentGraph::remove_vertex`.
    pub fn remove_vertex(&mut self, key: usize) -> (r: bool)
        requires
            old(self).wf(),
        ensures
            final(self).wf(),
            final(self).guard() == old(self).guard(),
            r == old(self).graph()@.vertices.contains(key),
            final(self).graph()@ == old(self).graph()@.remove_vertex(key),
    {
        self.graph.remove_vertex(key, &self.guard)
    }

    /// Reports whether `key` is a live vertex.
    pub fn contains_vertex(&mut self, key: usize) -> (r: bool)
        requires
            old(self).wf(),
        ensures
            final(self).wf(),
            final(self).guard() == old(self).guard(),
            r == old(self).graph()@.vertices.contains(key),
            final(self).graph()@ == old(self).graph()@,
    {
        self.graph.contains_vertex(key, &self.guard)
    }

    /// Adds the edge from `source` to `target`; see
    /// `ConcurrentGraph::add_edge`.
    pub fn add_edge(&mut self, source: usize, target: usize) -> (r: Result<(), VertexNotFound>)
        requires
            old(self).wf(),
        ensures
            final(self).wf(),
            final(self).guard() == old(self).guard(),
            r is Ok <==> old(self).graph()@.vertices.contains(source) && old(
                self,
            ).graph()@.vertices.contains(target),
            final(self).graph()@ == old(self).graph()@.add_edge(source, target),
    {
        self.graph.add_edge(source, target, &self.guard)
    }

    /// Removes the edge from `source` to `target`; see
    /// `ConcurrentGraph::remove_edge`.
    pub fn remove_edge(&mut self, source: usize, target: usize) -> (r: bool)
        requires
            old(self).wf(),
        ensures
            final(self).wf(),
            final(self).guard() == old(self).guard(),
            r == old(self).graph()@.has_edge(source, target),
            final(self).graph()@ == old(self).graph()@.remove_edge(source, target),
    {
        self.graph.remove_edge(source, target, &self.guard)
    }

    /// Reports whether the graph has the edge from `source` to `target`.
    pub fn contains_edge(&mut self, source: usize, target: usize) -> (r: bool)
        requires
            old(self).wf(),
        ensures
            final(self).wf(),
            final(self).guard() == old(self).guard(),
            r == old(self).graph()@.has_edge(source, target),
            final(self).graph()@ == old(self).graph()@,
    {
        self.graph.contains_edge(source, target, &self.guard)
    }

    /// Locates the live vertex nodes of `source` and `target`; see
    /// `ConcurrentGraph::locate_both`.
    pub fn locate_both(&mut self, source: usize, target: usize) -> (r: (Shared, Shared))
        requires
            old(self).wf(),
        ensures
            final(self).wf(),
            final(self).guard() == old(self).guard(),
            final(self).graph()@ == old(self).graph()@,
            final(self).graph().vertex_list()@ == old(self).graph().vertex_list()@,
            old(self).graph()@.vertices.contains(source) && old(self).graph()@.vertices.contains(
                target,
            ) ==> r == (
                old(self).graph().vertex_list()@[source],
                old(self).graph().vertex_list()@[target],
            ),
            !r.0.is_null() <==> old(self).graph()@.vertices.contains(source) && old(
                self,
            ).graph()@.vertices.contains(target),
            r.0.is_null() ==> r.1.is_null(),
    {
        self.graph.locate_both(source, target, &self.guard)
    }

    /// Ends the session and releases what no open session can reach any
    /// more. The graph stays as it is.
    pub fn release(self)
        requires
            self.wf(),
        ensures
            final(self.graph).wf(),
            final(self.graph)@ == self.graph()@,
            final(self.graph).collector().generation() == self.graph().collector().generation(),
            exists|i: int|
                crate::collector::first_pin(
                    self.graph().collector().sessions(),
                    self.guard().generation(),
                    i,
                ) && final(self.graph).collector().sessions()
                    == self.graph().collector().sessions().remove(i),
    {
        let GraphRef { graph, guard } = self;
        graph.release_session(guard);
    }
}

} // verus!
