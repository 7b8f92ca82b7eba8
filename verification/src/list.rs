//! The ordered node list: its cells, its shape and its atomic steps.

use vstd::prelude::*;
use crate::atomic::Atomic;
use crate::collector::Collector;
use crate::key::NodeKey;
use crate::marking::Marking;
use crate::protocol::Action;
use crate::protocol::Event;
use crate::shared::Shared;
use crate::shared::NULL_ADDR;

verus! {

/// One node: an immutable key and payload, the link cell that carries the
/// node's own mark, and the stamp it got when it was retired.
#[derive(Clone, Copy, Debug)]
struct Node {
    key: NodeKey,
    next: Atomic,
    payload: Shared,
    retired: Option<u64>,
}

/// The life of a node. It is live until it is marked, which deletes it
/// logically; linked until it is unlinked, which retires it; and in its cell
/// until a collection releases it. No node goes back, and no cell is used
/// again.
#[derive(Clone, Copy, PartialEq, Eq, Structural, Debug)]
pub enum Lifecycle {
    Live,
    LogicallyDeleted,
    Unlinked,
    Reclaimed,
}

impl Lifecycle {
    /// The place of the stage in the order of a node's life.
    pub open spec fn rank(self) -> int {
        match self {
            Lifecycle::Live => 0,
            Lifecycle::LogicallyDeleted => 1,
            Lifecycle::Unlinked => 2,
            Lifecycle::Reclaimed => 3,
        }
    }
}

/// An ordered singly-linked list of nodes, held in cells that are never
/// reused. Cell 0 is the sentinel. A node is linked (on the chain from the
/// sentinel) until it is unlinked, which retires it; a retired node keeps its
/// cell until `collect` releases it.
pub struct NodeList {
    cells: Vec<Option<Node>>,
    chain: Ghost<Seq<Shared>>,
}

impl View for NodeList {
    type V = Map<usize, Shared>;

    /// The live nodes by key: for every key that has a live node, that node.
    closed spec fn view(&self) -> Map<usize, Shared> {
        Map::new(
            |key: usize| exists|x: Shared| #[trigger] self.is_live_with(x, key),
            |key: usize| choose|x: Shared| #[trigger] self.is_live_with(x, key),
        )
    }
}

impl NodeList {
    /// The reference to the sentinel.
    pub open spec fn head_spec() -> Shared {
        Shared { addr: 0 }
    }

    /// Whether `node` names a cell that holds a node.
    pub closed spec fn holds(&self, node: Shared) -> bool {
        node.addr < self.cells@.len() && self.cells@[node.addr as int] is Some
    }

    /// The key of the node that `node` names.
    pub closed spec fn key_of(&self, node: Shared) -> NodeKey {
        self.cells@[node.addr as int].unwrap().key
    }

    /// The payload of the node that `node` names.
    pub closed spec fn payload_of(&self, node: Shared) -> Shared {
        self.cells@[node.addr as int].unwrap().payload
    }

    /// What the link cell of the node holds: its successor and its own mark.
    pub closed spec fn link_of(&self, node: Shared) -> Marking<Shared> {
        self.cells@[node.addr as int].unwrap().next@
    }

    /// The stamp of the node if it has been retired.
    pub closed spec fn stamp_of(&self, node: Shared) -> Option<u64> {
        self.cells@[node.addr as int].unwrap().retired
    }

    /// How many cells the list has handed out.
    pub closed spec fn capacity(&self) -> nat {
        self.cells@.len()
    }

    /// Whether a session that pins `generation` keeps `node` from being
    /// released: the node is there, and if retired, not before `generation`.
    pub open spec fn protects(&self, node: Shared, generation: u64) -> bool {
        &&& self.holds(node)
        &&& self.stamp_of(node) matches Some(stamp) ==> stamp >= generation
    }

    /// Whether `node` is live: a real node, linked and unmarked.
    pub open spec fn is_live(&self, node: Shared) -> bool {
        &&& self.holds(node)
        &&& node != Self::head_spec()
        &&& self.stamp_of(node) is None
        &&& !self.link_of(node).marked()
    }

    /// Whether `node` is the live node with key `key`.
    pub open spec fn is_live_with(&self, node: Shared, key: usize) -> bool {
        self.is_live(node) && self.key_of(node) == NodeKey::Finite(key)
    }

    /// Whether the node named by `node` is the same in `later` as in `self`.
    pub open spec fn unchanged_at(&self, later: &NodeList, node: Shared) -> bool {
        &&& later.holds(node)
        &&& later.key_of(node) == self.key_of(node)
        &&& later.payload_of(node) == self.payload_of(node)
        &&& later.stamp_of(node) == self.stamp_of(node)
        &&& later.link_of(node) == self.link_of(node)
    }

    /// What every atomic step leaves in place for the other operations: no
    /// node goes away, keys and payloads stay, a marked link cell is frozen, a
    /// stamp once given stays, and a new stamp is at least `generation`.
    pub open spec fn advances_to(&self, later: &NodeList, generation: u64) -> bool {
        &&& self.capacity() <= later.capacity()
        &&& forall|x: Shared| #[trigger]
            self.holds(x) ==> {
                &&& later.holds(x)
                &&& later.key_of(x) == self.key_of(x)
                &&& later.payload_of(x) == self.payload_of(x)
                &&& self.link_of(x).marked() ==> later.link_of(x) == self.link_of(x)
                &&& self.stamp_of(x) is Some ==> later.stamp_of(x) == self.stamp_of(x)
                &&& self.stamp_of(x) is None ==> (later.stamp_of(x) matches Some(stamp) ==> stamp
                    >= generation)
            }
        &&& forall|x: Shared| #[trigger] later.holds(x) ==> self.holds(x) || x.addr >= self.capacity()
    }

    /// Where the node in the cell `node` stands in its life.
    pub open spec fn stage_of(&self, node: Shared) -> Lifecycle {
        if !self.holds(node) {
            Lifecycle::Reclaimed
        } else if self.stamp_of(node) is Some {
            Lifecycle::Unlinked
        } else if self.link_of(node).marked() {
            Lifecycle::LogicallyDeleted
        } else {
            Lifecycle::Live
        }
    }

    /// No node goes back in its life: after an atomic step, every cell that
    /// was handed out holds its node at the same stage or a later one.
    pub proof fn lemma_stage_advances(&self, later: &NodeList, generation: u64, node: Shared)
        requires
            self.advances_to(later, generation),
            node.addr < self.capacity(),
        ensures
            self.stage_of(node).rank() <= later.stage_of(node).rank(),
    {
        if later.holds(node) {
            assert(self.holds(node));
        }
    }

    /// No node goes back in its life: after a collection, every cell holds
    /// its node at the same stage, or has been released.
    pub proof fn lemma_stage_after_collect(&self, later: &NodeList, collector: &Collector, node: Shared)
        requires
            self.collect_frame(later, collector),
        ensures
            later.stage_of(node) == self.stage_of(node) || later.stage_of(node)
                == Lifecycle::Reclaimed,
            later.stage_of(node) is Reclaimed <==> self.stage_of(node) is Reclaimed
                || self.releases(node, collector),
    {
        if later.holds(node) {
            assert(self.holds(node));
        }
    }

    /// Whether every stamp in the list is at most `generation`.
    pub open spec fn stamps_within(&self, generation: u64) -> bool {
        forall|x: Shared| #[trigger]
            self.holds(x) ==> (self.stamp_of(x) matches Some(stamp) ==> stamp <= generation)
    }

    /// Whether the node at place `i` of the chain is there, not retired, and
    /// linked to the node at the next place, or to null at the end.
    spec fn linked(&self, i: int) -> bool {
        let x = self.chain@[i];
        &&& self.holds(x)
        &&& self.stamp_of(x) is None
        &&& self.link_of(x).inner() == if i + 1 < self.chain@.len() {
            self.chain@[i + 1]
        } else {
            Shared { addr: NULL_ADDR }
        }
    }

    /// Whether the node `x` is in its place: only the sentinel lacks a
    /// finite key; a node that is not retired is on the chain; a retired
    /// node is marked; and the link leads to a node that is there, has a
    /// greater key and was not retired earlier.
    spec fn sound(&self, x: Shared) -> bool {
        let next = self.link_of(x).inner();
        &&& x != Self::head_spec() ==> self.key_of(x) is Finite
        &&& self.stamp_of(x) is None ==> self.chain@.contains(x)
        &&& self.stamp_of(x) is Some ==> self.link_of(x).marked()
        &&& !next.is_null() ==> {
            &&& self.holds(next)
            &&& self.key_of(x).rank() < self.key_of(next).rank()
            &&& self.stamp_of(next) is Some ==> self.stamp_of(x) is Some && self.stamp_of(
                x,
            ).unwrap() <= self.stamp_of(next).unwrap()
        }
    }

    /// The shape of the list. The chain starts at the sentinel, follows the
    /// links to null and ascends strictly by key; the sentinel is unmarked and
    /// alone has the key below all others; every node off the chain is
    /// retired and marked; a link leads to a node that is there, has a greater
    /// key and was not retired before the node that holds the link.
    pub closed spec fn wf(&self) -> bool {
        &&& self.chain@.len() >= 1
        &&& self.chain@[0] == Self::head_spec()
        &&& self.holds(Self::head_spec())
        &&& self.key_of(Self::head_spec()) is NegInfinite
        &&& !self.link_of(Self::head_spec()).marked()
        &&& forall|i: int| 0 <= i < self.chain@.len() ==> #[trigger] self.linked(i)
        &&& forall|i: int, j: int|
            #![trigger self.chain@[i], self.chain@[j]]
            0 <= i < j < self.chain@.len() ==> self.key_of(self.chain@[i]).rank() < self.key_of(
                self.chain@[j],
            ).rank()
        &&& forall|x: Shared| #[trigger] self.holds(x) ==> self.sound(x)
    }

    /// A node that is there is not null.
    pub proof fn lemma_holds_not_null(&self, x: Shared)
        requires
            self.holds(x),
        ensures
            !x.is_null(),
    {
        broadcast use vstd::std_specs::vec::axiom_spec_len;

        assert(self.cells@.len() == self.cells.len());
    }

    /// A node that is there lies within the cells handed out.
    pub proof fn lemma_holds_within(&self, x: Shared)
        requires
            self.holds(x),
        ensures
            x.addr < self.capacity(),
    {
    }

    /// The place on the chain of a node that is there and not retired.
    proof fn place(&self, x: Shared) -> (i: int)
        requires
            self.wf(),
            self.holds(x),
            self.stamp_of(x) is None,
        ensures
            0 <= i < self.chain@.len(),
            self.chain@[i] == x,
    {
        assert(self.sound(x));
        let i = choose|i: int| 0 <= i < self.chain@.len() && self.chain@[i] == x;
        i
    }

    /// Two places on the chain hold different nodes.
    proof fn lemma_places_differ(&self, i: int, j: int)
        requires
            self.wf(),
            0 <= i < self.chain@.len(),
            0 <= j < self.chain@.len(),
            i != j,
        ensures
            self.chain@[i] != self.chain@[j],
    {
        if i < j {
            assert(self.key_of(self.chain@[i]).rank() < self.key_of(self.chain@[j]).rank());
        } else {
            assert(self.key_of(self.chain@[j]).rank() < self.key_of(self.chain@[i]).rank());
        }
    }

    /// At most one live node has a given key.
    pub proof fn lemma_live_unique(&self, x: Shared, y: Shared, key: usize)
        requires
            self.wf(),
            self.is_live_with(x, key),
            self.is_live_with(y, key),
        ensures
            x == y,
    {
        let i = self.place(x);
        let j = self.place(y);
        if i != j {
            self.lemma_places_differ(i, j);
            if i < j {
                assert(self.key_of(self.chain@[i]).rank() < self.key_of(self.chain@[j]).rank());
            } else {
                assert(self.key_of(self.chain@[j]).rank() < self.key_of(self.chain@[i]).rank());
            }
        }
    }

    /// The live node with key `key` is what the view holds at `key`.
    pub proof fn lemma_live_is_mapped(&self, x: Shared, key: usize)
        requires
            self.wf(),
            self.is_live_with(x, key),
        ensures
            self@.contains_key(key),
            self@[key] == x,
    {
        let y = choose|y: Shared| #[trigger] self.is_live_with(y, key);
        self.lemma_live_unique(x, y, key);
    }

    /// What the view holds at `key` is the live node with that key.
    pub proof fn lemma_mapped_is_live(&self, key: usize)
        requires
            self@.contains_key(key),
        ensures
            self.is_live_with(self@[key], key),
    {
    }

    /// Stamps that are within a generation are within every later one.
    pub proof fn lemma_stamps_within_later(&self, earlier: u64, later: u64)
        requires
            self.stamps_within(earlier),
            earlier <= later,
        ensures
            self.stamps_within(later),
    {
    }

    /// A list that holds the sentinel and nothing else.
    pub fn new() -> (r: NodeList)
        ensures
            r.wf(),
            r@ == Map::<usize, Shared>::empty(),
            r.stamps_within(0),
            r.capacity() == 1,
            r.link_of(Self::head_spec()) == Marking::Unmarked(Shared { addr: NULL_ADDR }),
            r.settled(),
    {
        let mut cells: Vec<Option<Node>> = Vec::new();
        cells.push(
            Some(
                Node {
                    key: NodeKey::NegInfinite,
                    next: Atomic::null(),
                    payload: Shared::null(),
                    retired: None,
                },
            ),
        );
        let r = NodeList { cells, chain: Ghost(Seq::<Shared>::empty().push(Shared { addr: 0 })) };
        proof {
            assert(r.linked(0));
            assert forall|x: Shared| #[trigger] r.holds(x) implies r.sound(x) by {
                assert(x == Self::head_spec());
                assert(r.chain@[0] == x);
            }
            assert(r@ =~= Map::<usize, Shared>::empty()) by {
                assert forall|key: usize| !r@.contains_key(key) by {
                    if r@.contains_key(key) {
                        r.lemma_mapped_is_live(key);
                    }
                }
            }
        }
        r
    }

    /// The reference to the sentinel.
    pub fn head(&self) -> (r: Shared)
        ensures
            r == Self::head_spec(),
    {
        Shared::from(0)
    }

    /// Reports whether `node` names a cell that holds a node.
    pub fn contains_node(&self, node: Shared) -> (r: bool)
        ensures
            r == self.holds(node),
    {
        node.addr < self.cells.len() && self.cells[node.addr].is_some()
    }

    /// Reports whether `node` is live: a real node, linked and unmarked.
    pub fn alive(&self, node: Shared) -> (r: bool)
        ensures
            r == self.is_live(node),
    {
        if node.addr == 0 || node.addr >= self.cells.len() {
            return false;
        }
        match self.cells[node.addr] {
            Some(found) => found.retired.is_none() && !found.next.load().is_marked(),
            None => false,
        }
    }

    /// Reports where the node in the cell `node` stands in its life; `None`
    /// for a cell that was never handed out.
    pub fn stage(&self, node: Shared) -> (r: Option<Lifecycle>)
        ensures
            r is Some <==> node.addr < self.capacity(),
            r matches Some(stage) ==> stage == self.stage_of(node),
    {
        if node.addr >= self.cells.len() {
            return None;
        }
        match self.cells[node.addr] {
            None => Some(Lifecycle::Reclaimed),
            Some(found) => if found.retired.is_some() {
                Some(Lifecycle::Unlinked)
            } else if found.next.load().is_marked() {
                Some(Lifecycle::LogicallyDeleted)
            } else {
                Some(Lifecycle::Live)
            },
        }
    }

    /// Reads the key of a node.
    pub fn key(&self, node: Shared) -> (r: NodeKey)
        requires
            self.holds(node),
        ensures
            r == self.key_of(node),
    {
        self.cells[node.addr].unwrap().key
    }

    /// Reads the payload of a node.
    pub fn payload(&self, node: Shared) -> (r: Shared)
        requires
            self.holds(node),
        ensures
            r == self.payload_of(node),
    {
        self.cells[node.addr].unwrap().payload
    }

    /// Reads the link cell of a node as it is now. What is read from a node
    /// that no session protects may name a cell that is released later.
    pub fn link(&self, node: Shared) -> (r: Marking<Shared>)
        requires
            self.holds(node),
        ensures
            r == self.link_of(node),
    {
        self.cells[node.addr].unwrap().next.load()
    }

    /// Reads the stamp that a node got when it was retired, if it was.
    pub fn stamp(&self, node: Shared) -> (r: Option<u64>)
        requires
            self.holds(node),
        ensures
            r == self.stamp_of(node),
    {
        self.cells[node.addr].unwrap().retired
    }

    /// Reads the link cell of a node for a session that pins `generation`.
    /// A successor read from a node that the session protects is protected by
    /// it as well, and has a greater key.
    pub fn load(&self, node: Shared, generation: u64) -> (r: Marking<Shared>)
        requires
            self.wf(),
            self.protects(node, generation),
        ensures
            r == self.link_of(node),
            !r.inner().is_null() ==> self.protects(r.inner(), generation) && self.key_of(
                node,
            ).rank() < self.key_of(r.inner()).rank(),
    {
        proof {
            assert(self.sound(node));
        }
        self.cells[node.addr].unwrap().next.load()
    }

    /// What a successful `try_link` does: a new live node `fresh` with key
    /// `key` stands in a new cell behind `pred`, and nothing else changes.
    pub open spec fn links(
        &self,
        later: &NodeList,
        pred: Shared,
        fresh: Shared,
        key: usize,
        payload: Shared,
    ) -> bool {
        &&& fresh.addr == self.capacity()
        &&& !fresh.is_null()
        &&& later.capacity() == self.capacity() + 1
        &&& !self@.contains_key(key)
        &&& later@ == self@.insert(key, fresh)
        &&& self.link_frame(later, pred, fresh, key, payload)
    }

    /// The cells after a successful `try_link`, node by node.
    pub open spec fn link_frame(
        &self,
        later: &NodeList,
        pred: Shared,
        fresh: Shared,
        key: usize,
        payload: Shared,
    ) -> bool {
        &&& !self.holds(fresh)
        &&& later.is_live_with(fresh, key)
        &&& later.payload_of(fresh) == payload
        &&& later.link_of(fresh) == self.link_of(pred)
        &&& later.holds(pred)
        &&& later.key_of(pred) == self.key_of(pred)
        &&& later.payload_of(pred) == self.payload_of(pred)
        &&& later.stamp_of(pred) == self.stamp_of(pred)
        &&& later.link_of(pred) == Marking::Unmarked(fresh)
        &&& forall|x: Shared| #[trigger] self.holds(x) && x != pred ==> self.unchanged_at(later, x)
        &&& forall|x: Shared| #[trigger] later.holds(x) ==> self.holds(x) || x == fresh
    }

    /// What a successful `try_mark` does: the live node `curr` with key `key`
    /// is marked, which takes its key out of the view; nothing else changes.
    pub open spec fn marks(&self, later: &NodeList, curr: Shared, key: usize) -> bool {
        &&& self@.contains_key(key)
        &&& self@[key] == curr
        &&& later@ == self@.remove(key)
        &&& later.capacity() == self.capacity()
        &&& self.mark_frame(later, curr)
    }

    /// The cells after a successful `try_mark`, node by node.
    pub open spec fn mark_frame(&self, later: &NodeList, curr: Shared) -> bool {
        &&& later.holds(curr)
        &&& later.key_of(curr) == self.key_of(curr)
        &&& later.payload_of(curr) == self.payload_of(curr)
        &&& later.stamp_of(curr) == self.stamp_of(curr)
        &&& !self.link_of(curr).marked()
        &&& later.link_of(curr) == Marking::Marked(self.link_of(curr).inner())
        &&& forall|x: Shared| #[trigger] self.holds(x) && x != curr ==> self.unchanged_at(later, x)
        &&& forall|x: Shared| #[trigger] later.holds(x) ==> self.holds(x)
    }

    /// What a successful `try_unlink` does: the link of `pred` skips the
    /// marked node `curr`, which is retired with `stamp`; the view and every
    /// other node stay as they are.
    pub open spec fn unlinks(&self, later: &NodeList, pred: Shared, curr: Shared, stamp: u64) -> bool {
        &&& later@ == self@
        &&& later.capacity() == self.capacity()
        &&& self.unlink_frame(later, pred, curr, stamp)
    }

    /// The cells after a successful `try_unlink`, node by node.
    pub open spec fn unlink_frame(
        &self,
        later: &NodeList,
        pred: Shared,
        curr: Shared,
        stamp: u64,
    ) -> bool {
        &&& pred != curr
        &&& later.holds(pred)
        &&& later.key_of(pred) == self.key_of(pred)
        &&& later.payload_of(pred) == self.payload_of(pred)
        &&& later.stamp_of(pred) == self.stamp_of(pred)
        &&& later.link_of(pred) == Marking::Unmarked(self.link_of(curr).inner())
        &&& later.holds(curr)
        &&& later.key_of(curr) == self.key_of(curr)
        &&& later.payload_of(curr) == self.payload_of(curr)
        &&& later.link_of(curr) == self.link_of(curr)
        &&& self.stamp_of(curr) is None
        &&& later.stamp_of(curr) == Some(stamp)
        &&& forall|x: Shared| #[trigger]
            self.holds(x) && x != pred && x != curr ==> self.unchanged_at(later, x)
        &&& forall|x: Shared| #[trigger] later.holds(x) ==> self.holds(x)
    }

    /// Whether `collect` releases `node`: it is retired and no open session
    /// began at or before its stamp.
    pub open spec fn releases(&self, node: Shared, collector: &Collector) -> bool {
        self.stamp_of(node) matches Some(stamp) && collector.reclaimable(stamp)
    }

    /// The cells after `collect`, node by node.
    pub open spec fn collect_frame(&self, later: &NodeList, collector: &Collector) -> bool {
        &&& forall|x: Shared| #[trigger]
            self.holds(x) ==> if self.releases(x, collector) {
                !later.holds(x)
            } else {
                self.unchanged_at(later, x)
            }
        &&& forall|x: Shared| #[trigger] later.holds(x) ==> self.holds(x)
    }

    /// Whether every live node of `self` has the same payload in `later`.
    pub open spec fn keeps_payloads(&self, later: &NodeList) -> bool {
        forall|k: usize| #[trigger]
            self@.contains_key(k) ==> later.payload_of(self@[k]) == self.payload_of(self@[k])
    }

    /// Atomic steps keep the payloads of the live nodes.
    pub proof fn lemma_advance_keeps(&self, later: &NodeList, generation: u64)
        requires
            self.advances_to(later, generation),
        ensures
            self.keeps_payloads(later),
    {
        assert forall|k: usize| #[trigger] self@.contains_key(k) implies later.payload_of(self@[k])
            == self.payload_of(self@[k]) by {
            self.lemma_mapped_is_live(k);
        }
    }

    /// A collection keeps the live nodes and their payloads.
    pub proof fn lemma_collect_keeps(&self, later: &NodeList, collector: &Collector)
        requires
            self.collect_frame(later, collector),
        ensures
            self.keeps_payloads(later),
            forall|generation: u64|
                self.stamps_within(generation) ==> #[trigger] later.stamps_within(generation),
    {
        assert forall|k: usize| #[trigger] self@.contains_key(k) implies later.payload_of(self@[k])
            == self.payload_of(self@[k]) by {
            self.lemma_mapped_is_live(k);
        }
        assert forall|generation: u64| self.stamps_within(generation) implies #[trigger]
            later.stamps_within(generation) by {
            assert forall|x: Shared| #[trigger] later.holds(x) implies (later.stamp_of(
                x,
            ) matches Some(stamp) ==> stamp <= generation) by {
                assert(self.holds(x));
            }
        }
    }

    /// No node is released while a session that protects it is open: a node
    /// protected for `generation` is there after a collection, and unchanged,
    /// as long as some open session pins `generation`.
    pub proof fn lemma_protected_survives(
        &self,
        later: &NodeList,
        collector: &Collector,
        node: Shared,
        generation: u64,
    )
        requires
            self.collect_frame(later, collector),
            collector.pins(generation),
            self.protects(node, generation),
        ensures
            !self.releases(node, collector),
            self.unchanged_at(later, node),
            later.protects(node, generation),
    {
        let i = choose|i: int|
            0 <= i < collector.sessions().len() && collector.sessions()[i] == generation;
        assert(collector.sessions()[i] == generation);
    }

    /// An atomic step releases nothing: a node protected for a generation
    /// that has begun is protected after the step.
    pub proof fn lemma_protected_advances(
        &self,
        later: &NodeList,
        now: u64,
        node: Shared,
        generation: u64,
    )
        requires
            self.advances_to(later, now),
            generation <= now,
            self.protects(node, generation),
        ensures
            later.protects(node, generation),
            later.key_of(node) == self.key_of(node),
            later.payload_of(node) == self.payload_of(node),
    {
    }

    /// Two lists with the same live nodes have the same view.
    proof fn lemma_view_same(pre: NodeList, post: NodeList)
        requires
            pre.wf(),
            post.wf(),
            forall|x: Shared, k: usize| #[trigger]
                post.is_live_with(x, k) <==> pre.is_live_with(x, k),
        ensures
            post@ == pre@,
    {
        assert forall|k: usize| #[trigger] post@.contains_key(k) == pre@.contains_key(k) && (
        pre@.contains_key(k) ==> post@[k] == pre@[k]) by {
            if pre@.contains_key(k) {
                pre.lemma_mapped_is_live(k);
                assert(post.is_live_with(pre@[k], k));
                post.lemma_live_is_mapped(pre@[k], k);
            }
            if post@.contains_key(k) {
                post.lemma_mapped_is_live(k);
                assert(pre.is_live_with(post@[k], k));
                pre.lemma_live_is_mapped(post@[k], k);
            }
        }
        assert(post@ =~= pre@);
    }

    /// A list that gained one live node gained its key in the view.
    proof fn lemma_view_gains(pre: NodeList, post: NodeList, fresh: Shared, key: usize)
        requires
            pre.wf(),
            post.wf(),
            !pre@.contains_key(key),
            forall|x: Shared, k: usize| #[trigger]
                post.is_live_with(x, k) <==> pre.is_live_with(x, k) || (x == fresh && k == key),
        ensures
            post@ == pre@.insert(key, fresh),
    {
        let goal = pre@.insert(key, fresh);
        assert forall|k: usize| #[trigger] post@.contains_key(k) == goal.contains_key(k) && (
        goal.contains_key(k) ==> post@[k] == goal[k]) by {
            if k == key {
                assert(post.is_live_with(fresh, key));
                post.lemma_live_is_mapped(fresh, key);
            } else {
                if pre@.contains_key(k) {
                    pre.lemma_mapped_is_live(k);
                    assert(post.is_live_with(pre@[k], k));
                    post.lemma_live_is_mapped(pre@[k], k);
                }
                if post@.contains_key(k) {
                    post.lemma_mapped_is_live(k);
                    assert(pre.is_live_with(post@[k], k));
                    pre.lemma_live_is_mapped(post@[k], k);
                }
            }
        }
        assert(post@ =~= goal);
    }

    /// A list that lost one live node lost its key in the view.
    proof fn lemma_view_loses(pre: NodeList, post: NodeList, gone: Shared, key: usize)
        requires
            pre.wf(),
            post.wf(),
            pre.is_live_with(gone, key),
            forall|x: Shared, k: usize| #[trigger]
                post.is_live_with(x, k) <==> pre.is_live_with(x, k) && x != gone,
        ensures
            pre@.contains_key(key),
            pre@[key] == gone,
            post@ == pre@.remove(key),
    {
        pre.lemma_live_is_mapped(gone, key);
        let goal = pre@.remove(key);
        assert forall|k: usize| #[trigger] post@.contains_key(k) == goal.contains_key(k) && (
        goal.contains_key(k) ==> post@[k] == goal[k]) by {
            if post@.contains_key(k) {
                post.lemma_mapped_is_live(k);
                assert(pre.is_live_with(post@[k], k));
                pre.lemma_live_is_mapped(post@[k], k);
                if k == key {
                    pre.lemma_live_unique(post@[k], gone, key);
                }
            }
            if pre@.contains_key(k) && k != key {
                pre.lemma_mapped_is_live(k);
                assert(post.is_live_with(pre@[k], k));
                post.lemma_live_is_mapped(pre@[k], k);
            }
        }
        assert(post@ =~= goal);
    }

    /// Whether no logical deletion is pending: every node that is marked
    /// has been unlinked.
    pub open spec fn settled(&self) -> bool {
        forall|x: Shared| #[trigger] self.holds(x) && self.stamp_of(x) is None ==> !self.link_of(
            x,
        ).marked()
    }

    /// The successor of a node that is linked is linked.
    pub proof fn lemma_successor_linked(&self, node: Shared)
        requires
            self.wf(),
            self.holds(node),
            self.stamp_of(node) is None,
            !self.link_of(node).inner().is_null(),
        ensures
            self.holds(self.link_of(node).inner()),
            self.stamp_of(self.link_of(node).inner()) is None,
    {
        assert(self.sound(node));
    }

    /// What holds of the sentinel in every well-formed list.
    pub proof fn lemma_head(&self)
        requires
            self.wf(),
        ensures
            self.holds(Self::head_spec()),
            self.key_of(Self::head_spec()) is NegInfinite,
            !self.link_of(Self::head_spec()).marked(),
            self.stamp_of(Self::head_spec()) is None,
    {
        assert(self.sound(Self::head_spec()));
    }

    /// A successor read from a protected node is protected as well, and has a
    /// greater key.
    pub proof fn lemma_link_protected(&self, node: Shared, generation: u64)
        requires
            self.wf(),
            self.protects(node, generation),
        ensures
            !self.link_of(node).inner().is_null() ==> self.protects(
                self.link_of(node).inner(),
                generation,
            ) && self.key_of(node).rank() < self.key_of(self.link_of(node).inner()).rank(),
    {
        assert(self.sound(node));
    }

    /// An unmarked node is linked; unless it is the sentinel, it is live and
    /// its key is finite.
    pub proof fn lemma_unmarked_is_live(&self, node: Shared)
        requires
            self.wf(),
            self.holds(node),
            !self.link_of(node).marked(),
        ensures
            self.stamp_of(node) is None,
            node != Self::head_spec() ==> self.is_live(node) && self.key_of(node) is Finite,
            node == Self::head_spec() ==> self.key_of(node) is NegInfinite,
    {
        assert(self.sound(node));
    }

    /// No live key lies strictly between an unmarked node and its successor.
    pub proof fn lemma_neighbours(&self, pred: Shared, key: usize)
        requires
            self.wf(),
            self.holds(pred),
            !self.link_of(pred).marked(),
            self@.contains_key(key),
        ensures
            key <= self.key_of(pred).rank() || (!self.link_of(pred).inner().is_null()
                && self.key_of(self.link_of(pred).inner()).rank() <= key),
    {
        self.lemma_mapped_is_live(key);
        let y = self@[key];
        assert(self.sound(pred));
        let at = self.place(pred);
        let j = self.place(y);
        assert(self.linked(at));
        if j < at {
            assert(self.key_of(self.chain@[j]).rank() < self.key_of(self.chain@[at]).rank());
        } else if j > at {
            assert(self.linked(at + 1));
            self.lemma_holds_not_null(self.chain@[at + 1]);
            if j > at + 1 {
                assert(self.key_of(self.chain@[at + 1]).rank() < self.key_of(
                    self.chain@[j],
                ).rank());
            }
        }
    }

    /// After a successful publication the links follow the new chain.
    proof fn lemma_link_chain(
        pre: NodeList,
        post: NodeList,
        pred: Shared,
        curr: Shared,
        fresh: Shared,
        key: usize,
        payload: Shared,
        at: int,
    )
        requires
            pre.wf(),
            pre.holds(pred),
            pre.link_of(pred) == Marking::Unmarked(curr),
            pre.key_of(pred).rank() < key,
            !curr.is_null() ==> pre.holds(curr) && key < pre.key_of(curr).rank(),
            0 <= at < pre.chain@.len(),
            pre.chain@[at] == pred,
            fresh != Self::head_spec(),
            !fresh.is_null(),
            pre.link_frame(&post, pred, fresh, key, payload),
            post.chain@ == pre.chain@.insert(at + 1, fresh),
        ensures
            forall|j: int| 0 <= j < post.chain@.len() ==> #[trigger] post.linked(j),
    {
        let pc = pre.chain@;
        let qc = post.chain@;
        assert(pre.linked(at));
        assert(pre.sound(pred));
        assert forall|i: int| 0 <= i < pc.len() implies pre.holds(#[trigger] pc[i]) by {
            assert(pre.linked(i));
        }
        if at + 1 < pc.len() {
            pre.lemma_holds_not_null(pc[at + 1]);
        }
        assert forall|i: int| 0 <= i < pc.len() && i != at implies #[trigger] pc[i] != pred by {
            pre.lemma_places_differ(i, at);
        }
        assert forall|j: int| 0 <= j < qc.len() implies #[trigger] post.linked(j) by {
            if j < at {
                assert(pre.linked(j));
                assert(qc[j] == pc[j]);
                assert(qc[j + 1] == pc[j + 1]);
            } else if j == at {
                assert(qc[j] == pred);
                assert(qc[j + 1] == fresh);
            } else if j == at + 1 {
                assert(qc[j] == fresh);
                if j + 1 < qc.len() {
                    assert(qc[j + 1] == pc[at + 1]);
                }
            } else {
                assert(pre.linked(j - 1));
                assert(qc[j] == pc[j - 1]);
                if j + 1 < qc.len() {
                    assert(qc[j + 1] == pc[j]);
                }
            }
        }
    }

    /// After a successful publication the new chain ascends by key.
    proof fn lemma_link_order(
        pre: NodeList,
        post: NodeList,
        pred: Shared,
        curr: Shared,
        fresh: Shared,
        key: usize,
        payload: Shared,
        at: int,
    )
        requires
            pre.wf(),
            pre.holds(pred),
            pre.link_of(pred) == Marking::Unmarked(curr),
            pre.key_of(pred).rank() < key,
            !curr.is_null() ==> pre.holds(curr) && key < pre.key_of(curr).rank(),
            0 <= at < pre.chain@.len(),
            pre.chain@[at] == pred,
            fresh != Self::head_spec(),
            !fresh.is_null(),
            pre.link_frame(&post, pred, fresh, key, payload),
            post.chain@ == pre.chain@.insert(at + 1, fresh),
        ensures
            forall|i: int, j: int|
                #![trigger post.chain@[i], post.chain@[j]]
                0 <= i < j < post.chain@.len() ==> post.key_of(post.chain@[i]).rank() < post.key_of(
                    post.chain@[j],
                ).rank(),
    {
        let pc = pre.chain@;
        let qc = post.chain@;
        assert(pre.linked(at));
        assert(pre.sound(pred));
        assert forall|i: int| 0 <= i < pc.len() implies pre.holds(#[trigger] pc[i]) by {
            assert(pre.linked(i));
        }
        if at + 1 < pc.len() {
            pre.lemma_holds_not_null(pc[at + 1]);
        }
        assert forall|i: int| 0 <= i < pc.len() && i != at implies #[trigger] pc[i] != pred by {
            pre.lemma_places_differ(i, at);
        }
        assert forall|i: int, j: int| 0 <= i < j < qc.len() implies post.key_of(
            #[trigger] qc[i],
        ).rank() < post.key_of(#[trigger] qc[j]).rank() by {
            let a = if i <= at {
                i
            } else {
                i - 1
            };
            let b = if j <= at {
                j
            } else {
                j - 1
            };
            if i == at + 1 {
                assert(qc[i] == fresh);
                assert(qc[j] == pc[b]);
                assert(pc[at + 1] == curr);
                if b > at + 1 {
                    assert(pre.key_of(pc[at + 1]).rank() < pre.key_of(pc[b]).rank());
                }
            } else if j == at + 1 {
                assert(qc[j] == fresh);
                assert(qc[i] == pc[a]);
                if a < at {
                    assert(pre.key_of(pc[a]).rank() < pre.key_of(pc[at]).rank());
                }
            } else {
                assert(qc[i] == pc[a]);
                assert(qc[j] == pc[b]);
                assert(pre.key_of(pc[a]).rank() < pre.key_of(pc[b]).rank());
            }
        }
    }

    /// After a successful publication every node is in its place.
    proof fn lemma_link_sound(
        pre: NodeList,
        post: NodeList,
        pred: Shared,
        curr: Shared,
        fresh: Shared,
        key: usize,
        payload: Shared,
        at: int,
    )
        requires
            pre.wf(),
            pre.holds(pred),
            pre.link_of(pred) == Marking::Unmarked(curr),
            pre.key_of(pred).rank() < key,
            !curr.is_null() ==> pre.holds(curr) && key < pre.key_of(curr).rank(),
            0 <= at < pre.chain@.len(),
            pre.chain@[at] == pred,
            fresh != Self::head_spec(),
            !fresh.is_null(),
            pre.link_frame(&post, pred, fresh, key, payload),
            post.chain@ == pre.chain@.insert(at + 1, fresh),
        ensures
            forall|x: Shared| #[trigger] post.holds(x) ==> post.sound(x),
    {
        let pc = pre.chain@;
        let qc = post.chain@;
        assert(pre.linked(at));
        assert(pre.sound(pred));
        assert forall|i: int| 0 <= i < pc.len() implies pre.holds(#[trigger] pc[i]) by {
            assert(pre.linked(i));
        }
        if at + 1 < pc.len() {
            pre.lemma_holds_not_null(pc[at + 1]);
        }
        assert forall|i: int| 0 <= i < pc.len() && i != at implies #[trigger] pc[i] != pred by {
            pre.lemma_places_differ(i, at);
        }
        assert forall|x: Shared| #[trigger] post.holds(x) implies post.sound(x) by {
            if x == fresh {
                assert(qc[at + 1] == fresh);
            } else {
                assert(pre.holds(x));
                assert(pre.sound(x));
                if pre.stamp_of(x) is None {
                    let i = pre.place(x);
                    if i <= at {
                        assert(qc[i] == x);
                    } else {
                        assert(qc[i + 1] == x);
                    }
                }
                if x != pred {
                    let next = pre.link_of(x).inner();
                    if !next.is_null() {
                        assert(pre.holds(next));
                    }
                }
            }
        }
    }

    /// A successful publication keeps the shape of the list and adds the
    /// new key to its view.
    proof fn lemma_link(
        pre: NodeList,
        post: NodeList,
        pred: Shared,
        curr: Shared,
        fresh: Shared,
        key: usize,
        payload: Shared,
        at: int,
    )
        requires
            pre.wf(),
            pre.holds(pred),
            pre.link_of(pred) == Marking::Unmarked(curr),
            pre.key_of(pred).rank() < key,
            !curr.is_null() ==> pre.holds(curr) && key < pre.key_of(curr).rank(),
            0 <= at < pre.chain@.len(),
            pre.chain@[at] == pred,
            fresh != Self::head_spec(),
            !fresh.is_null(),
            pre.link_frame(&post, pred, fresh, key, payload),
            post.chain@ == pre.chain@.insert(at + 1, fresh),
        ensures
            post.wf(),
            !pre@.contains_key(key),
            post@ == pre@.insert(key, fresh),
    {
        Self::lemma_link_chain(pre, post, pred, curr, fresh, key, payload, at);
        Self::lemma_link_order(pre, post, pred, curr, fresh, key, payload, at);
        Self::lemma_link_sound(pre, post, pred, curr, fresh, key, payload, at);
        assert(post.chain@[0] == pre.chain@[0]);
        assert(pre.sound(Self::head_spec()));
        assert(post.wf());
        if pre@.contains_key(key) {
            pre.lemma_neighbours(pred, key);
        }
        assert(pre.sound(pred));
        Self::lemma_view_gains(pre, post, fresh, key);
    }

    /// Tries to publish a new node with key `key` between `pred` and `curr`:
    /// one compare-and-swap on the link cell of `pred`, from unmarked `curr`
    /// to the new node, whose own link leads to `curr`. It succeeds exactly
    /// when the cell holds unmarked `curr`; a failed attempt changes nothing.
    pub fn try_link(&mut self, pred: Shared, curr: Shared, key: usize, payload: Shared) -> (r:
        Option<Shared>)
        requires
            old(self).wf(),
            old(self).holds(pred),
            old(self).key_of(pred).rank() < key,
            !curr.is_null() ==> old(self).holds(curr) && key < old(self).key_of(curr).rank(),
        ensures
            final(self).wf(),
            r is Some <==> old(self).link_of(pred) == Marking::Unmarked(curr),
            r is None ==> *final(self) == *old(self),
            r matches Some(fresh) ==> old(self).links(final(self), pred, fresh, key, payload),
    {
        let mut node: Node = self.cells[pred.addr].unwrap();
        let fresh = Shared::from(self.cells.len());
        match node.next.compare_exchange(Marking::Unmarked(curr), Marking::Unmarked(fresh)) {
            Err(_) => None,
            Ok(_) => {
                let ghost pre = *self;
                self.cells.push(
                    Some(
                        Node {
                            key: NodeKey::Finite(key),
                            next: Atomic::from(curr),
                            payload,
                            retired: None,
                        },
                    ),
                );
                self.cells[pred.addr] = Some(node);
                proof {
                    broadcast use vstd::std_specs::vec::axiom_spec_len;

                    assert(self.cells@.len() == self.cells.len());
                    assert(pre.sound(pred));
                    let at = pre.place(pred);
                    self.chain@ = pre.chain@.insert(at + 1, fresh);
                    assert(pre.link_frame(&*self, pred, fresh, key, payload));
                    Self::lemma_link(pre, *self, pred, curr, fresh, key, payload, at);
                }
                Some(fresh)
            },
        }
    }

    /// A successful marking keeps the shape of the list and takes the key
    /// out of its view.
    proof fn lemma_mark(pre: NodeList, post: NodeList, curr: Shared, key: usize)
        requires
            pre.wf(),
            pre.holds(curr),
            pre.key_of(curr) == NodeKey::Finite(key),
            pre.mark_frame(&post, curr),
            post.capacity() == pre.capacity(),
            post.chain@ == pre.chain@,
        ensures
            post.wf(),
            pre.marks(&post, curr, key),
    {
        let pc = pre.chain@;
        assert(pre.sound(curr));
        assert forall|i: int| 0 <= i < pc.len() implies pre.holds(#[trigger] pc[i]) by {
            assert(pre.linked(i));
        }
        assert forall|j: int| 0 <= j < pc.len() implies #[trigger] post.linked(j) by {
            assert(pre.linked(j));
        }
        assert forall|i: int, j: int| 0 <= i < j < pc.len() implies post.key_of(
            #[trigger] pc[i],
        ).rank() < post.key_of(#[trigger] pc[j]).rank() by {
            assert(pre.key_of(pc[i]).rank() < pre.key_of(pc[j]).rank());
        }
        assert forall|x: Shared| #[trigger] post.holds(x) implies post.sound(x) by {
            assert(pre.holds(x));
            assert(pre.sound(x));
            let next = pre.link_of(x).inner();
            if !next.is_null() {
                assert(pre.holds(next));
            }
        }
        assert(post.wf());
        Self::lemma_view_loses(pre, post, curr, key);
    }

    /// Tries to delete the node `curr` logically: one compare-and-swap on its
    /// own link cell, from unmarked `next` to marked `next`. It succeeds
    /// exactly when the cell holds unmarked `next`; a failed attempt changes
    /// nothing.
    pub fn try_mark(&mut self, curr: Shared, next: Shared, key: usize) -> (r: bool)
        requires
            old(self).wf(),
            old(self).holds(curr),
            old(self).key_of(curr) == NodeKey::Finite(key),
        ensures
            final(self).wf(),
            r == (old(self).link_of(curr) == Marking::Unmarked(next)),
            !r ==> *final(self) == *old(self),
            r ==> old(self).marks(final(self), curr, key),
    {
        let mut node: Node = self.cells[curr.addr].unwrap();
        match node.next.compare_exchange(Marking::Unmarked(next), Marking::Marked(next)) {
            Err(_) => false,
            Ok(_) => {
                let ghost pre = *self;
                self.cells[curr.addr] = Some(node);
                proof {
                    assert(pre.mark_frame(&*self, curr));
                    Self::lemma_mark(pre, *self, curr, key);
                }
                true
            },
        }
    }

    /// After a successful unlinking the links follow the shorter chain.
    proof fn lemma_unlink_chain(
        pre: NodeList,
        post: NodeList,
        pred: Shared,
        curr: Shared,
        stamp: u64,
        at: int,
    )
        requires
            pre.wf(),
            pre.stamps_within(stamp),
            pre.holds(pred),
            pre.holds(curr),
            pre.link_of(pred) == Marking::Unmarked(curr),
            pre.link_of(curr).marked(),
            0 <= at < pre.chain@.len(),
            pre.chain@[at] == pred,
            at + 1 < pre.chain@.len(),
            pre.chain@[at + 1] == curr,
            pre.unlink_frame(&post, pred, curr, stamp),
            post.chain@ == pre.chain@.remove(at + 1),
        ensures
            forall|j: int| 0 <= j < post.chain@.len() ==> #[trigger] post.linked(j),
    {
        let pc = pre.chain@;
        let qc = post.chain@;
        assert(pre.linked(at));
        assert(pre.linked(at + 1));
        assert(pre.sound(pred));
        assert(pre.sound(curr));
        assert forall|i: int| 0 <= i < pc.len() implies pre.holds(#[trigger] pc[i]) by {
            assert(pre.linked(i));
        }
        assert forall|i: int| 0 <= i < pc.len() && i != at implies #[trigger] pc[i] != pred by {
            pre.lemma_places_differ(i, at);
        }
        assert forall|i: int| 0 <= i < pc.len() && i != at + 1 implies #[trigger] pc[i]
            != curr by {
            pre.lemma_places_differ(i, at + 1);
        }
        assert forall|j: int| 0 <= j < qc.len() implies #[trigger] post.linked(j) by {
            if j < at {
                assert(pre.linked(j));
                assert(qc[j] == pc[j]);
                assert(qc[j + 1] == pc[j + 1]);
            } else if j == at {
                assert(qc[j] == pred);
                if j + 1 < qc.len() {
                    assert(qc[j + 1] == pc[at + 2]);
                }
            } else {
                assert(pre.linked(j + 1));
                assert(qc[j] == pc[j + 1]);
                if j + 1 < qc.len() {
                    assert(qc[j + 1] == pc[j + 2]);
                }
            }
        }
    }

    /// After a successful unlinking the shorter chain ascends by key.
    proof fn lemma_unlink_order(
        pre: NodeList,
        post: NodeList,
        pred: Shared,
        curr: Shared,
        stamp: u64,
        at: int,
    )
        requires
            pre.wf(),
            pre.stamps_within(stamp),
            pre.holds(pred),
            pre.holds(curr),
            pre.link_of(pred) == Marking::Unmarked(curr),
            pre.link_of(curr).marked(),
            0 <= at < pre.chain@.len(),
            pre.chain@[at] == pred,
            at + 1 < pre.chain@.len(),
            pre.chain@[at + 1] == curr,
            pre.unlink_frame(&post, pred, curr, stamp),
            post.chain@ == pre.chain@.remove(at + 1),
        ensures
            forall|i: int, j: int|
                #![trigger post.chain@[i], post.chain@[j]]
                0 <= i < j < post.chain@.len() ==> post.key_of(post.chain@[i]).rank() < post.key_of(
                    post.chain@[j],
                ).rank(),
    {
        let pc = pre.chain@;
        let qc = post.chain@;
        assert(pre.linked(at));
        assert(pre.linked(at + 1));
        assert(pre.sound(pred));
        assert(pre.sound(curr));
        assert forall|i: int| 0 <= i < pc.len() implies pre.holds(#[trigger] pc[i]) by {
            assert(pre.linked(i));
        }
        assert forall|i: int| 0 <= i < pc.len() && i != at implies #[trigger] pc[i] != pred by {
            pre.lemma_places_differ(i, at);
        }
        assert forall|i: int| 0 <= i < pc.len() && i != at + 1 implies #[trigger] pc[i]
            != curr by {
            pre.lemma_places_differ(i, at + 1);
        }
        assert forall|i: int, j: int| 0 <= i < j < qc.len() implies post.key_of(
            #[trigger] qc[i],
        ).rank() < post.key_of(#[trigger] qc[j]).rank() by {
            let a = if i <= at {
                i
            } else {
                i + 1
            };
            let b = if j <= at {
                j
            } else {
                j + 1
            };
            assert(qc[i] == pc[a]);
            assert(qc[j] == pc[b]);
            assert(pre.key_of(pc[a]).rank() < pre.key_of(pc[b]).rank());
        }
    }

    /// After a successful unlinking every node is in its place.
    proof fn lemma_unlink_sound(
        pre: NodeList,
        post: NodeList,
        pred: Shared,
        curr: Shared,
        stamp: u64,
        at: int,
    )
        requires
            pre.wf(),
            pre.stamps_within(stamp),
            pre.holds(pred),
            pre.holds(curr),
            pre.link_of(pred) == Marking::Unmarked(curr),
            pre.link_of(curr).marked(),
            0 <= at < pre.chain@.len(),
            pre.chain@[at] == pred,
            at + 1 < pre.chain@.len(),
            pre.chain@[at + 1] == curr,
            pre.unlink_frame(&post, pred, curr, stamp),
            post.chain@ == pre.chain@.remove(at + 1),
        ensures
            forall|x: Shared| #[trigger] post.holds(x) ==> post.sound(x),
    {
        let pc = pre.chain@;
        let qc = post.chain@;
        assert(pre.linked(at));
        assert(pre.linked(at + 1));
        assert(pre.sound(pred));
        assert(pre.sound(curr));
        assert forall|i: int| 0 <= i < pc.len() implies pre.holds(#[trigger] pc[i]) by {
            assert(pre.linked(i));
        }
        assert forall|i: int| 0 <= i < pc.len() && i != at implies #[trigger] pc[i] != pred by {
            pre.lemma_places_differ(i, at);
        }
        assert forall|i: int| 0 <= i < pc.len() && i != at + 1 implies #[trigger] pc[i]
            != curr by {
            pre.lemma_places_differ(i, at + 1);
        }
        assert forall|x: Shared| #[trigger] post.holds(x) implies post.sound(x) by {
            assert(pre.holds(x));
            assert(pre.sound(x));
            if x == curr {
                let next = pre.link_of(curr).inner();
                if !next.is_null() {
                    assert(pc[at + 2] == next);
                }
            } else if x == pred {
                assert(qc[at] == pred);
                let next = pre.link_of(curr).inner();
                if !next.is_null() {
                    assert(pc[at + 2] == next);
                    assert(pre.key_of(pc[at]).rank() < pre.key_of(pc[at + 2]).rank());
                }
            } else {
                if pre.stamp_of(x) is None {
                    let i = pre.place(x);
                    assert(pre.linked(i));
                    if i <= at {
                        assert(qc[i] == x);
                    } else {
                        assert(qc[i - 1] == x);
                    }
                    if i + 1 < pc.len() {
                        pre.lemma_places_differ(i + 1, at + 1);
                    }
                }
                let next = pre.link_of(x).inner();
                if !next.is_null() {
                    assert(pre.holds(next));
                }
            }
        }
    }

    /// A successful unlinking keeps the shape of the list and its view.
    proof fn lemma_unlink(
        pre: NodeList,
        post: NodeList,
        pred: Shared,
        curr: Shared,
        stamp: u64,
        at: int,
    )
        requires
            pre.wf(),
            pre.stamps_within(stamp),
            pre.holds(pred),
            pre.holds(curr),
            pre.link_of(pred) == Marking::Unmarked(curr),
            pre.link_of(curr).marked(),
            0 <= at < pre.chain@.len(),
            pre.chain@[at] == pred,
            at + 1 < pre.chain@.len(),
            pre.chain@[at + 1] == curr,
            pre.unlink_frame(&post, pred, curr, stamp),
            post.chain@ == pre.chain@.remove(at + 1),
        ensures
            post.wf(),
            post@ == pre@,
    {
        Self::lemma_unlink_chain(pre, post, pred, curr, stamp, at);
        Self::lemma_unlink_order(pre, post, pred, curr, stamp, at);
        Self::lemma_unlink_sound(pre, post, pred, curr, stamp, at);
        assert(post.chain@[0] == pre.chain@[0]);
        pre.lemma_places_differ(0, at + 1);
        assert(pre.sound(Self::head_spec()));
        assert(post.wf());
        assert(pre.sound(pred));
        assert(pre.sound(curr));
        Self::lemma_view_same(pre, post);
    }

    /// Tries to unlink the marked node `curr`, whose link leads to `succ`:
    /// one compare-and-swap on the link cell of `pred`, from unmarked `curr`
    /// to unmarked `succ`. It succeeds exactly when the cell holds unmarked
    /// `curr`; the unlinked node is retired at once, with the collector's
    /// current generation as its stamp. A failed attempt changes nothing.
    pub fn try_unlink(
        &mut self,
        pred: Shared,
        curr: Shared,
        succ: Shared,
        collector: &mut Collector,
    ) -> (r: bool)
        requires
            old(self).wf(),
            old(self).stamps_within(old(collector).generation()),
            old(collector).wf(),
            old(self).holds(pred),
            old(self).holds(curr),
            old(self).link_of(curr) == Marking::Marked(succ),
        ensures
            final(self).wf(),
            final(collector).wf(),
            final(self).stamps_within(final(collector).generation()),
            final(collector).sessions() == old(collector).sessions(),
            final(collector).generation() >= old(collector).generation(),
            r == (old(self).link_of(pred) == Marking::Unmarked(curr)),
            !r ==> *final(self) == *old(self) && *final(collector) == *old(collector),
            r ==> old(self).unlinks(final(self), pred, curr, old(collector).generation()),
            r ==> final(collector).generation() == old(collector).next_generation(),
    {
        let mut before: Node = self.cells[pred.addr].unwrap();
        match before.next.compare_exchange(Marking::Unmarked(curr), Marking::Unmarked(succ)) {
            Err(_) => false,
            Ok(_) => {
                let ghost pre = *self;
                let stamp: u64 = collector.stamp();
                let mut gone: Node = self.cells[curr.addr].unwrap();
                gone.retired = Some(stamp);
                self.cells[pred.addr] = Some(before);
                self.cells[curr.addr] = Some(gone);
                proof {
                    assert(pre.sound(pred));
                    assert(pre.sound(curr));
                    let at = pre.place(pred);
                    assert(pre.linked(at));
                    pre.lemma_holds_not_null(curr);
                    self.chain@ = pre.chain@.remove(at + 1);
                    assert(pre.linked(at + 1));
                    assert(pre.unlink_frame(&*self, pred, curr, stamp));
                    Self::lemma_unlink(pre, *self, pred, curr, stamp, at);
                }
                true
            },
        }
    }

    /// A collection keeps the shape of the list and its view.
    proof fn lemma_collect(pre: NodeList, post: NodeList, collector: Collector)
        requires
            pre.wf(),
            pre.collect_frame(&post, &collector),
            post.chain@ == pre.chain@,
        ensures
            post.wf(),
            post@ == pre@,
    {
        let pc = pre.chain@;
        assert forall|i: int| 0 <= i < pc.len() implies pre.holds(#[trigger] pc[i])
            && pre.stamp_of(pc[i]) is None by {
            assert(pre.linked(i));
        }
        assert forall|j: int| 0 <= j < pc.len() implies #[trigger] post.linked(j) by {
            assert(pre.linked(j));
        }
        assert forall|i: int, j: int| 0 <= i < j < pc.len() implies post.key_of(
            #[trigger] pc[i],
        ).rank() < post.key_of(#[trigger] pc[j]).rank() by {
            assert(pre.key_of(pc[i]).rank() < pre.key_of(pc[j]).rank());
        }
        assert forall|x: Shared| #[trigger] post.holds(x) implies post.sound(x) by {
            assert(pre.holds(x));
            assert(pre.sound(x));
            let next = pre.link_of(x).inner();
            if !next.is_null() {
                assert(pre.holds(next));
            }
        }
        assert(pc[0] == Self::head_spec());
        assert(post.wf());
        assert forall|x: Shared, k: usize| #[trigger]
            post.is_live_with(x, k) <==> pre.is_live_with(x, k) by {
            if post.holds(x) {
                assert(pre.holds(x));
            }
            if pre.holds(x) {
            }
        }
        Self::lemma_view_same(pre, post);
    }

    /// Releases every retired node that no open session can still reach: one
    /// whose stamp lies below the generation of every open session. Linked
    /// nodes, and retired nodes that some session protects, stay.
    pub fn collect(&mut self, collector: &Collector)
        requires
            old(self).wf(),
        ensures
            final(self).wf(),
            final(self)@ == old(self)@,
            final(self).capacity() == old(self).capacity(),
            old(self).collect_frame(final(self), collector),
            old(self).settled() ==> final(self).settled(),
    {
        let ghost pre = *self;
        let mut i: usize = 0;
        while i < self.cells.len()
            invariant
                i <= self.cells@.len(),
                self.cells@.len() == pre.cells@.len(),
                self.chain@ == pre.chain@,
                forall|j: int|
                    0 <= j < i ==> #[trigger] self.cells@[j] == if pre.releases(
                        Shared { addr: j as usize },
                        collector,
                    ) && pre.cells@[j] is Some {
                        None::<Node>
                    } else {
                        pre.cells@[j]
                    },
                forall|j: int| i <= j < self.cells@.len() ==> #[trigger] self.cells@[j] == pre.cells@[j],
            decreases self.cells@.len() - i,
        {
            let release: bool = match self.cells[i] {
                Some(node) => match node.retired {
                    Some(stamp) => collector.can_reclaim(stamp),
                    None => false,
                },
                None => false,
            };
            if release {
                self.cells[i] = None;
            }
            i += 1;
        }
        proof {
            assert forall|x: Shared| #[trigger] pre.holds(x) implies if pre.releases(x, collector) {
                !self.holds(x)
            } else {
                pre.unchanged_at(&*self, x)
            } by {
                assert(x == Shared { addr: x.addr as int as usize });
            }
            assert(pre.collect_frame(&*self, collector));
            Self::lemma_collect(pre, *self, *collector);
            if pre.settled() {
                assert forall|x: Shared| #[trigger] self.holds(x) && self.stamp_of(x) is None implies !self.link_of(
                    x,
                ).marked() by {
                    assert(pre.holds(x));
                }
            }
        }
    }

    /// Whether the list can perform `action` for a session that pins
    /// `generation`: the nodes named are there, a node read is protected by
    /// the session, a new key fits between its neighbours, and a node
    /// unlinked is marked.
    pub open spec fn admits(&self, action: Action, generation: u64) -> bool {
        match action {
            Action::Load { node } => self.protects(node, generation),
            Action::Link { pred, curr, key, payload } => {
                &&& self.holds(pred)
                &&& self.key_of(pred).rank() < key
                &&& !curr.is_null() ==> self.holds(curr) && key < self.key_of(curr).rank()
            },
            Action::Mark { curr, next, key } => {
                &&& self.holds(curr)
                &&& self.key_of(curr) == NodeKey::Finite(key)
            },
            Action::Unlink { pred, curr, succ } => {
                &&& self.holds(pred)
                &&& self.holds(curr)
                &&& self.link_of(curr) == Marking::Marked(succ)
            },
        }
    }

    /// The event that `action` produces on this list.
    pub open spec fn reply(&self, action: Action) -> Event {
        match action {
            Action::Load { node } => Event::Loaded {
                link: self.link_of(node),
                key: self.key_of(node),
            },
            Action::Link { pred, curr, key, payload } => Event::Linked {
                fresh: if self.link_of(pred) == Marking::Unmarked(curr) {
                    Some(Shared { addr: self.capacity() as usize })
                } else {
                    None
                },
            },
            Action::Mark { curr, next, key } => Event::Marked {
                done: self.link_of(curr) == Marking::Unmarked(next),
            },
            Action::Unlink { pred, curr, succ } => Event::Unlinked {
                done: self.link_of(pred) == Marking::Unmarked(curr),
            },
        }
    }

    /// What `action` makes of this list: a compare-and-swap that succeeds
    /// does what `links`, `marks` or `unlinks` says, with `stamp` for the
    /// node retired; a read, and a compare-and-swap that fails, change
    /// nothing.
    pub open spec fn becomes(&self, later: &NodeList, action: Action, stamp: u64) -> bool {
        match action {
            Action::Load { node } => *later == *self,
            Action::Link { pred, curr, key, payload } => if self.link_of(pred)
                == Marking::Unmarked(curr) {
                self.links(later, pred, Shared { addr: self.capacity() as usize }, key, payload)
            } else {
                *later == *self
            },
            Action::Mark { curr, next, key } => if self.link_of(curr) == Marking::Unmarked(next) {
                self.marks(later, curr, key)
            } else {
                *later == *self
            },
            Action::Unlink { pred, curr, succ } => if self.link_of(pred) == Marking::Unmarked(
                curr,
            ) {
                self.unlinks(later, pred, curr, stamp)
            } else {
                *later == *self
            },
        }
    }

    /// Whether `action` retires a node on this list.
    pub open spec fn retires(&self, action: Action) -> bool {
        action matches Action::Unlink { pred, curr, succ } && self.link_of(pred)
            == Marking::Unmarked(curr)
    }

    /// Performs one atomic access for a session that pins `generation` and
    /// reports what it found or did.
    pub fn perform(&mut self, action: Action, generation: u64, collector: &mut Collector) -> (event:
        Event)
        requires
            old(self).wf(),
            old(collector).wf(),
            old(self).stamps_within(old(collector).generation()),
            old(self).admits(action, generation),
        ensures
            final(self).wf(),
            final(collector).wf(),
            final(self).stamps_within(final(collector).generation()),
            final(collector).sessions() == old(collector).sessions(),
            final(collector).generation() >= old(collector).generation(),
            !old(self).retires(action) ==> *final(collector) == *old(collector),
            old(self).retires(action) ==> final(collector).generation() == old(
                collector,
            ).next_generation(),
            event == old(self).reply(action),
            old(self).becomes(final(self), action, old(collector).generation()),
    {
        match action {
            Action::Load { node } => Event::Loaded {
                link: self.load(node, generation),
                key: self.key(node),
            },
            Action::Link { pred, curr, key, payload } => Event::Linked {
                fresh: self.try_link(pred, curr, key, payload),
            },
            Action::Mark { curr, next, key } => Event::Marked {
                done: self.try_mark(curr, next, key),
            },
            Action::Unlink { pred, curr, succ } => Event::Unlinked {
                done: self.try_unlink(pred, curr, succ, collector),
            },
        }
    }
}

} // verus!
