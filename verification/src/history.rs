//! Histories: a search among the steps of other operations.

use vstd::prelude::*;
use crate::collector::Collector;
use crate::find::FindOp;
use crate::find::FindPhase;
use crate::list::NodeList;
use crate::marking::Marking;
use crate::shared::Shared;

verus! {

/// The states that a search and its list go through, one after the other.
/// Between two states lies one step: an atomic step of the search, an atomic
/// step of some other operation, or a collection. `stamps[i]` is the
/// generation that was current at step `i`, `collectors[i]` the collector
/// as it was.
pub struct History {
    pub ops: Seq<FindOp>,
    pub lists: Seq<NodeList>,
    pub stamps: Seq<u64>,
    pub collectors: Seq<Collector>,
}

/// Whether no live key of `list` lies strictly between `low` and `high`.
pub open spec fn gap(list: &NodeList, low: int, high: int) -> bool {
    forall|k: usize| #[trigger] list@.contains_key(k) ==> k <= low || high <= k
}

/// The rank of a node's key; for null, the rank above all keys.
pub open spec fn ceiling(list: &NodeList, node: Shared) -> int {
    if node.is_null() {
        usize::MAX + 1
    } else {
        list.key_of(node).rank()
    }
}

impl History {
    /// Whether step `i` is a step of the search.
    pub open spec fn own_step(&self, i: int) -> bool {
        &&& self.ops[i].phase != FindPhase::Done
        &&& self.ops[i + 1] == self.ops[i].after(self.lists[i].reply(self.ops[i].next_action()))
        &&& self.lists[i].becomes(&self.lists[i + 1], self.ops[i].next_action(), self.stamps[i])
    }

    /// Whether step `i` is an atomic step of another operation.
    pub open spec fn other_step(&self, i: int) -> bool {
        &&& self.ops[i + 1] == self.ops[i]
        &&& self.lists[i].advances_to(&self.lists[i + 1], self.stamps[i])
    }

    /// Whether step `i` is a collection, made while a session that pins the
    /// generation of the search was open.
    pub open spec fn collect_step(&self, i: int) -> bool {
        &&& self.ops[i + 1] == self.ops[i]
        &&& self.lists[i].collect_frame(&self.lists[i + 1], &self.collectors[i])
        &&& self.collectors[i].pins(self.ops[0].generation)
    }

    /// Whether the search has ended at a node with its key.
    pub open spec fn hit(op: FindOp) -> bool {
        op.phase == FindPhase::Done && op.hit()
    }

    /// Whether the search has ended elsewhere.
    pub open spec fn miss(op: FindOp) -> bool {
        op.phase == FindPhase::Done && !op.hit()
    }

    /// A history of a search that starts at the sentinel: every list in it
    /// is well-formed, the search's session began before every step, and
    /// every step is one of the search, one of another operation, or a
    /// collection during the search's session.
    pub open spec fn wf(&self) -> bool {
        &&& self.ops.len() >= 1
        &&& self.lists.len() == self.ops.len()
        &&& self.stamps.len() == self.ops.len() - 1
        &&& self.collectors.len() == self.ops.len() - 1
        &&& self.ops[0] == FindOp::initial(
            NodeList::head_spec(),
            self.ops[0].key,
            self.ops[0].generation,
        )
        &&& forall|i: int| 0 <= i < self.lists.len() ==> (#[trigger] self.lists[i]).wf()
        &&& forall|i: int|
            0 <= i < self.stamps.len() ==> self.ops[0].generation <= #[trigger] self.stamps[i]
        &&& forall|i: int|
            0 <= i < self.stamps.len() ==> #[trigger] self.own_step(i) || self.other_step(i)
                || self.collect_step(i)
    }

    /// What holds after `n` steps: the search is safe, and what it holds is
    /// backed by moments of the history. Unless it is about to read its
    /// start node, there was a moment `j` at which no live key lay between
    /// its two nodes; and if it has ended at a node with its key, there was
    /// a moment `p` at which that node was the live node with the key.
    proof fn lemma_prefix(&self, n: int) -> (r: (int, int))
        requires
            self.wf(),
            0 <= n < self.ops.len(),
        ensures
            self.ops[n].safe(&self.lists[n]),
            self.ops[n].same_task(&self.ops[0]),
            self.ops[n].phase != FindPhase::LoadPred ==> 0 <= r.0 <= n && gap(
                &self.lists[r.0],
                self.lists[n].key_of(self.ops[n].pred).rank(),
                ceiling(&self.lists[n], self.ops[n].curr),
            ),
            Self::hit(self.ops[n]) ==> 0 <= r.1 <= n && self.lists[r.1]@.contains_key(
                self.ops[n].key,
            ) && self.lists[r.1]@[self.ops[n].key] == self.ops[n].curr,
        decreases n,
    {
        if n == 0 {
            assert(self.lists[0].wf());
            self.lists[0].lemma_head();
            (0, 0)
        } else {
            let before = self.lemma_prefix(n - 1);
            let op = self.ops[n - 1];
            let next = self.ops[n];
            let list = self.lists[n - 1];
            let later = self.lists[n];
            let stamp = self.stamps[n - 1];
            assert(list.wf());
            assert(later.wf());
            assert(op.generation <= stamp);
            assert(self.own_step(n - 1) || self.other_step(n - 1) || self.collect_step(n - 1));
            if self.own_step(n - 1) {
                op.lemma_step(&list, &later, stamp);
                list.lemma_link_protected(op.pred, op.generation);
                if op.phase == FindPhase::LoadPred {
                    list.lemma_head();
                    assert forall|k: usize| #[trigger] list@.contains_key(k) implies k
                        <= later.key_of(next.pred).rank() || ceiling(&later, next.curr) <= k by {
                        list.lemma_neighbours(op.pred, k);
                    }
                    (n - 1, 0)
                } else if op.phase == FindPhase::LoadCurr {
                    let link = list.link_of(op.curr);
                    list.lemma_link_protected(op.curr, op.generation);
                    if link.marked() {
                        (before.0, 0)
                    } else if list.key_of(op.curr).rank() < op.key {
                        assert forall|k: usize| #[trigger] list@.contains_key(k) implies k
                            <= later.key_of(next.pred).rank() || ceiling(&later, next.curr)
                            <= k by {
                            list.lemma_neighbours(op.curr, k);
                        }
                        (n - 1, 0)
                    } else {
                        if Self::hit(next) {
                            list.lemma_head();
                            list.lemma_unmarked_is_live(op.curr);
                            list.lemma_live_is_mapped(op.curr, op.key);
                        }
                        (before.0, n - 1)
                    }
                } else {
                    if list.link_of(op.pred) == Marking::Unmarked(op.curr) {
                        later.lemma_link_protected(op.pred, op.generation);
                        assert forall|k: usize| #[trigger] later@.contains_key(k) implies k
                            <= later.key_of(next.pred).rank() || ceiling(&later, next.curr)
                            <= k by {
                            later.lemma_neighbours(op.pred, k);
                        }
                        (n, 0)
                    } else {
                        (0, 0)
                    }
                }
            } else if self.other_step(n - 1) {
                op.lemma_safe_after_step(&list, &later, stamp);
                before
            } else {
                let collector = self.collectors[n - 1];
                op.lemma_safe_after_collect(&list, &later, &collector);
                list.lemma_protected_survives(&later, &collector, op.pred, op.generation);
                if op.phase != FindPhase::LoadPred && !op.curr.is_null() {
                    list.lemma_protected_survives(&later, &collector, op.curr, op.generation);
                }
                before
            }
        }
    }

    /// A search that does not end at a node with its key has seen the key
    /// absent: at some moment of its history the view lacked the key.
    pub proof fn lemma_absence_was_seen(&self)
        requires
            self.wf(),
            Self::miss(self.ops.last()),
        ensures
            exists|j: int|
                0 <= j < self.lists.len() && !(#[trigger] self.lists[j])@.contains_key(
                    self.ops[0].key,
                ),
    {
        let n = self.ops.len() - 1;
        let r = self.lemma_prefix(n);
        let op = self.ops[n];
        let list = self.lists[n];
        assert(gap(&self.lists[r.0], list.key_of(op.pred).rank(), ceiling(&list, op.curr)));
        if self.lists[r.0]@.contains_key(op.key) {
            assert(false);
        }
        assert(!self.lists[r.0]@.contains_key(self.ops[0].key));
    }

    /// A search that ends at a node with its key has seen the key present:
    /// at some moment of its history that node was the live node with the
    /// key.
    pub proof fn lemma_presence_was_seen(&self)
        requires
            self.wf(),
            Self::hit(self.ops.last()),
        ensures
            exists|j: int|
                0 <= j < self.lists.len() && (#[trigger] self.lists[j])@.contains_key(
                    self.ops[0].key,
                ) && self.lists[j]@[self.ops[0].key] == self.ops.last().curr,
    {
        let n = self.ops.len() - 1;
        let r = self.lemma_prefix(n);
        assert(self.lists[r.1]@.contains_key(self.ops[0].key));
    }
}

} // verus!
