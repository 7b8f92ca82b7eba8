//! The search of the ordered list, one atomic step at a time.

use vstd::prelude::*;
use crate::collector::Collector;
use crate::collector::Session;
use crate::key::NodeKey;
use crate::list::NodeList;
use crate::marking::Marking;
use crate::protocol::Action;
use crate::protocol::Event;
use crate::shared::Shared;

verus! {

/// Where a search stands.
#[derive(Clone, Copy, PartialEq, Eq, Structural, Debug)]
pub enum FindPhase {
    /// About to read the link of the predecessor, which is the start node.
    LoadPred,
    /// About to read the link of the current node and to look at its key.
    LoadCurr,
    /// About to unlink the current node, which was seen marked.
    Unlink,
    /// Finished: `pred` and `curr` are the result.
    Done,
}

/// A search for the place of `key` behind the node `start`, on behalf of a
/// session that pins `generation`. It walks with a predecessor and a current
/// node, unlinks every marked node it meets, and starts over from `start`
/// whenever such an unlink fails. It ends with the predecessor and the first
/// node whose key is not below `key`, or null. `seen` is the key of the
/// current node as last read.
#[derive(Clone, Copy, PartialEq, Eq, Structural, Debug)]
pub struct FindOp {
    pub start: Shared,
    pub key: usize,
    pub generation: u64,
    pub pred: Shared,
    pub curr: Shared,
    pub succ: Shared,
    pub seen: NodeKey,
    pub phase: FindPhase,
}

/// How far a node's key lies below the end of the key range; 0 for null.
pub open spec fn span(list: &NodeList, node: Shared) -> int {
    if node.is_null() {
        0
    } else {
        usize::MAX - list.key_of(node).rank() + 1
    }
}

impl FindOp {
    /// Whether `other` is a state of the same search.
    pub open spec fn same_task(&self, other: &FindOp) -> bool {
        &&& self.start == other.start
        &&& self.key == other.key
        &&& self.generation == other.generation
    }

    /// The same search with other nodes in hand.
    pub open spec fn moved(
        &self,
        pred: Shared,
        curr: Shared,
        succ: Shared,
        seen: NodeKey,
        phase: FindPhase,
    ) -> FindOp {
        FindOp {
            start: self.start,
            key: self.key,
            generation: self.generation,
            pred,
            curr,
            succ,
            seen,
            phase,
        }
    }

    /// The phase after a read or an unlink that left `curr` as the current
    /// node: finished at the end of the list, else about to read `curr`.
    pub open spec fn arrive(curr: Shared) -> FindPhase {
        if curr.is_null() {
            FindPhase::Done
        } else {
            FindPhase::LoadCurr
        }
    }

    /// Whether the current node is a node with the key searched for, by
    /// the key last read.
    pub open spec fn hit(&self) -> bool {
        !self.curr.is_null() && self.seen == NodeKey::Finite(self.key)
    }

    /// The access that the search needs next.
    pub open spec fn next_action(&self) -> Action {
        match self.phase {
            FindPhase::LoadPred => Action::Load { node: self.pred },
            FindPhase::LoadCurr => Action::Load { node: self.curr },
            FindPhase::Unlink => Action::Unlink {
                pred: self.pred,
                curr: self.curr,
                succ: self.succ,
            },
            FindPhase::Done => Action::Load { node: self.pred },
        }
    }

    /// The search after `event`. Reading the predecessor's link gives the
    /// current node. Reading the current node's link decides: a marked node
    /// is to be unlinked; an unmarked node with a key below `key` becomes the
    /// predecessor; any other ends the search. An unlink that succeeded
    /// moves on to the successor; one that failed starts over from `start`.
    /// A finished search, and an event of another kind, change nothing.
    pub open spec fn after(&self, event: Event) -> FindOp {
        match self.phase {
            FindPhase::LoadPred => match event {
                Event::Loaded { link, key } => self.moved(
                    self.pred,
                    link.inner(),
                    self.succ,
                    self.seen,
                    Self::arrive(link.inner()),
                ),
                _ => *self,
            },
            FindPhase::LoadCurr => match event {
                Event::Loaded { link, key } => if link.marked() {
                    self.moved(self.pred, self.curr, link.inner(), key, FindPhase::Unlink)
                } else if key.rank() < self.key {
                    self.moved(self.curr, link.inner(), self.succ, key, Self::arrive(link.inner()))
                } else {
                    self.moved(self.pred, self.curr, self.succ, key, FindPhase::Done)
                },
                _ => *self,
            },
            FindPhase::Unlink => match event {
                Event::Unlinked { done } => if done {
                    self.moved(self.pred, self.succ, self.succ, self.seen, Self::arrive(self.succ))
                } else {
                    self.moved(self.start, self.curr, self.succ, self.seen, FindPhase::LoadPred)
                },
                _ => *self,
            },
            FindPhase::Done => *self,
        }
    }

    /// What the search relies on, and what the steps of other operations
    /// leave true: the nodes it holds are protected by its session, the keys
    /// it has compared are as it saw them, and a link it saw marked is frozen.
    pub open spec fn safe(&self, list: &NodeList) -> bool {
        &&& list.protects(self.start, self.generation)
        &&& list.key_of(self.start).rank() < self.key
        &&& list.protects(self.pred, self.generation)
        &&& list.key_of(self.pred).rank() < self.key
        &&& match self.phase {
            FindPhase::LoadPred => self.pred == self.start,
            FindPhase::LoadCurr => list.protects(self.curr, self.generation),
            FindPhase::Unlink => list.protects(self.curr, self.generation) && list.link_of(
                self.curr,
            ) == Marking::Marked(self.succ),
            FindPhase::Done => self.curr.is_null() || (list.protects(self.curr, self.generation)
                && self.key <= list.key_of(self.curr).rank() && self.seen == list.key_of(
                self.curr,
            )),
        }
    }

    /// Whether the list is still as the search last saw it. This holds as
    /// long as no other operation takes a step in between.
    pub open spec fn in_sync(&self, list: &NodeList) -> bool {
        match self.phase {
            FindPhase::LoadPred => !list.link_of(self.start).marked(),
            FindPhase::LoadCurr => list.link_of(self.pred) == Marking::Unmarked(self.curr),
            FindPhase::Unlink => list.link_of(self.pred) == Marking::Unmarked(self.curr),
            FindPhase::Done => list.link_of(self.pred) == Marking::Unmarked(self.curr) && (
            self.curr.is_null() || !list.link_of(self.curr).marked()),
        }
    }

    /// Whether a finished search holds, as its current node, null or a node
    /// that is unmarked.
    pub open spec fn arrived(&self, list: &NodeList) -> bool {
        self.phase == FindPhase::Done ==> self.curr.is_null() || !list.link_of(self.curr).marked()
    }

    /// First part of the progress measure: the distance from the
    /// predecessor's key to the key searched for.
    pub open spec fn far(&self, list: &NodeList) -> int {
        2 * (self.key - list.key_of(self.pred).rank()) + if self.phase == FindPhase::LoadPred {
            1int
        } else {
            0int
        }
    }

    /// Second part of the progress measure: what is left of the key range
    /// behind the current node.
    pub open spec fn near(&self, list: &NodeList) -> int {
        match self.phase {
            FindPhase::LoadPred => 0,
            FindPhase::LoadCurr => 2 * span(list, self.curr) + 1,
            FindPhase::Unlink => 2 * span(list, self.curr),
            FindPhase::Done => 0,
        }
    }

    /// Whether the measure of `self` on `list` lies below that of `before`
    /// on `earlier`.
    pub open spec fn closer(&self, list: &NodeList, before: &FindOp, earlier: &NodeList) -> bool {
        &&& 0 <= self.far(list)
        &&& 0 <= self.near(list)
        &&& self.far(list) < before.far(earlier) || (self.far(list) == before.far(earlier)
            && self.near(list) < before.near(earlier))
    }

    /// The state of a search that has not taken a step yet.
    pub open spec fn initial(start: Shared, key: usize, generation: u64) -> FindOp {
        FindOp {
            start,
            key,
            generation,
            pred: start,
            curr: Shared { addr: crate::shared::NULL_ADDR },
            succ: Shared { addr: crate::shared::NULL_ADDR },
            seen: NodeKey::NegInfinite,
            phase: FindPhase::LoadPred,
        }
    }

    /// A search that has not taken a step yet.
    pub fn new(start: Shared, key: usize, generation: u64) -> (r: FindOp)
        ensures
            r == Self::initial(start, key, generation),
    {
        FindOp {
            start,
            key,
            generation,
            pred: start,
            curr: Shared::null(),
            succ: Shared::null(),
            seen: NodeKey::NegInfinite,
            phase: FindPhase::LoadPred,
        }
    }

    /// Reports whether the search has finished.
    pub fn is_done(&self) -> (r: bool)
        ensures
            r == (self.phase == FindPhase::Done),
    {
        self.phase == FindPhase::Done
    }

    /// Reports whether the current node is a node with the key searched
    /// for, by the key last read. After the search has finished this says
    /// whether it has found the key.
    pub fn found(&self) -> (r: bool)
        ensures
            r == self.hit(),
    {
        !self.curr.is_null() && self.seen.is(self.key)
    }

    /// Names the access that the search needs next.
    pub fn action(&self) -> (r: Action)
        ensures
            r == self.next_action(),
    {
        match self.phase {
            FindPhase::LoadPred => Action::Load { node: self.pred },
            FindPhase::LoadCurr => Action::Load { node: self.curr },
            FindPhase::Unlink => Action::Unlink {
                pred: self.pred,
                curr: self.curr,
                succ: self.succ,
            },
            FindPhase::Done => Action::Load { node: self.pred },
        }
    }

    /// Takes in what the access has found or done, and decides how the
    /// search goes on.
    pub fn resume(&mut self, event: Event)
        ensures
            *final(self) == old(self).after(event),
    {
        match self.phase {
            FindPhase::LoadPred => match event {
                Event::Loaded { link, key: _ } => {
                    self.curr = *link.deref();
                    self.phase = Self::arrival(self.curr);
                },
                _ => {},
            },
            FindPhase::LoadCurr => match event {
                Event::Loaded { link, key } => {
                    self.seen = key;
                    if link.is_marked() {
                        self.succ = *link.deref();
                        self.phase = FindPhase::Unlink;
                    } else if key.below(self.key) {
                        self.pred = self.curr;
                        self.curr = *link.deref();
                        self.phase = Self::arrival(self.curr);
                    } else {
                        self.phase = FindPhase::Done;
                    }
                },
                _ => {},
            },
            FindPhase::Unlink => match event {
                Event::Unlinked { done } => {
                    if done {
                        self.curr = self.succ;
                        self.phase = Self::arrival(self.curr);
                    } else {
                        self.pred = self.start;
                        self.phase = FindPhase::LoadPred;
                    }
                },
                _ => {},
            },
            FindPhase::Done => {},
        }
    }

    /// Decides the phase after `curr` has become the current node.
    fn arrival(curr: Shared) -> (r: FindPhase)
        ensures
            r == Self::arrive(curr),
    {
        if curr.is_null() {
            FindPhase::Done
        } else {
            FindPhase::LoadCurr
        }
    }

    /// A search that is safe on a list asks for an access that the list
    /// can perform.
    pub proof fn lemma_admitted(&self, list: &NodeList)
        requires
            self.safe(list),
            self.phase != FindPhase::Done,
        ensures
            list.admits(self.next_action(), self.generation),
    {
    }

    /// What one step does, on any memory that answers as `reply` says and
    /// changes as `becomes` says. The search stays a state of the same task
    /// and stays safe; the view and the number of cells stay; the list
    /// advances as every atomic step does. If the list was as the search
    /// last saw it, it is so again after the step, and the search is closer
    /// to its end.
    pub proof fn lemma_step(&self, list: &NodeList, later: &NodeList, stamp: u64)
        requires
            list.wf(),
            later.wf(),
            self.safe(list),
            self.phase != FindPhase::Done,
            self.generation <= stamp,
            list.becomes(later, self.next_action(), stamp),
        ensures
            self.after(list.reply(self.next_action())).same_task(self),
            self.after(list.reply(self.next_action())).safe(later),
            self.after(list.reply(self.next_action())).arrived(later),
            later@ == list@,
            later.capacity() == list.capacity(),
            list.advances_to(later, stamp),
            self.in_sync(list) ==> self.after(list.reply(self.next_action())).in_sync(later),
            self.in_sync(list) ==> self.after(list.reply(self.next_action())).closer(
                later,
                self,
                list,
            ),
    {
        list.lemma_link_protected(self.pred, self.generation);
        if self.phase != FindPhase::LoadPred {
            list.lemma_link_protected(self.curr, self.generation);
            list.lemma_holds_not_null(self.curr);
        }
        if self.phase == FindPhase::Unlink && list.link_of(self.pred) == Marking::Unmarked(
            self.curr,
        ) {
            later.lemma_link_protected(self.pred, self.generation);
        }
    }

    /// Takes the next step on `list`: performs the access that the search
    /// needs and takes in the event. The step never changes the view of the
    /// list. If the list is as the search last saw it, the step brings the
    /// search closer to its end.
    pub fn step(&mut self, list: &mut NodeList, collector: &mut Collector)
        requires
            old(list).wf(),
            old(collector).wf(),
            old(list).stamps_within(old(collector).generation()),
            old(self).generation <= old(collector).generation(),
            old(self).safe(old(list)),
            old(self).phase != FindPhase::Done,
        ensures
            *final(self) == old(self).after(old(list).reply(old(self).next_action())),
            old(list).becomes(final(list), old(self).next_action(), old(collector).generation()),
            final(list).wf(),
            final(collector).wf(),
            final(list).stamps_within(final(collector).generation()),
            final(collector).sessions() == old(collector).sessions(),
            final(collector).generation() >= old(collector).generation(),
            !old(list).retires(old(self).next_action()) ==> *final(collector) == *old(collector),
            old(list).retires(old(self).next_action()) ==> final(collector).generation() == old(
                collector,
            ).next_generation(),
            final(self).same_task(old(self)),
            final(self).safe(final(list)),
            final(self).arrived(final(list)),
            final(list)@ == old(list)@,
            final(list).capacity() == old(list).capacity(),
            old(list).advances_to(final(list), old(collector).generation()),
            old(self).in_sync(old(list)) ==> final(self).in_sync(final(list)),
            old(self).in_sync(old(list)) ==> final(self).closer(final(list), old(self), old(list)),
    {
        let action = self.action();
        proof {
            self.lemma_admitted(list);
        }
        let event = list.perform(action, self.generation, collector);
        proof {
            old(self).lemma_step(old(list), list, old(collector).generation());
        }
        self.resume(event);
    }

    /// On a list without pending deletions a search that sees the list as
    /// it is reads only: it asks for no unlinking, now or after its step.
    pub proof fn lemma_reads_only(&self, list: &NodeList)
        requires
            list.wf(),
            list.settled(),
            self.safe(list),
            self.in_sync(list),
            self.phase != FindPhase::Done,
            self.phase != FindPhase::Unlink,
        ensures
            self.next_action() is Load,
            self.after(list.reply(self.next_action())).phase != FindPhase::Unlink,
    {
        if self.phase == FindPhase::LoadCurr {
            list.lemma_unmarked_is_live(self.pred);
            list.lemma_holds_not_null(self.curr);
            list.lemma_successor_linked(self.pred);
        }
    }

    /// What a finished search has found when the list is as it last saw it:
    /// its two nodes border the place of its key.
    pub proof fn lemma_found(&self, list: &NodeList)
        requires
            list.wf(),
            self.safe(list),
            self.in_sync(list),
            self.phase == FindPhase::Done,
        ensures
            list.borders(self.pred, self.curr, self.key),
    {
        list.lemma_unmarked_is_live(self.pred);
        if !self.curr.is_null() {
            list.lemma_unmarked_is_live(self.curr);
            list.lemma_head();
        }
        assert forall|k: usize| #[trigger] list@.contains_key(k) implies if k < self.key {
            k <= list.key_of(self.pred).rank()
        } else {
            !self.curr.is_null() && list.key_of(self.curr).rank() <= k
        } by {
            list.lemma_neighbours(self.pred, k);
        }
    }

    /// What the steps of other operations leave in place keeps a search
    /// safe: the search can go on after any atomic step of another
    /// operation.
    pub proof fn lemma_safe_after_step(&self, earlier: &NodeList, later: &NodeList, generation: u64)
        requires
            self.safe(earlier),
            earlier.advances_to(later, generation),
            self.generation <= generation,
        ensures
            self.safe(later),
    {
    }

    /// A collection keeps a search safe while a session that pins the
    /// search's generation is open: no node that the search holds is
    /// released.
    pub proof fn lemma_safe_after_collect(
        &self,
        earlier: &NodeList,
        later: &NodeList,
        collector: &Collector,
    )
        requires
            self.safe(earlier),
            earlier.collect_frame(later, collector),
            collector.pins(self.generation),
        ensures
            self.safe(later),
    {
        earlier.lemma_protected_survives(later, collector, self.start, self.generation);
        earlier.lemma_protected_survives(later, collector, self.pred, self.generation);
        if self.phase != FindPhase::LoadPred && !(self.phase == FindPhase::Done
            && self.curr.is_null()) {
            earlier.lemma_protected_survives(later, collector, self.curr, self.generation);
        }
    }
}

impl NodeList {
    /// Whether `pred` and `curr` border the place of `key` in the list:
    /// `pred` is the sentinel or the live node with the greatest key below
    /// `key`, `curr` is the live node with the least key that is not below
    /// `key`, or null where there is none, and the link of `pred` leads to
    /// `curr`.
    pub open spec fn borders(&self, pred: Shared, curr: Shared, key: usize) -> bool {
        &&& self.holds(pred)
        &&& pred == NodeList::head_spec() || self.is_live(pred)
        &&& self.key_of(pred).rank() < key
        &&& self.link_of(pred) == Marking::Unmarked(curr)
        &&& curr.is_null() || (self.is_live(curr) && key <= self.key_of(curr).rank())
        &&& forall|k: usize| #[trigger]
            self@.contains_key(k) ==> if k < key {
                k <= self.key_of(pred).rank()
            } else {
                !curr.is_null() && self.key_of(curr).rank() <= k
            }
    }

    /// Searches for the place of `key` behind the unmarked node `start`, for
    /// an open session, and returns the two nodes that border it. Marked
    /// nodes met on the way are unlinked and retired; the view stays as it is.
    pub fn locate_insert_position(
        &mut self,
        start: Shared,
        key: usize,
        session: &Session,
        collector: &mut Collector,
    ) -> (r: (Shared, Shared))
        requires
            old(self).wf(),
            old(collector).wf(),
            old(self).stamps_within(old(collector).generation()),
            old(collector).is_open(session),
            old(self).holds(start),
            !old(self).link_of(start).marked(),
            old(self).key_of(start).rank() < key,
        ensures
            final(self).wf(),
            final(collector).wf(),
            final(self).stamps_within(final(collector).generation()),
            final(collector).sessions() == old(collector).sessions(),
            final(collector).generation() >= old(collector).generation(),
            final(self)@ == old(self)@,
            final(self).capacity() == old(self).capacity(),
            old(self).advances_to(final(self), old(collector).generation()),
            final(self).borders(r.0, r.1, key),
            old(self).settled() ==> *final(self) == *old(self) && *final(collector) == *old(
                collector,
            ),
    {
        let mut op = FindOp::new(start, key, session.pinned());
        proof {
            self.lemma_unmarked_is_live(start);
            let i = choose|i: int|
                0 <= i < collector.sessions().len() && collector.sessions()[i]
                    == session.generation();
            assert(collector.sessions()[i] <= collector.generation());
        }
        while !op.is_done()
            invariant
                self.wf(),
                collector.wf(),
                self.stamps_within(collector.generation()),
                op.generation <= collector.generation(),
                op.safe(self),
                op.in_sync(self),
                op.start == start,
                op.key == key,
                self@ == old(self)@,
                self.capacity() == old(self).capacity(),
                collector.sessions() == old(collector).sessions(),
                collector.generation() >= old(collector).generation(),
                old(self).advances_to(self, old(collector).generation()),
                old(self).settled() ==> *self == *old(self) && *collector == *old(collector)
                    && op.phase != FindPhase::Unlink,
                0 <= op.far(self),
                0 <= op.near(self),
            decreases op.far(self), op.near(self),
        {
            proof {
                if old(self).settled() {
                    op.lemma_reads_only(self);
                }
            }
            op.step(self, collector);
        }
        proof {
            op.lemma_found(self);
        }
        (op.pred, op.curr)
    }

    /// Looks up the live node with key `key`, for an open session: that node
    /// if the key is in the view, null if it is not.
    pub fn lookup(&mut self, key: usize, session: &Session, collector: &mut Collector) -> (r:
        Shared)
        requires
            old(self).wf(),
            old(collector).wf(),
            old(self).stamps_within(old(collector).generation()),
            old(collector).is_open(session),
        ensures
            final(self).wf(),
            final(collector).wf(),
            final(self).stamps_within(final(collector).generation()),
            final(collector).sessions() == old(collector).sessions(),
            final(collector).generation() >= old(collector).generation(),
            final(self)@ == old(self)@,
            final(self).capacity() == old(self).capacity(),
            old(self).advances_to(final(self), old(collector).generation()),
            r.is_null() <==> !old(self)@.contains_key(key),
            !r.is_null() ==> r == old(self)@[key],
            old(self).settled() ==> *final(self) == *old(self) && *final(collector) == *old(
                collector,
            ),
    {
        let head = self.head();
        proof {
            self.lemma_head();
        }
        let (_, curr) = self.locate_insert_position(head, key, session, collector);
        if !curr.is_null() && self.key(curr).is(key) {
            proof {
                self.lemma_live_is_mapped(curr, key);
                self.lemma_holds_not_null(curr);
            }
            curr
        } else {
            proof {
                if self@.contains_key(key) {
                    self.lemma_mapped_is_live(key);
                    self.lemma_unmarked_is_live(curr);
                }
            }
            Shared::null()
        }
    }

    /// Reports whether the view holds `key`, for an open session.
    pub fn contains(&mut self, key: usize, session: &Session, collector: &mut Collector) -> (r:
        bool)
        requires
            old(self).wf(),
            old(collector).wf(),
            old(self).stamps_within(old(collector).generation()),
            old(collector).is_open(session),
        ensures
            final(self).wf(),
            final(collector).wf(),
            final(self).stamps_within(final(collector).generation()),
            final(collector).sessions() == old(collector).sessions(),
            final(collector).generation() >= old(collector).generation(),
            final(self)@ == old(self)@,
            final(self).capacity() == old(self).capacity(),
            old(self).advances_to(final(self), old(collector).generation()),
            r == old(self)@.contains_key(key),
            old(self).settled() ==> *final(self) == *old(self) && *final(collector) == *old(
                collector,
            ),
    {
        !self.lookup(key, session, collector).is_null()
    }
}

} // verus!
