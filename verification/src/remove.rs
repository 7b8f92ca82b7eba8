//! Removal from the ordered list, one atomic step at a time.

use vstd::prelude::*;
use crate::collector::Collector;
use crate::collector::Session;
use crate::error::NotFound;
use crate::find::FindOp;
use crate::find::FindPhase;
use crate::key::NodeKey;
use crate::list::NodeList;
use crate::marking::Marking;
use crate::protocol::Action;
use crate::protocol::Event;
use crate::shared::Shared;

verus! {

/// Where a removal stands.
#[derive(Clone, Copy, PartialEq, Eq, Structural, Debug)]
pub enum RemovePhase {
    /// Searching for the node with the key.
    Locating,
    /// About to read the link of the node found.
    Reading,
    /// About to mark the node: the logical deletion.
    Marking,
    /// About to unlink the marked node, once.
    Unlinking,
    /// Finished: `removed` is the result.
    Done,
}

/// The removal of a key. It searches for the live node with the key and
/// reports its absence if there is none. Otherwise it reads the node's link,
/// marks the node, which deletes it logically, and tries once to unlink it;
/// a later search finishes the unlinking if that attempt fails. It searches
/// again when it finds the node marked by someone else or fails to mark it.
#[derive(Clone, Copy, PartialEq, Eq, Structural, Debug)]
pub struct RemoveOp {
    pub find: FindOp,
    pub next: Shared,
    pub phase: RemovePhase,
    /// Once finished: whether this removal deleted the node.
    pub removed: bool,
}

impl RemoveOp {
    /// The access that the removal needs next.
    pub open spec fn next_action(&self) -> Action {
        match self.phase {
            RemovePhase::Locating => self.find.next_action(),
            RemovePhase::Reading => Action::Load { node: self.find.curr },
            RemovePhase::Marking => Action::Mark {
                curr: self.find.curr,
                next: self.next,
                key: self.find.key,
            },
            RemovePhase::Unlinking => Action::Unlink {
                pred: self.find.pred,
                curr: self.find.curr,
                succ: self.next,
            },
            RemovePhase::Done => self.find.next_action(),
        }
    }

    /// The same removal in another phase.
    pub open spec fn moved(&self, find: FindOp, next: Shared, phase: RemovePhase, removed: bool) -> RemoveOp {
        RemoveOp { find, next, phase, removed }
    }

    /// The removal, about to search again from the start.
    pub open spec fn restarted(&self) -> RemoveOp {
        self.moved(
            FindOp::initial(self.find.start, self.find.key, self.find.generation),
            self.next,
            RemovePhase::Locating,
            self.removed,
        )
    }

    /// The removal after `event`. While it searches, the event goes to the
    /// search; a search that ends at a node with the key leads to the read
    /// of that node's link, any other end of the search ends the removal
    /// with nothing removed. A link read marked starts the search over; one
    /// read unmarked leads to the marking. A marking that succeeded leads to
    /// the unlinking; one that failed starts the search over. The unlinking
    /// ends the removal, whether it succeeded or not.
    pub open spec fn after(&self, event: Event) -> RemoveOp {
        match self.phase {
            RemovePhase::Locating => {
                let find = self.find.after(event);
                if find.phase != FindPhase::Done {
                    self.moved(find, self.next, RemovePhase::Locating, self.removed)
                } else if find.hit() {
                    self.moved(find, self.next, RemovePhase::Reading, self.removed)
                } else {
                    self.moved(find, self.next, RemovePhase::Done, false)
                }
            },
            RemovePhase::Reading => match event {
                Event::Loaded { link, key } => if link.marked() {
                    self.restarted()
                } else {
                    self.moved(self.find, link.inner(), RemovePhase::Marking, self.removed)
                },
                _ => *self,
            },
            RemovePhase::Marking => match event {
                Event::Marked { done } => if done {
                    self.moved(self.find, self.next, RemovePhase::Unlinking, self.removed)
                } else {
                    self.restarted()
                },
                _ => *self,
            },
            RemovePhase::Unlinking => match event {
                Event::Unlinked { done } => self.moved(
                    self.find,
                    self.next,
                    RemovePhase::Done,
                    true,
                ),
                _ => *self,
            },
            RemovePhase::Done => *self,
        }
    }

    /// What the removal relies on, and what the steps of other operations
    /// leave true.
    pub open spec fn safe(&self, list: &NodeList) -> bool {
        match self.phase {
            RemovePhase::Locating => self.find.safe(list) && self.find.phase != FindPhase::Done,
            RemovePhase::Reading => self.targets(list),
            RemovePhase::Marking => self.targets(list),
            RemovePhase::Unlinking => self.targets(list) && list.link_of(self.find.curr)
                == Marking::Marked(self.next),
            RemovePhase::Done => true,
        }
    }

    /// Whether the search has ended at a node with the key.
    pub open spec fn targets(&self, list: &NodeList) -> bool {
        &&& self.find.safe(list)
        &&& self.find.phase == FindPhase::Done
        &&& !self.find.curr.is_null()
        &&& list.key_of(self.find.curr) == NodeKey::Finite(self.find.key)
    }

    /// Whether the list is still as the removal last saw it.
    pub open spec fn in_sync(&self, list: &NodeList) -> bool {
        match self.phase {
            RemovePhase::Locating => self.find.in_sync(list),
            RemovePhase::Reading => self.find.in_sync(list),
            RemovePhase::Marking => self.find.in_sync(list) && list.link_of(self.find.curr)
                == Marking::Unmarked(self.next),
            RemovePhase::Unlinking => list.link_of(self.find.pred) == Marking::Unmarked(
                self.find.curr,
            ),
            RemovePhase::Done => true,
        }
    }

    /// First part of the progress measure: the phases still to come.
    pub open spec fn stage(&self) -> int {
        match self.phase {
            RemovePhase::Locating => 4,
            RemovePhase::Reading => 3,
            RemovePhase::Marking => 2,
            RemovePhase::Unlinking => 1,
            RemovePhase::Done => 0,
        }
    }

    /// Second part of the progress measure, from the search.
    pub open spec fn far(&self, list: &NodeList) -> int {
        if self.phase == RemovePhase::Locating {
            self.find.far(list)
        } else {
            0
        }
    }

    /// Third part of the progress measure, from the search.
    pub open spec fn near(&self, list: &NodeList) -> int {
        if self.phase == RemovePhase::Locating {
            self.find.near(list)
        } else {
            0
        }
    }

    /// Whether the measure of `self` on `list` lies below that of `before`
    /// on `earlier`.
    pub open spec fn closer(&self, list: &NodeList, before: &RemoveOp, earlier: &NodeList) -> bool {
        &&& 0 <= self.far(list)
        &&& 0 <= self.near(list)
        &&& self.stage() < before.stage() || (self.stage() == before.stage() && (self.far(list)
            < before.far(earlier) || (self.far(list) == before.far(earlier) && self.near(list)
            < before.near(earlier))))
    }

    /// Whether the removal has finished without marking a node.
    pub open spec fn ended_without_marking(&self) -> bool {
        self.phase == RemovePhase::Done && !self.removed
    }

    /// Whether the removal has marked its node.
    pub open spec fn has_marked(&self) -> bool {
        self.phase == RemovePhase::Unlinking || (self.phase == RemovePhase::Done && self.removed)
    }

    /// What the removal has done to the view between `earlier` and `later`
    /// when it took effect in between, or has not taken effect yet: once it
    /// has marked its node, the live node with its key, that key is gone
    /// from the view; until it has, and when it ends without marking, the
    /// view is as it was.
    pub open spec fn effect(&self, earlier: &NodeList, later: &NodeList) -> bool {
        &&& later.capacity() == earlier.capacity()
        &&& if self.has_marked() {
            &&& earlier@.contains_key(self.find.key)
            &&& earlier@[self.find.key] == self.find.curr
            &&& later@ == earlier@.remove(self.find.key)
        } else {
            later@ == earlier@
        }
    }

    /// What one step has done to the view between `earlier` and `later`,
    /// where `before` is the removal before the step.
    pub open spec fn step_effect(&self, before: &RemoveOp, earlier: &NodeList, later: &NodeList) -> bool {
        &&& before.has_marked() ==> self.has_marked() && self.find.curr == before.find.curr
        &&& if self.has_marked() && !before.has_marked() {
            self.effect(earlier, later)
        } else {
            later@ == earlier@ && later.capacity() == earlier.capacity()
        }
    }

    /// A removal of `key` that has not taken a step yet. The search starts
    /// at `start`.
    pub fn new(start: Shared, key: usize, generation: u64) -> (r: RemoveOp)
        ensures
            r.find == FindOp::initial(start, key, generation),
            r.phase == RemovePhase::Locating,
            !r.removed,
    {
        RemoveOp {
            find: FindOp::new(start, key, generation),
            next: Shared::null(),
            phase: RemovePhase::Locating,
            removed: false,
        }
    }

    /// Reports whether the removal has finished.
    pub fn is_done(&self) -> (r: bool)
        ensures
            r == (self.phase == RemovePhase::Done),
    {
        self.phase == RemovePhase::Done
    }

    /// Names the access that the removal needs next.
    pub fn action(&self) -> (r: Action)
        ensures
            r == self.next_action(),
    {
        match self.phase {
            RemovePhase::Reading => Action::Load { node: self.find.curr },
            RemovePhase::Marking => Action::Mark {
                curr: self.find.curr,
                next: self.next,
                key: self.find.key,
            },
            RemovePhase::Unlinking => Action::Unlink {
                pred: self.find.pred,
                curr: self.find.curr,
                succ: self.next,
            },
            _ => self.find.action(),
        }
    }

    /// Takes in what the access has found or done, and decides how the
    /// removal goes on.
    pub fn resume(&mut self, event: Event)
        ensures
            *final(self) == old(self).after(event),
    {
        match self.phase {
            RemovePhase::Locating => {
                self.find.resume(event);
                if self.find.is_done() {
                    if self.find.found() {
                        self.phase = RemovePhase::Reading;
                    } else {
                        self.removed = false;
                        self.phase = RemovePhase::Done;
                    }
                }
            },
            RemovePhase::Reading => match event {
                Event::Loaded { link, key: _ } => {
                    if link.is_marked() {
                        self.restart();
                    } else {
                        self.next = *link.deref();
                        self.phase = RemovePhase::Marking;
                    }
                },
                _ => {},
            },
            RemovePhase::Marking => match event {
                Event::Marked { done } => {
                    if done {
                        self.phase = RemovePhase::Unlinking;
                    } else {
                        self.restart();
                    }
                },
                _ => {},
            },
            RemovePhase::Unlinking => match event {
                Event::Unlinked { done: _ } => {
                    self.removed = true;
                    self.phase = RemovePhase::Done;
                },
                _ => {},
            },
            RemovePhase::Done => {},
        }
    }

    /// Starts the search over.
    fn restart(&mut self)
        ensures
            *final(self) == old(self).restarted(),
    {
        self.find = FindOp::new(self.find.start, self.find.key, self.find.generation);
        self.phase = RemovePhase::Locating;
    }

    /// A removal that is safe on a list asks for an access that the list
    /// can perform.
    pub proof fn lemma_admitted(&self, list: &NodeList)
        requires
            self.safe(list),
            self.phase != RemovePhase::Done,
        ensures
            list.admits(self.next_action(), self.find.generation),
    {
    }

    /// What one step does, on any memory that answers as `reply` says and
    /// changes as `becomes` says. The removal stays safe; the view changes
    /// in the step that marks the node, by exactly the key removed, and in
    /// no other; the list advances as every atomic step does. If the list
    /// was as the removal last saw it, it is so again after the step, the
    /// removal is closer to its end, and a removal that ends without
    /// marking has found the key absent.
    pub proof fn lemma_step(&self, list: &NodeList, later: &NodeList, stamp: u64)
        requires
            list.wf(),
            later.wf(),
            self.safe(list),
            self.phase != RemovePhase::Done,
            self.find.generation <= stamp,
            list.becomes(later, self.next_action(), stamp),
        ensures
            self.after(list.reply(self.next_action())).find.same_task(&self.find),
            self.after(list.reply(self.next_action())).safe(later),
            self.after(list.reply(self.next_action())).step_effect(self, list, later),
            list.advances_to(later, stamp),
            self.in_sync(list) ==> self.after(list.reply(self.next_action())).in_sync(later),
            self.in_sync(list) ==> self.after(list.reply(self.next_action())).closer(
                later,
                self,
                list,
            ),
            self.in_sync(list) && self.after(
                list.reply(self.next_action()),
            ).ended_without_marking() ==> !later@.contains_key(self.find.key),
    {
        if self.phase == RemovePhase::Locating {
            self.find.lemma_step(list, later, stamp);
            let find = self.find.after(list.reply(self.find.next_action()));
            if find.phase == FindPhase::Done && !find.hit() && self.in_sync(list) {
                find.lemma_found(later);
                if later@.contains_key(find.key) {
                    later.lemma_unmarked_is_live(find.curr);
                }
            }
        }
    }

    /// Takes the next step on `list`: performs the access that the removal
    /// needs and takes in the event. The view changes in one step only, the
    /// successful marking, by exactly the key removed. If the list is as the
    /// removal last saw it, the step brings the removal closer to its end,
    /// and a removal that ends without marking has found the key absent.
    pub fn step(&mut self, list: &mut NodeList, collector: &mut Collector)
        requires
            old(list).wf(),
            old(collector).wf(),
            old(list).stamps_within(old(collector).generation()),
            old(self).find.generation <= old(collector).generation(),
            old(self).safe(old(list)),
            old(self).phase != RemovePhase::Done,
        ensures
            *final(self) == old(self).after(old(list).reply(old(self).next_action())),
            old(list).becomes(final(list), old(self).next_action(), old(collector).generation()),
            final(list).wf(),
            final(collector).wf(),
            final(list).stamps_within(final(collector).generation()),
            final(collector).sessions() == old(collector).sessions(),
            final(collector).generation() >= old(collector).generation(),
            !old(list).retires(old(self).next_action()) ==> *final(collector) == *old(collector),
            old(list).retires(old(self).next_action()) ==> final(collector).generation() == old(
                collector,
            ).next_generation(),
            final(self).find.same_task(&old(self).find),
            final(self).safe(final(list)),
            final(self).step_effect(old(self), old(list), final(list)),
            old(list).advances_to(final(list), old(collector).generation()),
            old(self).in_sync(old(list)) ==> final(self).in_sync(final(list)),
            old(self).in_sync(old(list)) ==> final(self).closer(final(list), old(self), old(list)),
            old(self).in_sync(old(list)) && final(self).ended_without_marking()
                ==> !final(list)@.contains_key(old(self).find.key),
    {
        let action = self.action();
        proof {
            self.lemma_admitted(list);
        }
        let event = list.perform(action, self.find.generation, collector);
        proof {
            old(self).lemma_step(old(list), list, old(collector).generation());
        }
        self.resume(event);
    }

    /// What the steps of other operations leave in place keeps a removal
    /// safe.
    pub proof fn lemma_safe_after_step(&self, earlier: &NodeList, later: &NodeList, generation: u64)
        requires
            self.safe(earlier),
            earlier.advances_to(later, generation),
            self.find.generation <= generation,
        ensures
            self.safe(later),
    {
    }

    /// A collection keeps a removal safe while a session that pins its
    /// generation is open.
    pub proof fn lemma_safe_after_collect(
        &self,
        earlier: &NodeList,
        later: &NodeList,
        collector: &Collector,
    )
        requires
            self.safe(earlier),
            earlier.collect_frame(later, collector),
            collector.pins(self.find.generation),
        ensures
            self.safe(later),
    {
        if self.phase != RemovePhase::Done {
            self.find.lemma_safe_after_collect(earlier, later, collector);
            if self.phase != RemovePhase::Locating {
                earlier.lemma_protected_survives(
                    later,
                    collector,
                    self.find.curr,
                    self.find.generation,
                );
            }
        }
    }
}

impl NodeList {
    /// Removes `key`, for an open session. Where the view holds the key, its
    /// live node is marked, unlinked and retired, the key leaves the view
    /// and the node is returned; where the view lacks the key, nothing in
    /// the view changes and the removal reports that the key was not found.
    pub fn remove(&mut self, key: usize, session: &Session, collector: &mut Collector) -> (r:
        Result<Shared, NotFound>)
        requires
            old(self).wf(),
            old(collector).wf(),
            old(self).stamps_within(old(collector).generation()),
            old(collector).is_open(session),
        ensures
            final(self).wf(),
            final(collector).wf(),
            final(self).stamps_within(final(collector).generation()),
            final(collector).sessions() == old(collector).sessions(),
            final(collector).generation() >= old(collector).generation(),
            final(self).capacity() == old(self).capacity(),
            old(self).advances_to(final(self), old(collector).generation()),
            r is Ok <==> old(self)@.contains_key(key),
            r is Err ==> final(self)@ == old(self)@,
            r matches Ok(gone) ==> gone == old(self)@[key] && final(self)@ == old(self)@.remove(key),
            r matches Ok(gone) ==> final(self).holds(gone) && final(self).link_of(gone).marked()
                && final(self).stamp_of(gone) is Some,
            old(self).settled() ==> final(self).settled(),
            old(self).settled() && r is Err ==> *final(self) == *old(self) && *final(collector)
                == *old(collector),
            old(self).settled() ==> (r matches Ok(gone) ==> final(collector).generation() == old(
                collector,
            ).next_generation() && exists|pred: Shared, mid: NodeList|
                #![trigger old(self).marks(&mid, gone, key), old(self).borders(pred, gone, key)]
                old(self).marks(&mid, gone, key) && old(self).borders(pred, gone, key)
                    && mid.unlinks(final(self), pred, gone, old(collector).generation())),
    {
        let head = self.head();
        let ghost mut mid = *self;
        let mut op = RemoveOp::new(head, key, session.pinned());
        proof {
            self.lemma_head();
            let i = choose|i: int|
                0 <= i < collector.sessions().len() && collector.sessions()[i]
                    == session.generation();
            assert(collector.sessions()[i] <= collector.generation());
        }
        while !op.is_done()
            invariant
                self.wf(),
                collector.wf(),
                self.stamps_within(collector.generation()),
                op.find.generation <= collector.generation(),
                op.safe(self),
                op.in_sync(self),
                op.find.key == key,
                op.effect(old(self), self),
                op.ended_without_marking() ==> !self@.contains_key(key),
                op.has_marked() ==> self.holds(op.find.curr) && self.link_of(op.find.curr).marked(),
                op.phase == RemovePhase::Done && op.removed ==> self.stamp_of(op.find.curr) is Some,
                collector.sessions() == old(collector).sessions(),
                collector.generation() >= old(collector).generation(),
                old(self).advances_to(self, old(collector).generation()),
                old(self).settled() && !op.has_marked() ==> *self == *old(self) && *collector
                    == *old(collector) && op.find.phase != FindPhase::Unlink,
                old(self).settled() && op.has_marked() ==> old(self).borders(
                    op.find.pred,
                    op.find.curr,
                    key,
                ) && old(self).marks(&mid, op.find.curr, key),
                old(self).settled() && op.phase == RemovePhase::Unlinking ==> mid == *self
                    && *collector == *old(collector),
                old(self).settled() && op.phase == RemovePhase::Done && op.removed ==> mid.unlinks(
                    self,
                    op.find.pred,
                    op.find.curr,
                    old(collector).generation(),
                ) && collector.generation() == old(collector).next_generation(),
                0 <= op.far(self),
                0 <= op.near(self),
            decreases op.stage(), op.far(self), op.near(self),
        {
            proof {
                if old(self).settled() {
                    if op.phase == RemovePhase::Locating {
                        op.find.lemma_reads_only(self);
                    } else if op.phase == RemovePhase::Marking {
                        op.find.lemma_found(self);
                    }
                }
            }
            let ghost marking = op.phase == RemovePhase::Marking;
            op.step(self, collector);
            proof {
                if marking && op.phase == RemovePhase::Unlinking {
                    mid = *self;
                }
            }
        }
        if op.removed {
            Ok(op.find.curr)
        } else {
            Err(NotFound)
        }
    }
}

} // verus!
