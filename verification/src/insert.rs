//! Insertion into the ordered list, one atomic step at a time.

use vstd::prelude::*;
use crate::collector::Collector;
use crate::collector::Session;
use crate::error::AlreadyExists;
use crate::find::FindOp;
use crate::find::FindPhase;
use crate::protocol::Action;
use crate::protocol::Event;
use crate::list::NodeList;
use crate::shared::Shared;

verus! {

/// Where an insertion stands.
#[derive(Clone, Copy, PartialEq, Eq, Structural, Debug)]
pub enum InsertPhase {
    /// Searching for the place of the key.
    Locating,
    /// About to publish the new node at the place found.
    Linking,
    /// Finished: `outcome` is the result.
    Done,
}

/// The insertion of a key with its payload. It searches for the place of
/// the key; if the search ends at a live node with that key, the key exists
/// already; otherwise it tries to publish a new node there, and searches
/// again whenever that attempt fails.
#[derive(Clone, Copy, PartialEq, Eq, Structural, Debug)]
pub struct InsertOp {
    pub find: FindOp,
    pub payload: Shared,
    pub phase: InsertPhase,
    /// Once finished: the new node, or `None` where the key existed already.
    pub outcome: Option<Shared>,
}

impl InsertOp {
    /// The access that the insertion needs next.
    pub open spec fn next_action(&self) -> Action {
        match self.phase {
            InsertPhase::Locating => self.find.next_action(),
            InsertPhase::Linking => Action::Link {
                pred: self.find.pred,
                curr: self.find.curr,
                key: self.find.key,
                payload: self.payload,
            },
            InsertPhase::Done => self.find.next_action(),
        }
    }

    /// The same insertion in another phase.
    pub open spec fn moved(&self, find: FindOp, phase: InsertPhase, outcome: Option<Shared>) -> InsertOp {
        InsertOp { find, payload: self.payload, phase, outcome }
    }

    /// The insertion after `event`. While it searches, the event goes to the
    /// search; a search that ends at a node with the key ends the insertion,
    /// any other end of the search leads to the attempt to publish. An
    /// attempt that succeeded ends the insertion with the new node; one that
    /// failed starts the search over.
    pub open spec fn after(&self, event: Event) -> InsertOp {
        match self.phase {
            InsertPhase::Locating => {
                let find = self.find.after(event);
                if find.phase != FindPhase::Done {
                    self.moved(find, InsertPhase::Locating, self.outcome)
                } else if find.hit() {
                    self.moved(find, InsertPhase::Done, None)
                } else {
                    self.moved(find, InsertPhase::Linking, self.outcome)
                }
            },
            InsertPhase::Linking => match event {
                Event::Linked { fresh: Some(fresh) } => self.moved(
                    self.find,
                    InsertPhase::Done,
                    Some(fresh),
                ),
                Event::Linked { fresh: None } => self.moved(
                    FindOp::initial(self.find.start, self.find.key, self.find.generation),
                    InsertPhase::Locating,
                    self.outcome,
                ),
                _ => *self,
            },
            InsertPhase::Done => *self,
        }
    }

    /// What the insertion relies on, and what the steps of other operations
    /// leave true.
    pub open spec fn safe(&self, list: &NodeList) -> bool {
        match self.phase {
            InsertPhase::Locating => self.find.safe(list) && self.find.phase != FindPhase::Done,
            InsertPhase::Linking => self.find.safe(list) && self.find.phase == FindPhase::Done && (
            self.find.curr.is_null() || self.find.key < list.key_of(self.find.curr).rank()),
            InsertPhase::Done => true,
        }
    }

    /// Whether the list is still as the insertion last saw it.
    pub open spec fn in_sync(&self, list: &NodeList) -> bool {
        self.phase != InsertPhase::Done ==> self.find.in_sync(list)
    }

    /// First part of the progress measure: the phases still to come.
    pub open spec fn stage(&self) -> int {
        match self.phase {
            InsertPhase::Locating => 2,
            InsertPhase::Linking => 1,
            InsertPhase::Done => 0,
        }
    }

    /// Second part of the progress measure, from the search.
    pub open spec fn far(&self, list: &NodeList) -> int {
        if self.phase == InsertPhase::Locating {
            self.find.far(list)
        } else {
            0
        }
    }

    /// Third part of the progress measure, from the search.
    pub open spec fn near(&self, list: &NodeList) -> int {
        if self.phase == InsertPhase::Locating {
            self.find.near(list)
        } else {
            0
        }
    }

    /// Whether the measure of `self` on `list` lies below that of `before`
    /// on `earlier`.
    pub open spec fn closer(&self, list: &NodeList, before: &InsertOp, earlier: &NodeList) -> bool {
        &&& 0 <= self.far(list)
        &&& 0 <= self.near(list)
        &&& self.stage() < before.stage() || (self.stage() == before.stage() && (self.far(list)
            < before.far(earlier) || (self.far(list) == before.far(earlier) && self.near(list)
            < before.near(earlier))))
    }

    /// What the insertion has done to the list between `earlier` and `later`
    /// when it took effect in between, or has not taken effect yet. A
    /// finished insertion has either added its key with a new live node and
    /// the payload, to a view that lacked the key, or found the key in a view
    /// that it left as it was. An unfinished one has left the view as it was.
    pub open spec fn effect(&self, earlier: &NodeList, later: &NodeList) -> bool {
        if self.phase == InsertPhase::Done {
            match self.outcome {
                Some(fresh) => {
                    &&& !earlier@.contains_key(self.find.key)
                    &&& later@ == earlier@.insert(self.find.key, fresh)
                    &&& fresh.addr == earlier.capacity()
                    &&& later.capacity() == earlier.capacity() + 1
                    &&& later.is_live_with(fresh, self.find.key)
                    &&& later.payload_of(fresh) == self.payload
                },
                None => {
                    &&& earlier@.contains_key(self.find.key)
                    &&& later@ == earlier@
                    &&& later.capacity() == earlier.capacity()
                },
            }
        } else {
            later@ == earlier@ && later.capacity() == earlier.capacity()
        }
    }

    /// An insertion of `key` with `payload` that has not taken a step yet.
    /// The search starts at `start`.
    pub fn new(start: Shared, key: usize, payload: Shared, generation: u64) -> (r: InsertOp)
        ensures
            r.find == FindOp::initial(start, key, generation),
            r.payload == payload,
            r.phase == InsertPhase::Locating,
            r.outcome is None,
    {
        InsertOp {
            find: FindOp::new(start, key, generation),
            payload,
            phase: InsertPhase::Locating,
            outcome: None,
        }
    }

    /// Reports whether the insertion has finished.
    pub fn is_done(&self) -> (r: bool)
        ensures
            r == (self.phase == InsertPhase::Done),
    {
        self.phase == InsertPhase::Done
    }

    /// Names the access that the insertion needs next.
    pub fn action(&self) -> (r: Action)
        ensures
            r == self.next_action(),
    {
        match self.phase {
            InsertPhase::Linking => Action::Link {
                pred: self.find.pred,
                curr: self.find.curr,
                key: self.find.key,
                payload: self.payload,
            },
            _ => self.find.action(),
        }
    }

    /// Takes in what the access has found or done, and decides how the
    /// insertion goes on.
    pub fn resume(&mut self, event: Event)
        ensures
            *final(self) == old(self).after(event),
    {
        match self.phase {
            InsertPhase::Locating => {
                self.find.resume(event);
                if self.find.is_done() {
                    if self.find.found() {
                        self.outcome = None;
                        self.phase = InsertPhase::Done;
                    } else {
                        self.phase = InsertPhase::Linking;
                    }
                }
            },
            InsertPhase::Linking => match event {
                Event::Linked { fresh: Some(fresh) } => {
                    self.outcome = Some(fresh);
                    self.phase = InsertPhase::Done;
                },
                Event::Linked { fresh: None } => {
                    self.find = FindOp::new(self.find.start, self.find.key, self.find.generation);
                    self.phase = InsertPhase::Locating;
                },
                _ => {},
            },
            InsertPhase::Done => {},
        }
    }

    /// An insertion that is safe on a list asks for an access that the
    /// list can perform.
    pub proof fn lemma_admitted(&self, list: &NodeList)
        requires
            self.safe(list),
            self.phase != InsertPhase::Done,
        ensures
            list.admits(self.next_action(), self.find.generation),
    {
    }

    /// What one step does, on any memory that answers as `reply` says and
    /// changes as `becomes` says. The insertion stays safe; the view changes
    /// in the step that publishes the new node, by exactly the new key, and
    /// in no other; the list advances as every atomic step does. An
    /// insertion that ends because the key exists has seen the key in the
    /// view in that same step. If the list was as the insertion last saw it,
    /// it is so again after the step, and the insertion is closer to its
    /// end.
    pub proof fn lemma_step(&self, list: &NodeList, later: &NodeList, stamp: u64)
        requires
            list.wf(),
            later.wf(),
            self.safe(list),
            self.phase != InsertPhase::Done,
            self.find.generation <= stamp,
            list.becomes(later, self.next_action(), stamp),
        ensures
            self.after(list.reply(self.next_action())).find.same_task(&self.find),
            self.after(list.reply(self.next_action())).payload == self.payload,
            self.after(list.reply(self.next_action())).safe(later),
            self.after(list.reply(self.next_action())).effect(list, later),
            list.advances_to(later, stamp),
            self.in_sync(list) ==> self.after(list.reply(self.next_action())).in_sync(later),
            self.in_sync(list) ==> self.after(list.reply(self.next_action())).closer(
                later,
                self,
                list,
            ),
    {
        if self.phase == InsertPhase::Locating {
            self.find.lemma_step(list, later, stamp);
            let find = self.find.after(list.reply(self.find.next_action()));
            if find.phase == FindPhase::Done && find.hit() {
                later.lemma_head();
                later.lemma_unmarked_is_live(find.curr);
                later.lemma_live_is_mapped(find.curr, find.key);
            }
        }
    }

    /// Takes the next step on `list`: performs the access that the
    /// insertion needs and takes in the event. The view changes in one step
    /// only, the successful attempt to publish, by exactly the new key. If
    /// the list is as the insertion last saw it, the step brings the
    /// insertion closer to its end.
    pub fn step(&mut self, list: &mut NodeList, collector: &mut Collector)
        requires
            old(list).wf(),
            old(collector).wf(),
            old(list).stamps_within(old(collector).generation()),
            old(self).find.generation <= old(collector).generation(),
            old(self).safe(old(list)),
            old(self).phase != InsertPhase::Done,
        ensures
            *final(self) == old(self).after(old(list).reply(old(self).next_action())),
            old(list).becomes(final(list), old(self).next_action(), old(collector).generation()),
            final(list).wf(),
            final(collector).wf(),
            final(list).stamps_within(final(collector).generation()),
            final(collector).sessions() == old(collector).sessions(),
            final(collector).generation() >= old(collector).generation(),
            !old(list).retires(old(self).next_action()) ==> *final(collector) == *old(collector),
            old(list).retires(old(self).next_action()) ==> final(collector).generation() == old(
                collector,
            ).next_generation(),
            final(self).find.same_task(&old(self).find),
            final(self).payload == old(self).payload,
            final(self).safe(final(list)),
            final(self).effect(old(list), final(list)),
            old(list).advances_to(final(list), old(collector).generation()),
            old(self).in_sync(old(list)) ==> final(self).in_sync(final(list)),
            old(self).in_sync(old(list)) ==> final(self).closer(final(list), old(self), old(list)),
    {
        let action = self.action();
        proof {
            self.lemma_admitted(list);
        }
        let event = list.perform(action, self.find.generation, collector);
        proof {
            old(self).lemma_step(old(list), list, old(collector).generation());
        }
        self.resume(event);
    }

    /// What the steps of other operations leave in place keeps an insertion
    /// safe.
    pub proof fn lemma_safe_after_step(&self, earlier: &NodeList, later: &NodeList, generation: u64)
        requires
            self.safe(earlier),
            earlier.advances_to(later, generation),
            self.find.generation <= generation,
        ensures
            self.safe(later),
    {
    }

    /// A collection keeps an insertion safe while a session that pins its
    /// generation is open.
    pub proof fn lemma_safe_after_collect(
        &self,
        earlier: &NodeList,
        later: &NodeList,
        collector: &Collector,
    )
        requires
            self.safe(earlier),
            earlier.collect_frame(later, collector),
            collector.pins(self.find.generation),
        ensures
            self.safe(later),
    {
        if self.phase != InsertPhase::Done {
            self.find.lemma_safe_after_collect(earlier, later, collector);
        }
    }
}

impl NodeList {
    /// Inserts `key` with `payload`, for an open session. Where the view
    /// lacks the key, a new live node carries it afterwards and is returned;
    /// where the view holds the key, nothing in the view changes and the
    /// insertion reports that the key exists already.
    pub fn insert(
        &mut self,
        key: usize,
        payload: Shared,
        session: &Session,
        collector: &mut Collector,
    ) -> (r: Result<Shared, AlreadyExists>)
        requires
            old(self).wf(),
            old(collector).wf(),
            old(self).stamps_within(old(collector).generation()),
            old(collector).is_open(session),
        ensures
            final(self).wf(),
            final(collector).wf(),
            final(self).stamps_within(final(collector).generation()),
            final(collector).sessions() == old(collector).sessions(),
            final(collector).generation() >= old(collector).generation(),
            old(self).advances_to(final(self), old(collector).generation()),
            r is Ok <==> !old(self)@.contains_key(key),
            r is Err ==> final(self)@ == old(self)@,
            r is Err ==> final(self).capacity() == old(self).capacity(),
            r matches Ok(fresh) ==> {
                &&& final(self)@ == old(self)@.insert(key, fresh)
                &&& fresh.addr == old(self).capacity()
                &&& final(self).capacity() == old(self).capacity() + 1
                &&& final(self).is_live_with(fresh, key)
                &&& final(self).payload_of(fresh) == payload
            },
            old(self).settled() ==> final(self).settled() && *final(collector) == *old(collector),
            old(self).settled() && r is Err ==> *final(self) == *old(self),
            old(self).settled() ==> (r matches Ok(fresh) ==> exists|pred: Shared| #[trigger]
                old(self).links(final(self), pred, fresh, key, payload) && old(self).borders(
                    pred,
                    old(self).link_of(pred).inner(),
                    key,
                )),
    {
        let head = self.head();
        let mut op = InsertOp::new(head, key, payload, session.pinned());
        proof {
            self.lemma_head();
            let i = choose|i: int|
                0 <= i < collector.sessions().len() && collector.sessions()[i]
                    == session.generation();
            assert(collector.sessions()[i] <= collector.generation());
        }
        while !op.is_done()
            invariant
                self.wf(),
                collector.wf(),
                self.stamps_within(collector.generation()),
                op.find.generation <= collector.generation(),
                op.safe(self),
                op.in_sync(self),
                op.find.key == key,
                op.payload == payload,
                op.effect(old(self), self),
                collector.sessions() == old(collector).sessions(),
                collector.generation() >= old(collector).generation(),
                old(self).advances_to(self, old(collector).generation()),
                old(self).settled() ==> *collector == *old(collector),
                old(self).settled() && op.phase != InsertPhase::Done ==> *self == *old(self)
                    && op.find.phase != FindPhase::Unlink,
                old(self).settled() && op.phase == InsertPhase::Done && op.outcome is None ==> *self
                    == *old(self),
                old(self).settled() && op.phase == InsertPhase::Done ==> (
                op.outcome matches Some(fresh) ==> old(self).borders(
                    op.find.pred,
                    op.find.curr,
                    key,
                ) && old(self).link_of(op.find.pred).inner() == op.find.curr && old(self).links(
                    self,
                    op.find.pred,
                    fresh,
                    key,
                    payload,
                )),
                0 <= op.far(self),
                0 <= op.near(self),
            decreases op.stage(), op.far(self), op.near(self),
        {
            proof {
                if old(self).settled() {
                    if op.phase == InsertPhase::Locating {
                        op.find.lemma_reads_only(self);
                    } else {
                        op.find.lemma_found(self);
                    }
                }
            }
            op.step(self, collector);
        }
        match op.outcome {
            Some(fresh) => Ok(fresh),
            None => Err(AlreadyExists),
        }
    }
}

} // verus!
