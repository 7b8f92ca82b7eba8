//! Generations and sessions: when a retired node may be released.

use vstd::prelude::*;

verus! {

/// The token of an open session. It pins the generation that was current
/// when the session began: no node retired at that generation or later is
/// released while the session is open.
#[derive(Debug)]
pub struct Session {
    generation: u64,
}

impl Session {
    /// The generation this session pins.
    pub closed spec fn generation(&self) -> u64 {
        self.generation
    }

    /// Reads the generation this session pins.
    pub fn pinned(&self) -> (r: u64)
        ensures
            r == self.generation(),
    {
        self.generation
    }
}

/// The global generation counter and the registry of open sessions.
#[derive(Debug)]
pub struct Collector {
    generation: u64,
    pinned: Vec<u64>,
}

/// Whether `i` is the first place at which `pins` holds `generation`.
pub open spec fn first_pin(pins: Seq<u64>, generation: u64, i: int) -> bool {
    &&& 0 <= i < pins.len()
    &&& pins[i] == generation
    &&& forall|j: int| 0 <= j < i ==> pins[j] != generation
}

impl Collector {
    /// The current generation.
    pub closed spec fn generation(&self) -> u64 {
        self.generation
    }

    /// The generations pinned by the open sessions, oldest session first.
    pub closed spec fn sessions(&self) -> Seq<u64> {
        self.pinned@
    }

    /// No session pins a generation that has not begun yet.
    pub open spec fn wf(&self) -> bool {
        forall|i: int| 0 <= i < self.sessions().len() ==> #[trigger] self.sessions()[i] <= self.generation()
    }

    /// Whether a session that pins `generation` is open.
    pub open spec fn pins(&self, generation: u64) -> bool {
        self.sessions().contains(generation)
    }

    /// Whether `session` is open.
    pub open spec fn is_open(&self, session: &Session) -> bool {
        self.pins(session.generation())
    }

    /// Whether a node retired with stamp `stamp` may be released: every open
    /// session began after that generation.
    pub open spec fn reclaimable(&self, stamp: u64) -> bool {
        forall|i: int| 0 <= i < self.sessions().len() ==> stamp < #[trigger] self.sessions()[i]
    }

    /// The generation that follows the current one; the counter stops at
    /// its largest value.
    pub open spec fn next_generation(&self) -> u64 {
        if self.generation() < u64::MAX {
            (self.generation() + 1) as u64
        } else {
            self.generation()
        }
    }

    /// A collector at generation 0 with no open session.
    pub fn new() -> (r: Collector)
        ensures
            r.generation() == 0,
            r.sessions() == Seq::<u64>::empty(),
            r.wf(),
    {
        Collector { generation: 0, pinned: Vec::new() }
    }

    /// Begins a session, which pins the current generation.
    pub fn enter(&mut self) -> (session: Session)
        ensures
            session.generation() == old(self).generation(),
            final(self).generation() == old(self).generation(),
            final(self).sessions() == old(self).sessions().push(old(self).generation()),
            final(self).is_open(&session),
            old(self).wf() ==> final(self).wf(),
    {
        let generation: u64 = self.generation;
        self.pinned.push(generation);
        assert(self.pinned@[self.pinned@.len() - 1] == generation);
        Session { generation }
    }

    /// Ends `session`: its entry, the oldest that pins the same generation,
    /// leaves the registry. A session that is not open changes nothing.
    pub fn leave(&mut self, session: Session)
        ensures
            final(self).generation() == old(self).generation(),
            old(self).is_open(&session) ==> exists|i: int|
                first_pin(old(self).sessions(), session.generation(), i) && final(self).sessions()
                    == old(self).sessions().remove(i),
            !old(self).is_open(&session) ==> final(self).sessions() == old(self).sessions(),
            old(self).wf() ==> final(self).wf(),
    {
        let mut i: usize = 0;
        while i < self.pinned.len()
            invariant
                i <= self.pinned@.len(),
                self.pinned@ == old(self).pinned@,
                self.generation == old(self).generation,
                forall|j: int| 0 <= j < i ==> self.pinned@[j] != session.generation,
            decreases self.pinned@.len() - i,
        {
            if self.pinned[i] == session.generation {
                assert(first_pin(old(self).sessions(), session.generation(), i as int));
                self.pinned.remove(i);
                return ;
            }
            i += 1;
        }
    }

    /// Reports whether a node retired with stamp `stamp` may be released.
    pub fn can_reclaim(&self, stamp: u64) -> (r: bool)
        ensures
            r == self.reclaimable(stamp),
    {
        let mut i: usize = 0;
        while i < self.pinned.len()
            invariant
                i <= self.pinned@.len(),
                forall|j: int| 0 <= j < i ==> stamp < self.pinned@[j],
            decreases self.pinned@.len() - i,
        {
            if self.pinned[i] <= stamp {
                assert(self.sessions()[i as int] <= stamp);
                return false;
            }
            i += 1;
        }
        true
    }

    /// Hands out the stamp for a retirement, which is the current generation,
    /// and begins the next generation. The counter stops at its largest value.
    pub fn stamp(&mut self) -> (r: u64)
        ensures
            r == old(self).generation(),
            final(self).sessions() == old(self).sessions(),
            final(self).generation() == old(self).next_generation(),
            old(self).wf() ==> final(self).wf(),
    {
        let stamp: u64 = self.generation;
        if self.generation < u64::MAX {
            self.generation = self.generation + 1;
        }
        stamp
    }
}

} // verus!
