use concurrentgraph::collector::Collector;
use concurrentgraph::collector::Session;
use concurrentgraph::insert::InsertOp;
use concurrentgraph::insert::InsertPhase;
use concurrentgraph::list::NodeList;
use concurrentgraph::marking::Marking;
use concurrentgraph::protocol::Action;
use concurrentgraph::protocol::Event;
use concurrentgraph::remove::RemoveOp;
use concurrentgraph::remove::RemovePhase;
use concurrentgraph::shared::Shared;
use std::collections::BTreeSet;

struct Dice(u64);

impl Dice {
    fn roll(&mut self, sides: u64) -> u64 {
        self.0 = self
            .0
            .wrapping_mul(6364136223846793005)
            .wrapping_add(1442695040888963407);
        (self.0 >> 33) % sides
    }
}

enum Task {
    Insert(InsertOp),
    Remove(RemoveOp),
}

struct Running {
    task: Task,
    session: Session,
    key: usize,
    seen_absent: bool,
}

fn note_absent(running: &mut Vec<Running>, key: usize) {
    for other in running.iter_mut() {
        if other.key == key {
            other.seen_absent = true;
        }
    }
}

fn step_one(
    at: usize,
    running: &mut Vec<Running>,
    list: &mut NodeList,
    collector: &mut Collector,
    live: &mut BTreeSet<usize>,
) {
    let key = running[at].key;
    let mut finished = false;
    let mut removed_now = false;
    match &mut running[at].task {
        Task::Insert(op) => {
            op.step(list, collector);
            if op.is_done() {
                finished = true;
                match op.outcome {
                    Some(node) => {
                        assert!(live.insert(key));
                        assert!(list.alive(node));
                    }
                    None => assert!(live.contains(&key)),
                }
            }
        }
        Task::Remove(op) => {
            let before = op.phase;
            op.step(list, collector);
            if before == RemovePhase::Marking && op.phase == RemovePhase::Unlinking {
                assert!(live.remove(&key));
                removed_now = true;
            }
            if op.is_done() {
                finished = true;
                if !op.removed {
                    assert!(running[at].seen_absent);
                }
            }
        }
    }
    if removed_now {
        note_absent(running, key);
    }
    if finished {
        let done = running.swap_remove(at);
        collector.leave(done.session);
    }
}

fn run_schedule(seed: u64, rounds: usize, keys: u64, width: usize) {
    let mut dice = Dice(seed);
    let mut collector = Collector::new();
    let mut list = NodeList::new();
    let mut live: BTreeSet<usize> = BTreeSet::new();
    let mut running: Vec<Running> = Vec::new();
    for _ in 0..rounds {
        let choice = dice.roll(10);
        if choice < 3 && running.len() < width {
            let key = dice.roll(keys) as usize;
            let session = collector.enter();
            let task = if dice.roll(2) == 0 {
                Task::Insert(InsertOp::new(list.head(), key, Shared::null(), session.pinned()))
            } else {
                Task::Remove(RemoveOp::new(list.head(), key, session.pinned()))
            };
            let seen_absent = !live.contains(&key);
            running.push(Running { task, session, key, seen_absent });
        } else if choice == 3 {
            list.collect(&collector);
        } else if !running.is_empty() {
            let at = dice.roll(running.len() as u64) as usize;
            step_one(at, &mut running, &mut list, &mut collector, &mut live);
        }
    }
    while !running.is_empty() {
        let at = dice.roll(running.len() as u64) as usize;
        step_one(at, &mut running, &mut list, &mut collector, &mut live);
    }
    list.collect(&collector);
    let session = collector.enter();
    for key in 0..keys as usize {
        assert_eq!(list.contains(key, &session, &mut collector), live.contains(&key));
    }
    let mut node = list.link(list.head());
    let mut seen: Vec<usize> = Vec::new();
    while !node.deref().is_null() {
        let here = *node.deref();
        assert!(list.alive(here));
        seen.push(list.key(here).finite().unwrap());
        node = list.link(here);
    }
    let expected: Vec<usize> = live.iter().copied().collect();
    assert_eq!(seen, expected);
    collector.leave(session);
}

#[test]
fn interleaved_operations_agree_with_the_order_of_their_effects() {
    for seed in 0..40u64 {
        run_schedule(seed, 600, 6, 4);
    }
}

#[test]
fn interleaved_operations_on_one_key() {
    for seed in 100..140u64 {
        run_schedule(seed, 400, 1, 5);
    }
}

#[test]
fn interleaved_operations_on_many_keys() {
    for seed in 200..210u64 {
        run_schedule(seed, 2000, 40, 8);
    }
}

#[test]
fn an_operation_can_be_driven_by_actions_and_events() {
    let mut collector = Collector::new();
    let mut list = NodeList::new();
    let session = collector.enter();
    let head = list.head();
    let mut op = InsertOp::new(head, 7, Shared::from(70), session.pinned());
    assert_eq!(op.action(), Action::Load { node: head });
    let event = list.perform(op.action(), session.pinned(), &mut collector);
    assert_eq!(
        event,
        Event::Loaded {
            link: Marking::Unmarked(Shared::null()),
            key: concurrentgraph::key::NodeKey::NegInfinite
        }
    );
    op.resume(event);
    assert_eq!(op.phase, InsertPhase::Linking);
    assert_eq!(
        op.action(),
        Action::Link { pred: head, curr: Shared::null(), key: 7, payload: Shared::from(70) }
    );
    let event = list.perform(op.action(), session.pinned(), &mut collector);
    assert_eq!(event, Event::Linked { fresh: Some(Shared::from(1)) });
    op.resume(event);
    assert!(op.is_done());
    assert_eq!(op.outcome, Some(Shared::from(1)));
    assert_eq!(list.lookup(7, &session, &mut collector), Shared::from(1));
    assert_eq!(list.payload(Shared::from(1)), Shared::from(70));
}

#[test]
fn an_event_of_another_kind_changes_nothing() {
    let mut op = RemoveOp::new(Shared::from(0), 3, 0);
    let before = op;
    op.resume(Event::Marked { done: true });
    assert_eq!(op, before);
    op.resume(Event::Linked { fresh: None });
    assert_eq!(op, before);
    op.resume(Event::Loaded {
        link: Marking::Unmarked(Shared::null()),
        key: concurrentgraph::key::NodeKey::NegInfinite,
    });
    assert!(op.is_done());
    assert!(!op.removed);
    let after = op;
    op.resume(Event::Unlinked { done: true });
    assert_eq!(op, after);
}

#[test]
fn a_failed_marking_and_a_marked_link_start_the_search_over() {
    let mut op = RemoveOp::new(Shared::from(0), 3, 0);
    op.resume(Event::Loaded {
        link: Marking::Unmarked(Shared::from(1)),
        key: concurrentgraph::key::NodeKey::NegInfinite,
    });
    op.resume(Event::Loaded {
        link: Marking::Unmarked(Shared::null()),
        key: concurrentgraph::key::NodeKey::Finite(3),
    });
    assert_eq!(op.phase, RemovePhase::Reading);
    assert_eq!(op.action(), Action::Load { node: Shared::from(1) });
    let mut marked_by_another = op;
    marked_by_another.resume(Event::Loaded {
        link: Marking::Marked(Shared::null()),
        key: concurrentgraph::key::NodeKey::Finite(3),
    });
    assert_eq!(marked_by_another.phase, RemovePhase::Locating);
    assert_eq!(marked_by_another.action(), Action::Load { node: Shared::from(0) });
    op.resume(Event::Loaded {
        link: Marking::Unmarked(Shared::from(2)),
        key: concurrentgraph::key::NodeKey::Finite(3),
    });
    assert_eq!(op.phase, RemovePhase::Marking);
    assert_eq!(
        op.action(),
        Action::Mark { curr: Shared::from(1), next: Shared::from(2), key: 3 }
    );
    let mut lost = op;
    lost.resume(Event::Marked { done: false });
    assert_eq!(lost.phase, RemovePhase::Locating);
    op.resume(Event::Marked { done: true });
    assert_eq!(op.phase, RemovePhase::Unlinking);
    assert_eq!(
        op.action(),
        Action::Unlink { pred: Shared::from(0), curr: Shared::from(1), succ: Shared::from(2) }
    );
    op.resume(Event::Unlinked { done: false });
    assert!(op.is_done());
    assert!(op.removed);
}
