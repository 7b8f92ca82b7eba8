use concurrentgraph::collector::Collector;
use concurrentgraph::error::AlreadyExists;
use concurrentgraph::error::NotFound;
use concurrentgraph::find::FindOp;
use concurrentgraph::find::FindPhase;
use concurrentgraph::insert::InsertOp;
use concurrentgraph::insert::InsertPhase;
use concurrentgraph::key::NodeKey;
use concurrentgraph::list::Lifecycle;
use concurrentgraph::list::NodeList;
use concurrentgraph::marking::Marking;
use concurrentgraph::remove::RemoveOp;
use concurrentgraph::remove::RemovePhase;
use concurrentgraph::shared::Shared;

#[test]
fn new_list_holds_only_the_sentinel() {
    let list = NodeList::new();
    let head = list.head();
    assert_eq!(head, Shared::from(0));
    assert!(list.contains_node(head));
    assert!(!list.contains_node(Shared::from(1)));
    assert!(!list.contains_node(Shared::null()));
    assert_eq!(list.key(head), NodeKey::NegInfinite);
    assert_eq!(list.link(head), Marking::Unmarked(Shared::null()));
    assert!(!list.alive(head));
}

#[test]
fn insert_then_contains() {
    let mut collector = Collector::new();
    let mut list = NodeList::new();
    let session = collector.enter();
    let node = list.insert(4, Shared::from(77), &session, &mut collector).unwrap();
    assert!(list.contains(4, &session, &mut collector));
    assert!(!list.contains(3, &session, &mut collector));
    assert_eq!(list.lookup(4, &session, &mut collector), node);
    assert!(list.lookup(5, &session, &mut collector).is_null());
    assert_eq!(list.key(node), NodeKey::Finite(4));
    assert_eq!(list.payload(node), Shared::from(77));
    assert!(list.alive(node));
}

#[test]
fn insert_twice_reports_already_exists() {
    let mut collector = Collector::new();
    let mut list = NodeList::new();
    let session = collector.enter();
    let first = list.insert(4, Shared::from(1), &session, &mut collector).unwrap();
    assert_eq!(list.insert(4, Shared::from(2), &session, &mut collector), Err(AlreadyExists));
    assert_eq!(list.lookup(4, &session, &mut collector), first);
    assert_eq!(list.payload(first), Shared::from(1));
}

#[test]
fn list_is_kept_in_ascending_order() {
    let mut collector = Collector::new();
    let mut list = NodeList::new();
    let session = collector.enter();
    let five = list.insert(5, Shared::null(), &session, &mut collector).unwrap();
    let one = list.insert(1, Shared::null(), &session, &mut collector).unwrap();
    let three = list.insert(3, Shared::null(), &session, &mut collector).unwrap();
    assert_eq!(list.link(list.head()), Marking::Unmarked(one));
    assert_eq!(list.link(one), Marking::Unmarked(three));
    assert_eq!(list.link(three), Marking::Unmarked(five));
    assert_eq!(list.link(five), Marking::Unmarked(Shared::null()));
}

#[test]
fn locate_returns_the_bordering_nodes() {
    let mut collector = Collector::new();
    let mut list = NodeList::new();
    let session = collector.enter();
    let one = list.insert(1, Shared::null(), &session, &mut collector).unwrap();
    let five = list.insert(5, Shared::null(), &session, &mut collector).unwrap();
    let head = list.head();
    assert_eq!(list.locate_insert_position(head, 3, &session, &mut collector), (one, five));
    assert_eq!(list.locate_insert_position(head, 5, &session, &mut collector), (one, five));
    assert_eq!(list.locate_insert_position(head, 1, &session, &mut collector), (head, one));
    assert_eq!(list.locate_insert_position(head, 0, &session, &mut collector), (head, one));
    assert_eq!(
        list.locate_insert_position(head, 6, &session, &mut collector),
        (five, Shared::null())
    );
    assert_eq!(list.locate_insert_position(one, 5, &session, &mut collector), (one, five));
}

#[test]
fn remove_takes_the_key_out() {
    let mut collector = Collector::new();
    let mut list = NodeList::new();
    let session = collector.enter();
    let one = list.insert(1, Shared::null(), &session, &mut collector).unwrap();
    let two = list.insert(2, Shared::null(), &session, &mut collector).unwrap();
    let three = list.insert(3, Shared::null(), &session, &mut collector).unwrap();
    assert_eq!(list.remove(2, &session, &mut collector), Ok(two));
    assert!(!list.contains(2, &session, &mut collector));
    assert!(list.contains(1, &session, &mut collector));
    assert!(list.contains(3, &session, &mut collector));
    assert_eq!(list.link(one), Marking::Unmarked(three));
    assert_eq!(list.link(two), Marking::Marked(three));
    assert!(!list.alive(two));
}

#[test]
fn remove_of_an_absent_key_reports_not_found() {
    let mut collector = Collector::new();
    let mut list = NodeList::new();
    let session = collector.enter();
    let one = list.insert(1, Shared::null(), &session, &mut collector).unwrap();
    assert_eq!(list.remove(2, &session, &mut collector), Err(NotFound));
    assert_eq!(list.remove(0, &session, &mut collector), Err(NotFound));
    assert_eq!(list.link(list.head()), Marking::Unmarked(one));
    assert_eq!(list.link(one), Marking::Unmarked(Shared::null()));
    assert_eq!(list.remove(1, &session, &mut collector), Ok(one));
    assert_eq!(list.remove(1, &session, &mut collector), Err(NotFound));
}

#[test]
fn a_key_used_again_gets_a_new_node() {
    let mut collector = Collector::new();
    let mut list = NodeList::new();
    let session = collector.enter();
    let old = list.insert(9, Shared::from(1), &session, &mut collector).unwrap();
    assert_eq!(list.remove(9, &session, &mut collector), Ok(old));
    let new = list.insert(9, Shared::from(2), &session, &mut collector).unwrap();
    assert_ne!(old, new);
    assert!(!list.alive(old));
    assert!(list.alive(new));
    assert_eq!(list.lookup(9, &session, &mut collector), new);
    assert_eq!(list.payload(new), Shared::from(2));
}

#[test]
fn the_largest_key_can_be_stored() {
    let mut collector = Collector::new();
    let mut list = NodeList::new();
    let session = collector.enter();
    let top = list.insert(usize::MAX, Shared::null(), &session, &mut collector).unwrap();
    let zero = list.insert(0, Shared::null(), &session, &mut collector).unwrap();
    assert_eq!(list.lookup(usize::MAX, &session, &mut collector), top);
    assert_eq!(list.lookup(0, &session, &mut collector), zero);
    assert_eq!(list.link(zero), Marking::Unmarked(top));
}

#[test]
fn try_link_fails_when_the_link_has_moved() {
    let mut collector = Collector::new();
    let mut list = NodeList::new();
    let session = collector.enter();
    let head = list.head();
    let five = list.insert(5, Shared::null(), &session, &mut collector).unwrap();
    assert_eq!(list.try_link(head, Shared::null(), 3, Shared::null()), None);
    assert_eq!(list.link(head), Marking::Unmarked(five));
    let three = list.try_link(head, five, 3, Shared::from(8)).unwrap();
    assert_eq!(list.link(head), Marking::Unmarked(three));
    assert_eq!(list.link(three), Marking::Unmarked(five));
    assert_eq!(list.payload(three), Shared::from(8));
}

#[test]
fn try_mark_and_try_unlink_are_two_steps() {
    let mut collector = Collector::new();
    let mut list = NodeList::new();
    let session = collector.enter();
    let head = list.head();
    let one = list.insert(1, Shared::null(), &session, &mut collector).unwrap();
    let two = list.insert(2, Shared::null(), &session, &mut collector).unwrap();
    assert!(!list.try_mark(one, Shared::null(), 1));
    assert!(list.try_mark(one, two, 1));
    assert!(!list.try_mark(one, two, 1));
    assert_eq!(list.link(one), Marking::Marked(two));
    assert_eq!(list.link(head), Marking::Unmarked(one));
    assert_eq!(list.stamp(one), None);
    assert!(!list.alive(one));
    assert!(list.try_unlink(head, one, two, &mut collector));
    assert_eq!(list.link(head), Marking::Unmarked(two));
    assert_eq!(list.stamp(one), Some(0));
    assert!(!list.try_unlink(head, one, two, &mut collector));
    assert_eq!(list.stamp(one), Some(0));
}

#[test]
fn a_search_unlinks_the_marked_nodes_it_meets() {
    let mut collector = Collector::new();
    let mut list = NodeList::new();
    let session = collector.enter();
    let head = list.head();
    let one = list.insert(1, Shared::null(), &session, &mut collector).unwrap();
    let two = list.insert(2, Shared::null(), &session, &mut collector).unwrap();
    let three = list.insert(3, Shared::null(), &session, &mut collector).unwrap();
    let mut removal = RemoveOp::new(head, 2, session.pinned());
    while removal.phase != RemovePhase::Unlinking {
        removal.step(&mut list, &mut collector);
    }
    assert_eq!(list.link(two), Marking::Marked(three));
    assert_eq!(list.link(one), Marking::Unmarked(two));
    assert!(!list.alive(two));
    assert_eq!(list.stamp(two), None);
    let mut search = FindOp::new(head, 3, session.pinned());
    while !search.is_done() {
        search.step(&mut list, &mut collector);
    }
    assert_eq!((search.pred, search.curr), (one, three));
    assert_eq!(list.link(one), Marking::Unmarked(three));
    assert_eq!(list.stamp(two), Some(0));
    removal.step(&mut list, &mut collector);
    assert!(removal.is_done());
    assert!(removal.removed);
    assert_eq!(list.stamp(two), Some(0));
    assert_eq!(list.link(one), Marking::Unmarked(three));
}

#[test]
fn a_failed_unlink_restarts_the_search_from_its_start() {
    let mut collector = Collector::new();
    let mut list = NodeList::new();
    let session = collector.enter();
    let head = list.head();
    let one = list.insert(1, Shared::null(), &session, &mut collector).unwrap();
    let two = list.insert(2, Shared::null(), &session, &mut collector).unwrap();
    let three = list.insert(3, Shared::null(), &session, &mut collector).unwrap();
    assert!(list.try_mark(two, three, 2));
    let mut search = FindOp::new(head, 3, session.pinned());
    while search.phase != FindPhase::Unlink {
        search.step(&mut list, &mut collector);
    }
    assert_eq!((search.pred, search.curr, search.succ), (one, two, three));
    assert_eq!(list.remove(1, &session, &mut collector), Ok(one));
    search.step(&mut list, &mut collector);
    assert_eq!(search.phase, FindPhase::LoadPred);
    assert_eq!(search.pred, head);
    while !search.is_done() {
        search.step(&mut list, &mut collector);
    }
    assert_eq!((search.pred, search.curr), (head, three));
    assert_eq!(list.link(head), Marking::Unmarked(three));
    assert!(list.stamp(two).is_some());
}

#[test]
fn two_insertions_at_one_place_both_succeed() {
    let mut collector = Collector::new();
    let mut list = NodeList::new();
    let session = collector.enter();
    let head = list.head();
    let mut first = InsertOp::new(head, 4, Shared::null(), session.pinned());
    let mut second = InsertOp::new(head, 6, Shared::null(), session.pinned());
    while first.phase != InsertPhase::Linking {
        first.step(&mut list, &mut collector);
    }
    while second.phase != InsertPhase::Linking {
        second.step(&mut list, &mut collector);
    }
    first.step(&mut list, &mut collector);
    assert!(first.is_done());
    let four = first.outcome.unwrap();
    second.step(&mut list, &mut collector);
    assert_eq!(second.phase, InsertPhase::Locating);
    while !second.is_done() {
        second.step(&mut list, &mut collector);
    }
    let six = second.outcome.unwrap();
    assert_eq!(list.link(head), Marking::Unmarked(four));
    assert_eq!(list.link(four), Marking::Unmarked(six));
    assert_eq!(list.link(six), Marking::Unmarked(Shared::null()));
}

#[test]
fn two_insertions_of_one_key_add_one_node() {
    let mut collector = Collector::new();
    let mut list = NodeList::new();
    let session = collector.enter();
    let head = list.head();
    let mut first = InsertOp::new(head, 4, Shared::from(1), session.pinned());
    let mut second = InsertOp::new(head, 4, Shared::from(2), session.pinned());
    while first.phase != InsertPhase::Linking {
        first.step(&mut list, &mut collector);
    }
    while second.phase != InsertPhase::Linking {
        second.step(&mut list, &mut collector);
    }
    second.step(&mut list, &mut collector);
    let winner = second.outcome.unwrap();
    while !first.is_done() {
        first.step(&mut list, &mut collector);
    }
    assert_eq!(first.outcome, None);
    assert_eq!(list.lookup(4, &session, &mut collector), winner);
    assert_eq!(list.payload(winner), Shared::from(2));
    assert_eq!(list.link(winner), Marking::Unmarked(Shared::null()));
}

#[test]
fn two_removals_of_one_key_remove_it_once() {
    let mut collector = Collector::new();
    let mut list = NodeList::new();
    let session = collector.enter();
    let head = list.head();
    let node = list.insert(4, Shared::null(), &session, &mut collector).unwrap();
    let mut first = RemoveOp::new(head, 4, session.pinned());
    let mut second = RemoveOp::new(head, 4, session.pinned());
    while first.phase != RemovePhase::Marking {
        first.step(&mut list, &mut collector);
    }
    while second.phase != RemovePhase::Marking {
        second.step(&mut list, &mut collector);
    }
    first.step(&mut list, &mut collector);
    assert_eq!(first.phase, RemovePhase::Unlinking);
    while !second.is_done() {
        second.step(&mut list, &mut collector);
    }
    assert!(!second.removed);
    while !first.is_done() {
        first.step(&mut list, &mut collector);
    }
    assert!(first.removed);
    assert_eq!(first.find.curr, node);
    assert!(!list.contains(4, &session, &mut collector));
}

#[test]
fn a_retired_node_stays_while_an_earlier_session_is_open() {
    let mut collector = Collector::new();
    let mut list = NodeList::new();
    let reader = collector.enter();
    let writer = collector.enter();
    let node = list.insert(4, Shared::null(), &writer, &mut collector).unwrap();
    assert_eq!(list.remove(4, &writer, &mut collector), Ok(node));
    assert_eq!(list.stamp(node), Some(0));
    collector.leave(writer);
    list.collect(&collector);
    assert!(list.contains_node(node));
    assert_eq!(list.key(node), NodeKey::Finite(4));
    collector.leave(reader);
    list.collect(&collector);
    assert!(!list.contains_node(node));
    assert!(list.contains_node(list.head()));
}

#[test]
fn a_session_begun_after_the_retirement_does_not_hold_the_node() {
    let mut collector = Collector::new();
    let mut list = NodeList::new();
    let writer = collector.enter();
    let node = list.insert(4, Shared::null(), &writer, &mut collector).unwrap();
    assert_eq!(list.remove(4, &writer, &mut collector), Ok(node));
    collector.leave(writer);
    let later = collector.enter();
    assert_eq!(later.pinned(), 1);
    list.collect(&collector);
    assert!(!list.contains_node(node));
    collector.leave(later);
}

#[test]
fn collect_keeps_linked_nodes() {
    let mut collector = Collector::new();
    let mut list = NodeList::new();
    let session = collector.enter();
    let one = list.insert(1, Shared::null(), &session, &mut collector).unwrap();
    let two = list.insert(2, Shared::null(), &session, &mut collector).unwrap();
    assert!(list.try_mark(two, Shared::null(), 2));
    collector.leave(session);
    list.collect(&collector);
    assert!(list.contains_node(one));
    assert!(list.contains_node(two));
    assert_eq!(list.link(one), Marking::Unmarked(two));
}

#[test]
fn a_node_goes_through_its_life_in_order() {
    let mut collector = Collector::new();
    let mut list = NodeList::new();
    let session = collector.enter();
    let head = list.head();
    assert_eq!(list.stage(head), Some(Lifecycle::Live));
    assert_eq!(list.stage(Shared::from(1)), None);
    assert_eq!(list.stage(Shared::null()), None);
    let one = list.insert(1, Shared::null(), &session, &mut collector).unwrap();
    assert_eq!(list.stage(one), Some(Lifecycle::Live));
    assert!(list.try_mark(one, Shared::null(), 1));
    assert_eq!(list.stage(one), Some(Lifecycle::LogicallyDeleted));
    list.collect(&collector);
    assert_eq!(list.stage(one), Some(Lifecycle::LogicallyDeleted));
    assert!(list.try_unlink(head, one, Shared::null(), &mut collector));
    assert_eq!(list.stage(one), Some(Lifecycle::Unlinked));
    list.collect(&collector);
    assert_eq!(list.stage(one), Some(Lifecycle::Unlinked));
    collector.leave(session);
    list.collect(&collector);
    assert_eq!(list.stage(one), Some(Lifecycle::Reclaimed));
    let session = collector.enter();
    let again = list.insert(1, Shared::null(), &session, &mut collector).unwrap();
    assert_ne!(again, one);
    assert_eq!(list.stage(one), Some(Lifecycle::Reclaimed));
    assert_eq!(list.stage(again), Some(Lifecycle::Live));
    assert_eq!(list.stage(head), Some(Lifecycle::Live));
}
