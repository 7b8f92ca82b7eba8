use concurrentgraph::atomic::Atomic;
use concurrentgraph::collector::Collector;
use concurrentgraph::key::NodeKey;
use concurrentgraph::marking::Marking;
use concurrentgraph::shared::Shared;
use concurrentgraph::shared::NULL_ADDR;

#[test]
fn it_works() {
    let result = 2 + 2;
    assert_eq!(result, 4);
}

#[test]
fn marking_reports_its_mark() {
    assert!(Marking::Marked(7u32).is_marked());
    assert!(!Marking::Unmarked(7u32).is_marked());
}

#[test]
fn mark_and_unmark_keep_the_value() {
    assert_eq!(Marking::Unmarked(7u32).mark(), Marking::Marked(7u32));
    assert_eq!(Marking::Marked(7u32).mark(), Marking::Marked(7u32));
    assert_eq!(Marking::Marked(7u32).unmark(), Marking::Unmarked(7u32));
    assert_eq!(Marking::Unmarked(7u32).unmark(), Marking::Unmarked(7u32));
}

#[test]
fn deref_reaches_the_value_under_either_mark() {
    assert_eq!(*Marking::Marked(11u32).deref(), 11);
    assert_eq!(*Marking::Unmarked(12u32).deref(), 12);
}

#[test]
fn null_reference_is_null() {
    assert!(Shared::null().is_null());
    assert_eq!(Shared::null().as_ptr(), NULL_ADDR);
    assert!(!Shared::from(0).is_null());
    assert_eq!(Shared::from(4).as_ptr(), 4);
    assert_eq!(Shared::from(4), Shared { addr: 4 });
}

#[test]
fn atomic_starts_null_and_unmarked() {
    let cell = Atomic::null();
    assert_eq!(cell.load(), Marking::Unmarked(Shared::null()));
    let cell = Atomic::from(Shared::from(3));
    assert_eq!(cell.load(), Marking::Unmarked(Shared::from(3)));
}

#[test]
fn atomic_store_and_swap() {
    let mut cell = Atomic::null();
    cell.store(Marking::Unmarked(Shared::from(1)));
    assert_eq!(cell.load(), Marking::Unmarked(Shared::from(1)));
    let previous = cell.swap(Marking::Marked(Shared::from(2)));
    assert_eq!(previous, Marking::Unmarked(Shared::from(1)));
    assert_eq!(cell.load(), Marking::Marked(Shared::from(2)));
}

#[test]
fn compare_exchange_succeeds_on_the_expected_value() {
    let mut cell = Atomic::from(Shared::from(1));
    let r = cell.compare_exchange(
        Marking::Unmarked(Shared::from(1)),
        Marking::Unmarked(Shared::from(2)),
    );
    assert_eq!(r.unwrap(), Marking::Unmarked(Shared::from(1)));
    assert_eq!(cell.load(), Marking::Unmarked(Shared::from(2)));
}

#[test]
fn compare_exchange_fails_on_another_reference() {
    let mut cell = Atomic::from(Shared::from(1));
    let r = cell.compare_exchange(
        Marking::Unmarked(Shared::from(9)),
        Marking::Unmarked(Shared::from(2)),
    );
    let e = r.unwrap_err();
    assert_eq!(e.current, Marking::Unmarked(Shared::from(1)));
    assert_eq!(e.new, Marking::Unmarked(Shared::from(2)));
    assert_eq!(cell.load(), Marking::Unmarked(Shared::from(1)));
}

#[test]
fn compare_exchange_fails_on_another_mark() {
    let mut cell = Atomic::null();
    cell.store(Marking::Marked(Shared::from(1)));
    let r = cell.compare_exchange(
        Marking::Unmarked(Shared::from(1)),
        Marking::Unmarked(Shared::from(2)),
    );
    assert!(r.is_err());
    assert_eq!(cell.load(), Marking::Marked(Shared::from(1)));
}

#[test]
fn sentinel_key_is_below_every_finite_key() {
    assert!(NodeKey::NegInfinite.below(0));
    assert!(NodeKey::NegInfinite.below(usize::MAX));
    assert!(!NodeKey::NegInfinite.is(0));
    assert_eq!(NodeKey::NegInfinite.finite(), None);
}

#[test]
fn finite_keys_compare_as_numbers() {
    assert!(NodeKey::Finite(3).below(5));
    assert!(!NodeKey::Finite(5).below(5));
    assert!(!NodeKey::Finite(7).below(5));
    assert!(NodeKey::Finite(5).is(5));
    assert!(!NodeKey::Finite(4).is(5));
    assert_eq!(NodeKey::Finite(42).finite(), Some(42));
    assert_eq!(NodeKey::Finite(0).finite(), Some(0));
}

#[test]
fn session_pins_the_generation_it_began_in() {
    let mut collector = Collector::new();
    let first = collector.enter();
    assert_eq!(first.pinned(), 0);
    assert_eq!(collector.stamp(), 0);
    assert_eq!(collector.stamp(), 1);
    let second = collector.enter();
    assert_eq!(second.pinned(), 2);
    collector.leave(first);
    collector.leave(second);
}

#[test]
fn reclaimable_only_below_every_open_session() {
    let mut collector = Collector::new();
    assert!(collector.can_reclaim(0));
    let early = collector.enter();
    assert_eq!(collector.stamp(), 0);
    assert_eq!(collector.stamp(), 1);
    let late = collector.enter();
    assert!(!collector.can_reclaim(0));
    assert!(!collector.can_reclaim(1));
    collector.leave(early);
    assert!(collector.can_reclaim(0));
    assert!(collector.can_reclaim(1));
    assert!(!collector.can_reclaim(2));
    collector.leave(late);
    assert!(collector.can_reclaim(2));
}
