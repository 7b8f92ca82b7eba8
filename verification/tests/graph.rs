use concurrentgraph::error::VertexNotFound;
use concurrentgraph::find::FindOp;
use concurrentgraph::graph::ConcurrentGraph;
use concurrentgraph::insert::InsertOp;
use concurrentgraph::insert::InsertPhase;
use concurrentgraph::key::NodeKey;
use concurrentgraph::marking::Marking;
use concurrentgraph::remove::RemoveOp;
use concurrentgraph::remove::RemovePhase;
use concurrentgraph::shared::Shared;

#[test]
fn scenario_three_vertices_one_edge() {
    let mut graph = ConcurrentGraph::new();
    let guard = graph.acquire_session();
    assert!(graph.add_node(1, &guard));
    assert!(graph.add_node(5, &guard));
    assert!(graph.add_node(3, &guard));
    assert!(graph.contains_vertex(3, &guard));
    assert!(!graph.contains_vertex(2, &guard));
    assert_eq!(graph.add_edge(1, 5, &guard), Ok(()));
    assert!(graph.contains_edge(1, 5, &guard));
    assert!(!graph.contains_edge(5, 1, &guard));
    assert!(graph.remove_vertex(5, &guard));
    assert!(!graph.contains_edge(1, 5, &guard));
    graph.release_session(guard);
}

#[test]
fn added_vertex_is_contained_until_removed() {
    let mut graph = ConcurrentGraph::new();
    let guard = graph.acquire_session();
    assert!(graph.add_node(7, &guard));
    assert!(graph.add_node(2, &guard));
    assert!(graph.remove_vertex(2, &guard));
    assert_eq!(graph.add_edge(7, 7, &guard), Ok(()));
    assert!(graph.remove_edge(7, 7, &guard));
    assert!(graph.contains_vertex(7, &guard));
    assert!(graph.remove_vertex(7, &guard));
    assert!(!graph.contains_vertex(7, &guard));
}

#[test]
fn adding_a_vertex_twice_adds_it_once() {
    let mut graph = ConcurrentGraph::new();
    let guard = graph.acquire_session();
    assert!(graph.add_node(7, &guard));
    assert!(!graph.add_node(7, &guard));
    assert!(graph.contains_vertex(7, &guard));
    assert!(graph.remove_vertex(7, &guard));
    assert!(!graph.contains_vertex(7, &guard));
    assert!(!graph.remove_vertex(7, &guard));
}

#[test]
fn removing_an_absent_vertex_changes_nothing() {
    let mut graph = ConcurrentGraph::new();
    let guard = graph.acquire_session();
    assert!(!graph.remove_vertex(4, &guard));
    assert!(graph.add_node(1, &guard));
    assert!(graph.add_node(9, &guard));
    assert_eq!(graph.add_edge(1, 9, &guard), Ok(()));
    assert!(!graph.remove_vertex(4, &guard));
    assert!(graph.contains_vertex(1, &guard));
    assert!(graph.contains_vertex(9, &guard));
    assert!(graph.contains_edge(1, 9, &guard));
}

#[test]
fn add_edge_needs_both_vertices() {
    let mut graph = ConcurrentGraph::new();
    let guard = graph.acquire_session();
    assert_eq!(graph.add_edge(1, 2, &guard), Err(VertexNotFound));
    assert!(graph.add_node(1, &guard));
    assert_eq!(graph.add_edge(1, 2, &guard), Err(VertexNotFound));
    assert_eq!(graph.add_edge(2, 1, &guard), Err(VertexNotFound));
    assert!(!graph.contains_edge(1, 2, &guard));
    assert!(graph.add_node(2, &guard));
    assert_eq!(graph.add_edge(1, 2, &guard), Ok(()));
    assert!(graph.contains_edge(1, 2, &guard));
    assert!(!graph.contains_edge(2, 1, &guard));
    assert_eq!(graph.add_edge(2, 1, &guard), Ok(()));
    assert!(graph.contains_edge(2, 1, &guard));
    assert!(graph.contains_edge(1, 2, &guard));
}

#[test]
fn add_edge_twice_keeps_one_edge() {
    let mut graph = ConcurrentGraph::new();
    let guard = graph.acquire_session();
    assert!(graph.add_node(1, &guard));
    assert!(graph.add_node(2, &guard));
    assert_eq!(graph.add_edge(1, 2, &guard), Ok(()));
    assert_eq!(graph.add_edge(1, 2, &guard), Ok(()));
    assert!(graph.remove_edge(1, 2, &guard));
    assert!(!graph.contains_edge(1, 2, &guard));
    assert!(!graph.remove_edge(1, 2, &guard));
}

#[test]
fn a_vertex_may_have_an_edge_to_itself() {
    let mut graph = ConcurrentGraph::new();
    let guard = graph.acquire_session();
    assert!(graph.add_node(3, &guard));
    assert_eq!(graph.add_edge(3, 3, &guard), Ok(()));
    assert!(graph.contains_edge(3, 3, &guard));
}

#[test]
fn remove_edge_reports_whether_the_edge_was_there() {
    let mut graph = ConcurrentGraph::new();
    let guard = graph.acquire_session();
    assert!(!graph.remove_edge(1, 2, &guard));
    assert!(graph.add_node(1, &guard));
    assert!(graph.add_node(2, &guard));
    assert!(graph.add_node(3, &guard));
    assert!(!graph.remove_edge(1, 2, &guard));
    assert_eq!(graph.add_edge(1, 2, &guard), Ok(()));
    assert_eq!(graph.add_edge(1, 3, &guard), Ok(()));
    assert!(graph.remove_edge(1, 2, &guard));
    assert!(!graph.contains_edge(1, 2, &guard));
    assert!(graph.contains_edge(1, 3, &guard));
}

#[test]
fn removing_a_vertex_removes_the_edges_that_reach_it() {
    let mut graph = ConcurrentGraph::new();
    let guard = graph.acquire_session();
    assert!(graph.add_node(1, &guard));
    assert!(graph.add_node(2, &guard));
    assert_eq!(graph.add_edge(1, 2, &guard), Ok(()));
    assert_eq!(graph.add_edge(2, 1, &guard), Ok(()));
    assert!(graph.remove_vertex(2, &guard));
    assert!(!graph.contains_edge(1, 2, &guard));
    assert!(!graph.contains_edge(2, 1, &guard));
    assert!(graph.add_node(2, &guard));
    assert!(!graph.contains_edge(1, 2, &guard));
    assert!(!graph.contains_edge(2, 1, &guard));
    assert!(!graph.remove_edge(1, 2, &guard));
}

#[test]
fn an_edge_to_a_removed_vertex_is_replaced() {
    let mut graph = ConcurrentGraph::new();
    let guard = graph.acquire_session();
    assert!(graph.add_node(1, &guard));
    assert!(graph.add_node(2, &guard));
    assert_eq!(graph.add_edge(1, 2, &guard), Ok(()));
    assert!(graph.remove_vertex(2, &guard));
    assert!(graph.add_node(2, &guard));
    assert_eq!(graph.add_edge(1, 2, &guard), Ok(()));
    assert!(graph.contains_edge(1, 2, &guard));
}

#[test]
fn locate_both_finds_the_two_nodes_in_either_order() {
    let mut graph = ConcurrentGraph::new();
    let guard = graph.acquire_session();
    assert!(graph.add_node(1, &guard));
    assert!(graph.add_node(2, &guard));
    let (one, two) = graph.locate_both(1, 2, &guard);
    assert!(!one.is_null());
    assert!(!two.is_null());
    assert_eq!(graph.vertex(one).unwrap().key, NodeKey::Finite(1));
    assert_eq!(graph.vertex(two).unwrap().key, NodeKey::Finite(2));
    assert_eq!(graph.locate_both(2, 1, &guard), (two, one));
    assert_eq!(graph.locate_both(2, 2, &guard), (two, two));
    assert_eq!(graph.locate_both(1, 3, &guard), (Shared::null(), Shared::null()));
    assert_eq!(graph.locate_both(0, 2, &guard), (Shared::null(), Shared::null()));
}

#[test]
fn locate_vertex_returns_the_bordering_vertices() {
    let mut graph = ConcurrentGraph::new();
    let guard = graph.acquire_session();
    assert!(graph.add_node(10, &guard));
    assert!(graph.add_node(30, &guard));
    let head = graph.head();
    let (ten, thirty) = graph.locate_vertex(head, 20, &guard);
    assert_eq!(graph.vertex(ten).unwrap().key, NodeKey::Finite(10));
    assert_eq!(graph.vertex(thirty).unwrap().key, NodeKey::Finite(30));
    assert_eq!(graph.vertex(ten).unwrap().next_vertex, Marking::Unmarked(thirty));
    assert_eq!(graph.locate_vertex(head, 10, &guard), (head, ten));
    assert_eq!(graph.locate_vertex(ten, 30, &guard), (ten, thirty));
    assert_eq!(graph.locate_vertex(head, 31, &guard), (thirty, Shared::null()));
}

#[test]
fn locate_edge_position_searches_the_edges_of_one_vertex() {
    let mut graph = ConcurrentGraph::new();
    let guard = graph.acquire_session();
    assert!(graph.add_node(1, &guard));
    assert!(graph.add_node(2, &guard));
    assert!(graph.add_node(3, &guard));
    assert_eq!(graph.add_edge(1, 3, &guard), Ok(()));
    assert_eq!(graph.add_edge(2, 1, &guard), Ok(()));
    let (one, three) = graph.locate_both(1, 3, &guard);
    let (before, found) = graph.locate_edge_position(one, 3, &guard);
    assert_eq!(before, Shared::from(0));
    let place = graph.vertex(one).unwrap().first_edge;
    let edge = graph.edge(place, found).unwrap();
    assert_eq!(edge.key, NodeKey::Finite(3));
    assert_eq!(edge.target, three);
    assert_eq!(edge.next_edge, Marking::Unmarked(Shared::null()));
    let (_, none) = graph.locate_edge_position(three, 1, &guard);
    assert!(none.is_null());
}

#[test]
fn vertex_and_edge_read_nothing_where_nothing_is() {
    let mut graph = ConcurrentGraph::new();
    let guard = graph.acquire_session();
    assert!(graph.vertex(Shared::null()).is_none());
    assert!(graph.vertex(Shared::from(1)).is_none());
    assert_eq!(graph.vertex(graph.head()).unwrap().key, NodeKey::NegInfinite);
    assert!(graph.edge(Shared::from(1), Shared::from(0)).is_none());
    assert!(graph.edge(Shared::null(), Shared::from(0)).is_none());
    assert!(graph.add_node(1, &guard));
    let (one, _) = graph.locate_both(1, 1, &guard);
    assert_eq!(graph.vertex(one).unwrap().first_edge, one);
    assert_eq!(graph.edge(one, Shared::from(0)).unwrap().key, NodeKey::NegInfinite);
    assert!(graph.edge(one, Shared::from(1)).is_none());
}

#[test]
fn pinned_graph_runs_its_operations_in_one_session() {
    let mut graph = ConcurrentGraph::new();
    let mut pinned = graph.pin();
    assert!(pinned.add_node(1));
    assert!(pinned.add_node(2));
    assert!(!pinned.add_node(2));
    assert_eq!(pinned.add_edge(1, 2), Ok(()));
    assert_eq!(pinned.add_edge(1, 3), Err(VertexNotFound));
    assert!(pinned.contains_edge(1, 2));
    assert!(pinned.contains_vertex(2));
    assert!(pinned.remove_edge(1, 2));
    assert!(pinned.remove_vertex(1));
    assert!(!pinned.contains_vertex(1));
    pinned.release();
    let mut again = graph.pin();
    assert!(again.contains_vertex(2));
    assert!(!again.contains_vertex(1));
    again.release();
}

#[test]
fn a_removed_vertex_is_released_when_the_last_session_ends() {
    let mut graph = ConcurrentGraph::new();
    let reader = graph.acquire_session();
    let writer = graph.acquire_session();
    assert!(graph.add_node(1, &writer));
    let (node, _) = graph.locate_both(1, 1, &writer);
    assert!(graph.remove_vertex(1, &writer));
    graph.release_session(writer);
    assert!(graph.vertex(node).is_some());
    assert!(graph.vertex(node).unwrap().next_vertex.is_marked());
    graph.release_session(reader);
    assert!(graph.vertex(node).is_none());
    let guard = graph.acquire_session();
    assert!(graph.add_node(1, &guard));
    assert!(graph.contains_vertex(1, &guard));
    graph.release_session(guard);
}

#[test]
fn many_vertices_and_edges() {
    let mut graph = ConcurrentGraph::new();
    let guard = graph.acquire_session();
    for key in [8usize, 3, 5, 1, 9, 2, 7, 4, 6, 0] {
        assert!(graph.add_node(key, &guard));
    }
    for key in 0..10usize {
        assert_eq!(graph.add_edge(key, (key + 1) % 10, &guard), Ok(()));
    }
    for key in 0..10usize {
        assert!(graph.contains_edge(key, (key + 1) % 10, &guard));
        assert!(!graph.contains_edge((key + 1) % 10, key, &guard));
    }
    for key in [0usize, 2, 4, 6, 8] {
        assert!(graph.remove_vertex(key, &guard));
    }
    for key in 0..10usize {
        assert_eq!(graph.contains_vertex(key, &guard), key % 2 == 1);
        assert!(!graph.contains_edge(key, (key + 1) % 10, &guard));
    }
    graph.collect();
    for key in 0..10usize {
        assert_eq!(graph.contains_vertex(key, &guard), key % 2 == 1);
    }
}

#[test]
fn two_additions_of_one_vertex_add_it_once() {
    let mut graph = ConcurrentGraph::new();
    let guard = graph.acquire_session();
    let mut first = InsertOp::new(graph.head(), 4, Shared::null(), guard.pinned());
    let mut second = InsertOp::new(graph.head(), 4, Shared::null(), guard.pinned());
    while first.phase != InsertPhase::Linking {
        graph.vertex_insert_step(&mut first);
    }
    while second.phase != InsertPhase::Linking {
        graph.vertex_insert_step(&mut second);
    }
    graph.vertex_insert_step(&mut second);
    assert!(second.is_done());
    let winner = second.outcome.unwrap();
    while !first.is_done() {
        graph.vertex_insert_step(&mut first);
    }
    assert_eq!(first.outcome, None);
    assert!(graph.contains_vertex(4, &guard));
    assert_eq!(graph.locate_both(4, 4, &guard), (winner, winner));
    assert_eq!(graph.add_edge(4, 4, &guard), Ok(()));
    assert!(graph.contains_edge(4, 4, &guard));
}

#[test]
fn a_marked_vertex_is_gone_before_it_is_unlinked() {
    let mut graph = ConcurrentGraph::new();
    let guard = graph.acquire_session();
    assert!(graph.add_node(1, &guard));
    assert!(graph.add_node(2, &guard));
    assert!(graph.add_node(3, &guard));
    assert_eq!(graph.add_edge(1, 2, &guard), Ok(()));
    assert_eq!(graph.add_edge(2, 3, &guard), Ok(()));
    let (one, two) = graph.locate_both(1, 2, &guard);
    let mut removal = RemoveOp::new(graph.head(), 2, guard.pinned());
    while removal.phase != RemovePhase::Unlinking {
        graph.vertex_remove_step(&mut removal);
    }
    assert_eq!(graph.vertex(one).unwrap().next_vertex, Marking::Unmarked(two));
    assert!(graph.vertex(two).unwrap().next_vertex.is_marked());
    assert!(!graph.contains_edge(1, 2, &guard));
    assert!(!graph.contains_edge(2, 3, &guard));
    assert_eq!(graph.add_edge(1, 2, &guard), Err(VertexNotFound));
    let mut search = FindOp::new(graph.head(), 3, guard.pinned());
    while !search.is_done() {
        graph.vertex_find_step(&mut search);
    }
    assert_eq!(search.pred, one);
    assert_eq!(graph.vertex(one).unwrap().next_vertex, Marking::Unmarked(search.curr));
    graph.vertex_remove_step(&mut removal);
    assert!(removal.is_done());
    assert!(removal.removed);
    assert!(!graph.contains_vertex(2, &guard));
    assert!(graph.contains_vertex(1, &guard));
    assert!(graph.contains_vertex(3, &guard));
}

#[test]
fn an_edge_published_after_its_target_was_removed_does_not_count() {
    let mut graph = ConcurrentGraph::new();
    let guard = graph.acquire_session();
    assert!(graph.add_node(1, &guard));
    assert!(graph.add_node(2, &guard));
    let (one, two) = graph.locate_both(1, 2, &guard);
    let mut edge = InsertOp::new(graph.head(), 2, two, guard.pinned());
    while edge.phase != InsertPhase::Linking {
        graph.edge_insert_step(one, &mut edge);
    }
    assert!(graph.remove_vertex(2, &guard));
    graph.edge_insert_step(one, &mut edge);
    assert!(edge.is_done());
    let published = edge.outcome.unwrap();
    assert_eq!(graph.edge(one, published).unwrap().target, two);
    assert!(!graph.contains_edge(1, 2, &guard));
    assert!(graph.add_node(2, &guard));
    assert!(!graph.contains_edge(1, 2, &guard));
    assert_eq!(graph.add_edge(1, 2, &guard), Ok(()));
    assert!(graph.contains_edge(1, 2, &guard));
    let (_, again) = graph.locate_both(1, 2, &guard);
    assert_ne!(again, two);
}

#[test]
fn edge_steps_of_two_operations_on_one_list() {
    let mut graph = ConcurrentGraph::new();
    let guard = graph.acquire_session();
    assert!(graph.add_node(1, &guard));
    assert!(graph.add_node(2, &guard));
    assert!(graph.add_node(3, &guard));
    let (one, two) = graph.locate_both(1, 2, &guard);
    let (_, three) = graph.locate_both(1, 3, &guard);
    assert_eq!(graph.add_edge(1, 2, &guard), Ok(()));
    let mut removal = RemoveOp::new(graph.head(), 2, guard.pinned());
    let mut insertion = InsertOp::new(graph.head(), 3, three, guard.pinned());
    while removal.phase != RemovePhase::Unlinking {
        graph.edge_remove_step(one, &mut removal);
    }
    assert!(!graph.contains_edge(1, 2, &guard));
    while !insertion.is_done() {
        graph.edge_insert_step(one, &mut insertion);
    }
    assert!(insertion.outcome.is_some());
    graph.edge_remove_step(one, &mut removal);
    assert!(removal.removed);
    assert!(graph.contains_edge(1, 3, &guard));
    assert!(!graph.contains_edge(1, 2, &guard));
    let mut search = FindOp::new(graph.head(), 3, guard.pinned());
    while !search.is_done() {
        graph.edge_find_step(one, &mut search);
    }
    assert_eq!(search.pred, graph.head());
    assert_eq!(graph.edge(one, search.curr).unwrap().target, three);
    assert_eq!(graph.vertex(two).unwrap().key, NodeKey::Finite(2));
}

#[test]
fn test() {
    let mut graph = ConcurrentGraph::new();
    let mut pinned = graph.pin();
    pinned.add_node(1);
    pinned.release();
    let mut pinned = graph.pin();
    pinned.add_node(2);
    pinned.release();
    let mut pinned = graph.pin();
    pinned.locate_both(1, 2);
    pinned.release();
    println!("");
    return;
}

#[test]
fn pinned_graph_locates_both_vertices() {
    let mut graph = ConcurrentGraph::new();
    let mut pinned = graph.pin();
    assert!(pinned.add_node(1));
    assert!(pinned.add_node(2));
    let (one, two) = pinned.locate_both(1, 2);
    assert_eq!(pinned.locate_both(2, 1), (two, one));
    assert_eq!(pinned.locate_both(1, 3), (Shared::null(), Shared::null()));
    pinned.release();
    assert_eq!(graph.vertex(one).unwrap().key, NodeKey::Finite(1));
    assert_eq!(graph.vertex(two).unwrap().key, NodeKey::Finite(2));
}

#[test]
fn random_operations_agree_with_a_plain_graph() {
    let mut state: u64 = 7;
    let mut graph = ConcurrentGraph::new();
    let mut guard = graph.acquire_session();
    let mut vertices: std::collections::BTreeSet<usize> = std::collections::BTreeSet::new();
    let mut edges: std::collections::BTreeSet<(usize, usize)> = std::collections::BTreeSet::new();
    for round in 0..4000 {
        state = state.wrapping_mul(6364136223846793005).wrapping_add(1442695040888963407);
        let choice = (state >> 33) % 8;
        let a = ((state >> 40) % 7) as usize;
        let b = ((state >> 50) % 7) as usize;
        match choice {
            0 | 1 => assert_eq!(graph.add_node(a, &guard), vertices.insert(a)),
            2 => {
                assert_eq!(graph.remove_vertex(a, &guard), vertices.remove(&a));
                edges.retain(|edge| edge.0 != a && edge.1 != a);
            }
            3 | 4 => {
                let both = vertices.contains(&a) && vertices.contains(&b);
                assert_eq!(graph.add_edge(a, b, &guard).is_ok(), both);
                if both {
                    edges.insert((a, b));
                }
            }
            5 => assert_eq!(graph.remove_edge(a, b, &guard), edges.remove(&(a, b))),
            6 => {
                assert_eq!(graph.contains_vertex(a, &guard), vertices.contains(&a));
                assert_eq!(graph.contains_edge(a, b, &guard), edges.contains(&(a, b)));
            }
            _ => {
                if round % 3 == 0 {
                    graph.release_session(guard);
                    guard = graph.acquire_session();
                } else {
                    graph.collect();
                }
            }
        }
    }
    for a in 0..7usize {
        assert_eq!(graph.contains_vertex(a, &guard), vertices.contains(&a));
        for b in 0..7usize {
            assert_eq!(graph.contains_edge(a, b, &guard), edges.contains(&(a, b)));
        }
    }
    graph.release_session(guard);
}
