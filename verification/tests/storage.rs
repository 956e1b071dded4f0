use graph_bridge::edge_list::EdgeListGraph;
use graph_bridge::graph::{with_dots_count, Graph, GraphBackend, GraphStorage};
use graph_bridge::matrix::MatrixGraph;

#[test]
fn fresh_graph_reports_its_dot_count() {
    for n in [0usize, 1, 2, 7, 10, 33] {
        assert_eq!(EdgeListGraph::with_dots_count(n).dot_count(), n);
        assert_eq!(MatrixGraph::with_dots_count(n).dot_count(), n);
        assert_eq!(with_dots_count(GraphBackend::EdgeList, n).dot_count(), n);
        assert_eq!(with_dots_count(GraphBackend::Matrix, n).dot_count(), n);
    }
}

#[test]
fn fresh_graph_has_no_edges() {
    for n in [0usize, 1, 5, 10] {
        assert!(EdgeListGraph::with_dots_count(n).for_each_edge().is_empty());
        assert!(MatrixGraph::with_dots_count(n).for_each_edge().is_empty());
    }
}

#[test]
fn selector_picks_the_representation() {
    assert!(matches!(with_dots_count(GraphBackend::EdgeList, 3), GraphStorage::EdgeList(_)));
    assert!(matches!(with_dots_count(GraphBackend::Matrix, 3), GraphStorage::Matrix(_)));
}

#[test]
fn edge_list_end_to_end() {
    let mut g = with_dots_count(GraphBackend::EdgeList, 10);
    g.add_edge(0, 1);
    g.add_edge(1, 2);
    g.add_edge(2, 0);
    g.add_edge(0, 4);
    assert_eq!(g.dot_count(), 10);
    assert_eq!(g.for_each_edge(), vec![(0, 1), (1, 2), (2, 0), (0, 4)]);
}

#[test]
fn matrix_end_to_end() {
    let mut g = with_dots_count(GraphBackend::Matrix, 10);
    g.add_edge(0, 1);
    g.add_edge(1, 2);
    g.add_edge(2, 0);
    g.add_edge(0, 4);
    assert_eq!(g.dot_count(), 10);
    assert_eq!(g.for_each_edge(), vec![(0, 1), (0, 4), (1, 2)]);
}

#[test]
fn edge_list_keeps_insertion_order_and_duplicates() {
    let mut g = EdgeListGraph::with_dots_count(4);
    let added = vec![(3, 1), (1, 1), (3, 1), (0, 2), (2, 0), (3, 1)];
    for &(from, to) in added.iter() {
        g.add_edge(from, to);
    }
    assert_eq!(g.for_each_edge(), added);
    assert_eq!(g.dot_count(), 4);
}

#[test]
fn edge_list_counts_each_touched_dot_once() {
    let mut g = EdgeListGraph::with_dots_count(0);
    assert_eq!(g.dot_count(), 0);
    g.add_edge(100, 200);
    assert_eq!(g.dot_count(), 2);
    g.add_edge(200, 100);
    assert_eq!(g.dot_count(), 2);
    g.add_edge(7, 7);
    assert_eq!(g.dot_count(), 3);
    g.add_edge(usize::MAX, 0);
    assert_eq!(g.dot_count(), 5);
    assert_eq!(g.for_each_edge(), vec![(100, 200), (200, 100), (7, 7), (usize::MAX, 0)]);
}

#[test]
fn edge_list_presized_dots_absorb_small_indices() {
    let mut g = EdgeListGraph::with_dots_count(3);
    g.add_edge(0, 2);
    assert_eq!(g.dot_count(), 3);
    g.add_edge(2, 3);
    assert_eq!(g.dot_count(), 4);
}

#[test]
fn matrix_enumerates_upper_triangle_only() {
    let mut g = MatrixGraph::with_dots_count(4);
    g.add_edge(2, 0);
    g.add_edge(3, 1);
    assert!(g.for_each_edge().is_empty());
    g.add_edge(0, 2);
    g.add_edge(1, 3);
    g.add_edge(2, 2);
    assert_eq!(g.for_each_edge(), vec![(0, 2), (1, 3), (2, 2)]);
}

#[test]
fn matrix_enumerates_a_repeated_edge_once() {
    let mut g = MatrixGraph::with_dots_count(3);
    g.add_edge(0, 1);
    g.add_edge(0, 1);
    g.add_edge(0, 1);
    assert_eq!(g.for_each_edge(), vec![(0, 1)]);
}

#[test]
fn matrix_enumerates_row_by_row() {
    let mut g = MatrixGraph::with_dots_count(5);
    g.add_edge(3, 4);
    g.add_edge(0, 4);
    g.add_edge(1, 1);
    g.add_edge(0, 0);
    assert_eq!(g.for_each_edge(), vec![(0, 0), (0, 4), (1, 1), (3, 4)]);
}

#[test]
fn matrix_grows_to_the_largest_index() {
    let mut g = MatrixGraph::with_dots_count(2);
    g.add_edge(0, 1);
    assert_eq!(g.dot_count(), 2);
    g.add_edge(1, 5);
    assert_eq!(g.dot_count(), 6);
    assert_eq!(g.for_each_edge(), vec![(0, 1), (1, 5)]);
    g.add_edge(8, 3);
    assert_eq!(g.dot_count(), 9);
    assert_eq!(g.for_each_edge(), vec![(0, 1), (1, 5)]);
    g.add_edge(3, 8);
    assert_eq!(g.dot_count(), 9);
    assert_eq!(g.for_each_edge(), vec![(0, 1), (1, 5), (3, 8)]);
}

#[test]
fn matrix_grows_from_nothing() {
    let mut g = MatrixGraph::with_dots_count(0);
    g.add_edge(0, 0);
    assert_eq!(g.dot_count(), 1);
    assert_eq!(g.for_each_edge(), vec![(0, 0)]);
    g.add_edge(2, 2);
    assert_eq!(g.dot_count(), 3);
    assert_eq!(g.for_each_edge(), vec![(0, 0), (2, 2)]);
}

#[test]
fn matrix_keeps_hidden_cells_through_growth() {
    let mut g = MatrixGraph::with_dots_count(3);
    g.add_edge(2, 1);
    g.add_edge(1, 2);
    g.add_edge(6, 6);
    assert_eq!(g.dot_count(), 7);
    assert_eq!(g.for_each_edge(), vec![(1, 2), (6, 6)]);
}

#[test]
fn backend_names() {
    assert_eq!(GraphBackend::EdgeList.name(), "edges");
    assert_eq!(GraphBackend::Matrix.name(), "matrix");
}

#[test]
fn default_graphs_are_empty() {
    let e = EdgeListGraph::default();
    assert_eq!(e.dot_count(), 0);
    assert!(e.for_each_edge().is_empty());
    let m = MatrixGraph::default();
    assert_eq!(m.dot_count(), 0);
    assert!(m.for_each_edge().is_empty());
}

#[test]
fn matrix_hides_the_edge_that_the_edge_list_shows() {
    let mut e = with_dots_count(GraphBackend::EdgeList, 3);
    let mut m = with_dots_count(GraphBackend::Matrix, 3);
    e.add_edge(2, 1);
    m.add_edge(2, 1);
    assert_eq!(e.for_each_edge(), vec![(2, 1)]);
    assert_eq!(m.for_each_edge(), Vec::<(usize, usize)>::new());
}
