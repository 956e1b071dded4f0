use graph_bridge::edge_list::EdgeListGraph;
use graph_bridge::graph::{with_dots_count, DrawableGraph, Graph, GraphBackend};
use graph_bridge::gui::{
    CoordSource, DrawBackend, DrawingApi, PaintOp, BACKGROUND_LEVEL, DOT_RADIUS, INK_LEVEL, LINE_WIDTH,
};
use graph_bridge::matrix::MatrixGraph;

fn coords(n: usize, seed: u32) -> Vec<(f32, f32)> {
    let mut state = seed;
    let mut out = Vec::new();
    for _ in 0..n {
        state = state.wrapping_mul(1664525).wrapping_add(1013904223);
        let x = (state >> 8) as f32 / 16777216.0;
        state = state.wrapping_mul(1664525).wrapping_add(1013904223);
        let y = (state >> 8) as f32 / 16777216.0;
        out.push((x, y));
    }
    out
}

#[test]
fn collector_starts_empty() {
    let holder = DrawingApi::<(f32, f32)>::new().into_holder();
    assert!(holder.dots.is_empty());
    assert!(holder.lines.is_empty());
}

#[test]
fn collector_records_dots_and_lines_in_order() {
    let mut api = DrawingApi::new();
    assert_eq!(api.draw_dot((0.25f32, 0.5f32)), (0.25, 0.5));
    assert_eq!(api.draw_dot((0.75f32, 0.125f32)), (0.75, 0.125));
    api.draw_edge((0.25, 0.5), (0.75, 0.125));
    api.draw_edge((0.75, 0.125), (0.75, 0.125));
    let holder = api.into_holder();
    assert_eq!(holder.dots, vec![(0.25, 0.5), (0.75, 0.125)]);
    assert_eq!(
        holder.lines,
        vec![((0.25, 0.5), (0.75, 0.125)), ((0.75, 0.125), (0.75, 0.125))]
    );
}

#[test]
fn draw_collects_one_dot_per_vertex_and_one_line_per_edge() {
    let mut g = with_dots_count(GraphBackend::EdgeList, 10);
    g.add_edge(0, 1);
    g.add_edge(1, 2);
    g.add_edge(2, 0);
    g.add_edge(0, 4);
    let c = coords(10, 1);
    let holder = g.draw(&c).into_holder();
    assert_eq!(holder.dots, c);
    assert_eq!(
        holder.lines,
        vec![(c[0], c[1]), (c[1], c[2]), (c[2], c[0]), (c[0], c[4])]
    );
    for &(x, y) in holder.dots.iter() {
        assert!(0.0 <= x && x < 1.0 && 0.0 <= y && y < 1.0);
    }
}

#[test]
fn draw_of_matrix_graph_skips_hidden_edges() {
    let mut g = with_dots_count(GraphBackend::Matrix, 10);
    g.add_edge(0, 1);
    g.add_edge(1, 2);
    g.add_edge(2, 0);
    g.add_edge(0, 4);
    let c = coords(10, 2);
    let holder = g.draw(&c).into_holder();
    assert_eq!(holder.dots.len(), 10);
    assert_eq!(holder.lines, vec![(c[0], c[1]), (c[0], c[4]), (c[1], c[2])]);
}

#[test]
fn draw_of_isolated_dots_has_no_lines() {
    let g = MatrixGraph::with_dots_count(3);
    let c = coords(3, 3);
    let holder = g.draw(&c).into_holder();
    assert_eq!(holder.dots, c);
    assert!(holder.lines.is_empty());
}

#[test]
fn draw_of_empty_graph_is_empty() {
    let g = EdgeListGraph::with_dots_count(0);
    let holder = g.draw(&Vec::<(f32, f32)>::new()).into_holder();
    assert!(holder.dots.is_empty());
    assert!(holder.lines.is_empty());
}

#[test]
fn drawing_twice_gives_the_same_counts() {
    let mut g = EdgeListGraph::with_dots_count(6);
    g.add_edge(0, 5);
    g.add_edge(5, 5);
    g.add_edge(3, 2);
    let first = g.draw(&coords(6, 10)).into_holder();
    let second = g.draw(&coords(6, 20)).into_holder();
    assert_eq!(first.dots.len(), 6);
    assert_eq!(second.dots.len(), 6);
    assert_eq!(first.lines.len(), 3);
    assert_eq!(second.lines.len(), 3);
    assert_ne!(first.dots, second.dots);
}

#[test]
fn try_draw_collects_when_every_endpoint_is_a_dot() {
    let mut g = MatrixGraph::with_dots_count(3);
    g.add_edge(0, 2);
    let c = coords(3, 4);
    let holder = g.try_draw(&c).expect("drawable").into_holder();
    assert_eq!(holder.dots, c);
    assert_eq!(holder.lines, vec![(c[0], c[2])]);
}

#[test]
fn try_draw_refuses_an_endpoint_that_is_no_dot() {
    let mut g = EdgeListGraph::with_dots_count(0);
    g.add_edge(100, 200);
    assert_eq!(g.dot_count(), 2);
    assert!(g.try_draw(&coords(2, 5)).is_none());
    let mut h = EdgeListGraph::with_dots_count(2);
    h.add_edge(1, 5);
    assert_eq!(h.dot_count(), 3);
    assert!(h.try_draw(&coords(3, 5)).is_none());
    h.add_edge(0, 0);
    assert!(h.try_draw(&coords(3, 5)).is_none());
}

#[test]
fn try_draw_refuses_a_wrong_number_of_coordinates() {
    let g = MatrixGraph::with_dots_count(4);
    assert!(g.try_draw(&coords(3, 6)).is_none());
    assert!(g.try_draw(&coords(5, 6)).is_none());
    assert!(g.try_draw(&coords(4, 6)).is_some());
}

#[test]
fn draw_backend_names() {
    assert_eq!(DrawBackend::Egui.name(), "egui");
    assert_eq!(DrawBackend::Iced.name(), "iced");
}

#[test]
fn draw_backend_titles() {
    assert_eq!(DrawBackend::Egui.title(), "Graph draw egui");
    assert_eq!(DrawBackend::Iced.title(), "iced-based graphs");
}

#[test]
fn paint_pass_is_background_then_dots_then_lines() {
    let mut api = DrawingApi::new();
    api.draw_dot((0.5f32, 0.25f32));
    api.draw_dot((0.125f32, 0.75f32));
    api.draw_edge((0.5, 0.25), (0.125, 0.75));
    let ops = api.into_holder().paint_pass();
    assert_eq!(ops.len(), 4);
    assert!(matches!(ops[0], PaintOp::Background));
    assert!(matches!(ops[1], PaintOp::Dot(c) if c == (0.5, 0.25)));
    assert!(matches!(ops[2], PaintOp::Dot(c) if c == (0.125, 0.75)));
    assert!(matches!(ops[3], PaintOp::Line(a, b) if a == (0.5, 0.25) && b == (0.125, 0.75)));
}

#[test]
fn paint_pass_of_nothing_fills_the_background() {
    let ops = DrawingApi::<(f32, f32)>::default().into_holder().paint_pass();
    assert_eq!(ops.len(), 1);
    assert!(matches!(ops[0], PaintOp::Background));
}

#[test]
fn paint_constants() {
    assert_eq!(BACKGROUND_LEVEL, 0x20);
    assert_eq!(INK_LEVEL, 0xff);
    assert_eq!(DOT_RADIUS, 5);
    assert_eq!(LINE_WIDTH, 1);
}

struct Steps {
    next: u32,
}

impl CoordSource<(f32, f32)> for Steps {
    fn next_coord(&mut self) -> (f32, f32) {
        let at = self.next;
        self.next += 1;
        (at as f32 / 64.0, 1.0 - (at as f32 + 1.0) / 64.0)
    }
}

#[test]
fn draw_from_takes_one_coordinate_per_dot_in_order() {
    let mut g = with_dots_count(GraphBackend::EdgeList, 10);
    g.add_edge(0, 1);
    g.add_edge(1, 2);
    g.add_edge(2, 0);
    g.add_edge(0, 4);
    let mut source = Steps { next: 0 };
    let holder = g.draw_from(&mut source).expect("drawable").into_holder();
    assert_eq!(source.next, 10);
    assert_eq!(holder.dots.len(), 10);
    for (i, &(x, y)) in holder.dots.iter().enumerate() {
        assert_eq!(x, i as f32 / 64.0);
        assert_eq!(y, 1.0 - (i as f32 + 1.0) / 64.0);
        assert!(0.0 <= x && x < 1.0 && 0.0 <= y && y < 1.0);
    }
    let d = &holder.dots;
    assert_eq!(
        holder.lines,
        vec![(d[0], d[1]), (d[1], d[2]), (d[2], d[0]), (d[0], d[4])]
    );
}

#[test]
fn draw_from_twice_gives_the_same_counts_and_other_coordinates() {
    let mut g = with_dots_count(GraphBackend::Matrix, 10);
    g.add_edge(0, 1);
    g.add_edge(1, 2);
    g.add_edge(2, 0);
    g.add_edge(0, 4);
    let mut source = Steps { next: 0 };
    let first = g.draw_from(&mut source).expect("drawable").into_holder();
    let second = g.draw_from(&mut source).expect("drawable").into_holder();
    assert_eq!(first.dots.len(), 10);
    assert_eq!(second.dots.len(), 10);
    assert_eq!(first.lines.len(), 3);
    assert_eq!(second.lines.len(), 3);
    assert_ne!(first.dots, second.dots);
}

#[test]
fn draw_from_refuses_an_endpoint_that_is_no_dot() {
    let mut g = EdgeListGraph::with_dots_count(0);
    g.add_edge(3, 4);
    let mut source = Steps { next: 0 };
    assert!(g.draw_from(&mut source).is_none());
    assert_eq!(source.next, 2);
}
