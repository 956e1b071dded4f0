//! The capability interface shared by the graph representations.

use vstd::prelude::*;
use crate::edge_list::{first_dots, EdgeListGraph};
use crate::gui::{CoordSource, DrawingApi};
use crate::matrix::{blank, with_edge, MatrixGraph};

verus! {

/// A mutable store of vertices ("dots") and directed edges.
///
/// The model of a store is its number of dots and the sequence of edges that
/// an enumeration yields, in the order in which it yields them.
pub trait Graph {
    /// The representation invariant.
    spec fn wf(&self) -> bool;

    /// The number of dots of the graph.
    spec fn dots(&self) -> nat;

    /// Whether `dot` is a dot of the graph.
    spec fn has_dot(&self, dot: usize) -> bool;

    /// The edges that an enumeration yields, in order.
    spec fn edges(&self) -> Seq<(usize, usize)>;

    /// Whether the representation can take the edge `(from, to)`.
    spec fn admits(&self, from: usize, to: usize) -> bool;

    /// Every endpoint of an enumerated edge is a dot of the graph.
    proof fn lemma_endpoints_are_dots(&self)
        requires
            self.wf(),
        ensures
            forall|k: int|
                0 <= k < self.edges().len() ==> self.has_dot((#[trigger] self.edges()[k]).0)
                    && self.has_dot(self.edges()[k].1),
    ;

    /// The number of dots of the graph.
    fn dot_count(&self) -> (n: usize)
        requires
            self.wf(),
        ensures
            n == self.dots(),
    ;

    /// Enumerates the edges: the result holds one pair per visit, in the order
    /// of the visits.
    fn for_each_edge(&self) -> (seen: Vec<(usize, usize)>)
        requires
            self.wf(),
        ensures
            seen@ == self.edges(),
    ;

    /// Adds the edge `(from, to)`. Both endpoints are dots afterwards, and no
    /// dot is lost. An enumeration yields afterwards what it yielded before,
    /// and the new edge where `from <= to`; whether it yields a new edge with
    /// `from > to`, and where a new edge stands among the others, is the
    /// representation's to say.
    fn add_edge(&mut self, from: usize, to: usize)
        requires
            old(self).wf(),
            old(self).admits(from, to),
        ensures
            final(self).wf(),
            final(self).dots() >= old(self).dots(),
            final(self).has_dot(from),
            final(self).has_dot(to),
            forall|d: usize| old(self).has_dot(d) ==> #[trigger] final(self).has_dot(d),
            forall|e: (usize, usize)|
                old(self).edges().contains(e) ==> #[trigger] final(self).edges().contains(e),
            forall|e: (usize, usize)| #[trigger]
                final(self).edges().contains(e) ==> old(self).edges().contains(e) || e == (
                    from,
                    to,
                ),
            from <= to ==> final(self).edges().contains((from, to)),
    ;
}

/// Selects a graph representation.
#[derive(Debug, Clone, Copy, PartialEq, Eq, Structural)]
pub enum GraphBackend {
    EdgeList,
    Matrix,
}

impl GraphBackend {
    /// The name by which the representation is selected.
    pub fn name(&self) -> (s: &'static str)
        ensures
            s@ == match *self {
                GraphBackend::EdgeList => "edges"@,
                GraphBackend::Matrix => "matrix"@,
            },
    {
        match self {
            GraphBackend::EdgeList => "edges",
            GraphBackend::Matrix => "matrix",
        }
    }
}

/// Whether every endpoint of `edges` is an index below `n`.
pub open spec fn in_range(edges: Seq<(usize, usize)>, n: nat) -> bool {
    forall|k: int| 0 <= k < edges.len() ==> (#[trigger] edges[k]).0 < n && edges[k].1 < n
}

/// One pair of coordinates per edge, in the order of the edges: the
/// coordinates of the edge's two endpoints.
pub open spec fn segments<C>(edges: Seq<(usize, usize)>, coords: Seq<C>) -> Seq<(C, C)> {
    Seq::new(edges.len(), |k: int| (coords[edges[k].0 as int], coords[edges[k].1 as int]))
}

/// There is one segment per edge, and it joins the coordinates of the edge's
/// endpoints.
pub proof fn lemma_segments<C>(edges: Seq<(usize, usize)>, coords: Seq<C>)
    ensures
        segments(edges, coords).len() == edges.len(),
        forall|k: int|
            0 <= k < edges.len() ==> #[trigger] segments(edges, coords)[k] == (
                coords[edges[k].0 as int],
                coords[edges[k].1 as int],
            ),
{
}

/// Two collections of the geometry of one graph hold as many dots and as
/// many lines as each other, whatever coordinates each was given.
pub proof fn lemma_same_counts<G: Graph, C: Copy>(
    graph: &G,
    first_coords: Seq<C>,
    first: DrawingApi<C>,
    second_coords: Seq<C>,
    second: DrawingApi<C>,
)
    requires
        first_coords.len() == graph.dots(),
        first.dots() == first_coords,
        first.lines() == segments(graph.edges(), first_coords),
        second_coords.len() == graph.dots(),
        second.dots() == second_coords,
        second.lines() == segments(graph.edges(), second_coords),
    ensures
        first.dots().len() == second.dots().len() == graph.dots(),
        first.lines().len() == second.lines().len() == graph.edges().len(),
{
}

/// A graph whose geometry can be collected for a renderer.
pub trait DrawableGraph: Graph {
    /// Collects the geometry of the graph: dot `i` is placed at `coords[i]`,
    /// and each enumerated edge becomes the line between the coordinates of
    /// its endpoints.
    fn draw<C: Copy>(&self, coords: &Vec<C>) -> (api: DrawingApi<C>)
        requires
            self.wf(),
            coords@.len() == self.dots(),
            in_range(self.edges(), self.dots()),
        ensures
            api.dots() == coords@,
            api.lines() == segments(self.edges(), coords@),
    {
        let mut api: DrawingApi<C> = DrawingApi::new();
        let mut i: usize = 0;
        while i < coords.len()
            invariant
                i <= coords.len(),
                api.dots() == coords@.subrange(0, i as int),
                api.lines() == Seq::<(C, C)>::empty(),
            decreases coords.len() - i,
        {
            api.draw_dot(coords[i]);
            assert(api.dots() =~= coords@.subrange(0, i + 1));
            i += 1;
        }
        assert(api.dots() =~= coords@);
        let edges = self.for_each_edge();
        let mut k: usize = 0;
        while k < edges.len()
            invariant
                k <= edges.len(),
                edges@ == self.edges(),
                coords@.len() == self.dots(),
                in_range(self.edges(), self.dots()),
                api.dots() == coords@,
                api.lines() == segments(edges@.subrange(0, k as int), coords@),
            decreases edges.len() - k,
        {
            let (from, to) = edges[k];
            assert(edges@[k as int].0 < coords@.len() && edges@[k as int].1 < coords@.len());
            api.draw_edge(coords[from], coords[to]);
            assert(api.lines() =~= segments(edges@.subrange(0, k + 1), coords@));
            k += 1;
        }
        assert(edges@.subrange(0, k as int) =~= edges@);
        api
    }

    /// As `draw`, for any graph and any coordinates: nothing is collected
    /// unless there is one coordinate per dot and every endpoint of an
    /// enumerated edge is a dot.
    fn try_draw<C: Copy>(&self, coords: &Vec<C>) -> (out: Option<DrawingApi<C>>)
        requires
            self.wf(),
        ensures
            out.is_some() <==> coords@.len() == self.dots() && in_range(self.edges(), self.dots()),
            out matches Some(api) ==> api.dots() == coords@ && api.lines() == segments(
                self.edges(),
                coords@,
            ),
    {
        let n = self.dot_count();
        if coords.len() != n {
            return None;
        }
        let edges = self.for_each_edge();
        let mut k: usize = 0;
        while k < edges.len()
            invariant
                k <= edges.len(),
                n == self.dots(),
                edges@ == self.edges(),
                in_range(edges@.subrange(0, k as int), n as nat),
            decreases edges.len() - k,
        {
            let (from, to) = edges[k];
            if from >= n || to >= n {
                assert(self.edges()[k as int] == (from, to));
                return None;
            }
            assert forall|j: int| 0 <= j < k + 1 implies (#[trigger] edges@.subrange(
                0,
                k + 1,
            )[j]).0 < n && edges@.subrange(0, k + 1)[j].1 < n by {
                if j < k {
                    assert(edges@.subrange(0, k as int)[j] == edges@[j]);
                }
            }
            k += 1;
        }
        assert(edges@.subrange(0, k as int) =~= edges@);
        Some(self.draw(coords))
    }

    /// Takes one coordinate per dot from `source`, in the order of the dots,
    /// and collects the geometry of the graph over them. Nothing is
    /// collected if an endpoint of an enumerated edge is no index below the
    /// dot count; the coordinates are taken all the same.
    fn draw_from<C: Copy, S: CoordSource<C>>(&self, source: &mut S) -> (out: Option<DrawingApi<C>>)
        requires
            self.wf(),
        ensures
            out.is_some() <==> in_range(self.edges(), self.dots()),
            out matches Some(api) ==> api.dots().len() == self.dots() && api.lines() == segments(
                self.edges(),
                api.dots(),
            ),
    {
        let n = self.dot_count();
        let mut coords: Vec<C> = Vec::new();
        while coords.len() < n
            invariant
                coords.len() <= n,
            decreases n - coords.len(),
        {
            coords.push(source.next_coord());
        }
        self.try_draw(&coords)
    }
}

/// A graph in one of the two representations.
#[derive(Debug)]
pub enum GraphStorage {
    EdgeList(EdgeListGraph),
    Matrix(MatrixGraph),
}

impl Graph for GraphStorage {
    open spec fn wf(&self) -> bool {
        match self {
            GraphStorage::EdgeList(g) => g.wf(),
            GraphStorage::Matrix(g) => g.wf(),
        }
    }

    open spec fn dots(&self) -> nat {
        match self {
            GraphStorage::EdgeList(g) => g.dots(),
            GraphStorage::Matrix(g) => g.dots(),
        }
    }

    open spec fn has_dot(&self, dot: usize) -> bool {
        match self {
            GraphStorage::EdgeList(g) => g.has_dot(dot),
            GraphStorage::Matrix(g) => g.has_dot(dot),
        }
    }

    open spec fn edges(&self) -> Seq<(usize, usize)> {
        match self {
            GraphStorage::EdgeList(g) => g.edges(),
            GraphStorage::Matrix(g) => g.edges(),
        }
    }

    proof fn lemma_endpoints_are_dots(&self) {
        match self {
            GraphStorage::EdgeList(g) => g.lemma_endpoints_are_dots(),
            GraphStorage::Matrix(g) => g.lemma_endpoints_are_dots(),
        }
    }

    open spec fn admits(&self, from: usize, to: usize) -> bool {
        match self {
            GraphStorage::EdgeList(g) => g.admits(from, to),
            GraphStorage::Matrix(g) => g.admits(from, to),
        }
    }

    fn dot_count(&self) -> (n: usize) {
        match self {
            GraphStorage::EdgeList(g) => g.dot_count(),
            GraphStorage::Matrix(g) => g.dot_count(),
        }
    }

    fn for_each_edge(&self) -> (seen: Vec<(usize, usize)>) {
        match self {
            GraphStorage::EdgeList(g) => g.for_each_edge(),
            GraphStorage::Matrix(g) => g.for_each_edge(),
        }
    }

    fn add_edge(&mut self, from: usize, to: usize)
        ensures
            match (*old(self), *final(self)) {
                (GraphStorage::EdgeList(a), GraphStorage::EdgeList(b)) => {
                    &&& b.dot_set() == a.dot_set().insert(from).insert(to)
                    &&& b.edges() == a.edges().push((from, to))
                },
                (GraphStorage::Matrix(a), GraphStorage::Matrix(b)) => b@ == with_edge(a@, from, to),
                _ => false,
            },
    {
        match self {
            GraphStorage::EdgeList(g) => g.add_edge(from, to),
            GraphStorage::Matrix(g) => g.add_edge(from, to),
        }
    }
}

impl DrawableGraph for EdgeListGraph {}

impl DrawableGraph for MatrixGraph {}

impl DrawableGraph for GraphStorage {}

/// A graph of `count` dots and no edge, in the representation that `backend`
/// selects.
pub fn with_dots_count(backend: GraphBackend, count: usize) -> (g: GraphStorage)
    ensures
        g.wf(),
        g.dots() == count,
        g.edges() == Seq::<(usize, usize)>::empty(),
        match backend {
            GraphBackend::EdgeList => g matches GraphStorage::EdgeList(e) && e.dot_set()
                == first_dots(count as nat),
            GraphBackend::Matrix => g matches GraphStorage::Matrix(m) && m@ == blank(count as nat),
        },
{
    match backend {
        GraphBackend::EdgeList => GraphStorage::EdgeList(EdgeListGraph::with_dots_count(count)),
        GraphBackend::Matrix => GraphStorage::Matrix(MatrixGraph::with_dots_count(count)),
    }
}

} // verus!
