//! The edge-list representation: the set of dots that were touched, and the
//! edges in the order in which they were added.

use vstd::prelude::*;
use vstd::seq_lib::lemma_seq_contains_after_push;
use std::collections::HashSet;
use eframe::epaint::ahash::RandomState;
use crate::graph::Graph;

verus! {

/// `ahash::RandomState`, as `eframe::epaint` hands it on: the hasher state by
/// which the dot set hashes its indices. Nothing is said of what it holds.
#[verifier::external_type_specification]
#[verifier::external_body]
pub struct ExRandomState(eframe::epaint::ahash::RandomState);

/// `std::collections::HashSet::insert` on a set of indices hashed with
/// `ahash::RandomState`: afterwards the set holds what it held and `dot`.
/// Believed, not proved: vstd states this of std's own hasher only.
#[verifier::external_body]
fn insert_dot(dots: &mut HashSet<usize, RandomState>, dot: usize)
    ensures
        final(dots)@ == old(dots)@.insert(dot),
{
    dots.insert(dot);
}

/// `std::collections::HashSet::len` on a set of indices hashed with
/// `ahash::RandomState`: the number of indices that the set holds. Believed,
/// not proved, for the same reason.
#[verifier::external_body]
fn count_dots(dots: &HashSet<usize, RandomState>) -> (n: usize)
    ensures
        n == dots@.len(),
{
    dots.len()
}

/// The indices below `n`.
pub open spec fn first_dots(n: nat) -> Set<usize> {
    Set::new(|i: usize| i < n)
}

/// The indices below `n` are finitely many, and `n` in number.
pub proof fn lemma_first_dots(n: nat)
    requires
        n <= usize::MAX,
    ensures
        first_dots(n).finite(),
        first_dots(n).len() == n,
    decreases n,
{
    if n == 0 {
        assert(first_dots(0) =~= Set::<usize>::empty());
    } else {
        lemma_first_dots((n - 1) as nat);
        assert(first_dots(n) =~= first_dots((n - 1) as nat).insert((n - 1) as usize));
    }
}

/// The edges after the pairs of `added` were added, one by one and in order,
/// to a graph whose edges were `edges`.
pub open spec fn edges_after(edges: Seq<(usize, usize)>, added: Seq<(usize, usize)>) -> Seq<
    (usize, usize),
>
    decreases added.len(),
{
    if added.len() == 0 {
        edges
    } else {
        edges_after(edges, added.drop_last()).push(added.last())
    }
}

/// The dots after the pairs of `added` were added as edges to a graph whose
/// dots were `dots`.
pub open spec fn dots_after(dots: Set<usize>, added: Seq<(usize, usize)>) -> Set<usize>
    decreases added.len(),
{
    if added.len() == 0 {
        dots
    } else {
        dots_after(dots, added.drop_last()).insert(added.last().0).insert(added.last().1)
    }
}

/// Edges added to a graph follow the edges it had, in the order in which
/// they were added and unchanged.
pub proof fn lemma_edges_after(edges: Seq<(usize, usize)>, added: Seq<(usize, usize)>)
    ensures
        edges_after(edges, added) == edges + added,
    decreases added.len(),
{
    if added.len() == 0 {
        assert(edges + added =~= edges);
    } else {
        lemma_edges_after(edges, added.drop_last());
        assert(edges + added =~= (edges + added.drop_last()).push(added.last()));
    }
}

/// A graph that had no edge enumerates exactly the edges that were added, in
/// the order in which they were added.
pub proof fn lemma_edges_in_insertion_order(added: Seq<(usize, usize)>)
    ensures
        edges_after(Seq::empty(), added) == added,
{
    lemma_edges_after(Seq::empty(), added);
    assert(Seq::<(usize, usize)>::empty() + added =~= added);
}

/// The dots of a graph are those it had and every endpoint of an edge added
/// since, and they stay finitely many.
pub proof fn lemma_dots_after(dots: Set<usize>, added: Seq<(usize, usize)>)
    requires
        dots.finite(),
    ensures
        dots_after(dots, added).finite(),
        forall|d: usize| #[trigger]
            dots_after(dots, added).contains(d) <==> dots.contains(d) || exists|k: int|
                0 <= k < added.len() && ((#[trigger] added[k]).0 == d || added[k].1 == d),
    decreases added.len(),
{
    if added.len() > 0 {
        let init = added.drop_last();
        lemma_dots_after(dots, init);
        assert forall|d: usize| #[trigger]
            dots_after(dots, added).contains(d) <==> dots.contains(d) || exists|k: int|
                0 <= k < added.len() && ((#[trigger] added[k]).0 == d || added[k].1 == d) by {
            if dots_after(dots, init).contains(d) && !dots.contains(d) {
                let k = choose|k: int|
                    0 <= k < init.len() && ((#[trigger] init[k]).0 == d || init[k].1 == d);
                assert(added[k] == init[k]);
            }
            if added.last().0 == d || added.last().1 == d {
                assert(added[added.len() - 1] == added.last());
            }
            if exists|k: int|
                0 <= k < added.len() && ((#[trigger] added[k]).0 == d || added[k].1 == d) {
                let k = choose|k: int|
                    0 <= k < added.len() && ((#[trigger] added[k]).0 == d || added[k].1 == d);
                if k < added.len() - 1 {
                    assert(init[k] == added[k]);
                }
            }
        }
    }
}

/// A graph stored as the set of its dots and the list of its edges.
#[derive(Debug)]
pub struct EdgeListGraph {
    dots: HashSet<usize, RandomState>,
    edges: Vec<(usize, usize)>,
}

impl Default for EdgeListGraph {
    /// The graph of no dot and no edge.
    fn default() -> (g: Self)
        ensures
            g.wf(),
            g.dot_set() == Set::<usize>::empty(),
            g.edges() == Seq::<(usize, usize)>::empty(),
    {
        EdgeListGraph { dots: HashSet::default(), edges: Vec::new() }
    }
}

impl EdgeListGraph {
    /// The dots of the graph: those it was made with and every endpoint of an
    /// edge added since.
    pub closed spec fn dot_set(&self) -> Set<usize> {
        self.dots@
    }

    /// The edges in the order in which they were added.
    pub closed spec fn edge_seq(&self) -> Seq<(usize, usize)> {
        self.edges@
    }

    /// A graph of the dots `0..count` and no edge.
    pub fn with_dots_count(count: usize) -> (g: Self)
        ensures
            g.wf(),
            g.dot_set() == first_dots(count as nat),
            g.dots() == count,
            g.edges() == Seq::<(usize, usize)>::empty(),
    {
        let mut dots: HashSet<usize, RandomState> = HashSet::default();
        let mut i: usize = 0;
        while i < count
            invariant
                i <= count,
                dots@ == first_dots(i as nat),
            decreases count - i,
        {
            insert_dot(&mut dots, i);
            assert(dots@ =~= first_dots((i + 1) as nat));
            i += 1;
        }
        proof {
            lemma_first_dots(count as nat);
        }
        EdgeListGraph { dots, edges: Vec::new() }
    }
}

impl Graph for EdgeListGraph {
    open spec fn wf(&self) -> bool {
        &&& self.dot_set().finite()
        &&& forall|k: int|
            0 <= k < self.edge_seq().len() ==> self.dot_set().contains(
                (#[trigger] self.edge_seq()[k]).0,
            ) && self.dot_set().contains(self.edge_seq()[k].1)
    }

    open spec fn has_dot(&self, dot: usize) -> bool {
        self.dot_set().contains(dot)
    }

    proof fn lemma_endpoints_are_dots(&self) {
    }

    open spec fn dots(&self) -> nat {
        self.dot_set().len()
    }

    open spec fn edges(&self) -> Seq<(usize, usize)> {
        self.edge_seq()
    }

    open spec fn admits(&self, from: usize, to: usize) -> bool {
        true
    }

    fn dot_count(&self) -> (n: usize) {
        count_dots(&self.dots)
    }

    fn for_each_edge(&self) -> (seen: Vec<(usize, usize)>) {
        let mut seen: Vec<(usize, usize)> = Vec::new();
        let mut i: usize = 0;
        while i < self.edges.len()
            invariant
                i <= self.edges.len(),
                seen@ == self.edges@.subrange(0, i as int),
            decreases self.edges.len() - i,
        {
            seen.push(self.edges[i]);
            assert(seen@ =~= self.edges@.subrange(0, i + 1));
            i += 1;
        }
        assert(seen@ =~= self.edges@);
        seen
    }

    fn add_edge(&mut self, from: usize, to: usize)
        ensures
            final(self).dot_set() == old(self).dot_set().insert(from).insert(to),
            final(self).edges() == old(self).edges().push((from, to)),
    {
        insert_dot(&mut self.dots, from);
        insert_dot(&mut self.dots, to);
        self.edges.push((from, to));
        proof {
            vstd::set_lib::lemma_len_subset(old(self).dot_set(), self.dot_set());
            assert forall|k: int| 0 <= k < self.edge_seq().len() implies self.dot_set().contains(
                (#[trigger] self.edge_seq()[k]).0,
            ) && self.dot_set().contains(self.edge_seq()[k].1) by {
                if k < old(self).edge_seq().len() {
                    assert(self.edge_seq()[k] == old(self).edge_seq()[k]);
                }
            }
            assert forall|e: (usize, usize)| #[trigger]
                self.edges().contains(e) <==> old(self).edges().contains(e) || e == (from, to) by {
                lemma_seq_contains_after_push(old(self).edges(), (from, to), e);
            }
        }
    }
}

} // verus!
