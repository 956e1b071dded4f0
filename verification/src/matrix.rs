//! The adjacency-matrix representation: a square matrix of flags, enumerated
//! over its upper triangle.

use vstd::prelude::*;
use vstd::seq_lib::{
    lemma_no_dup_in_concat, lemma_seq_concat_contains_all_elements, lemma_seq_contains_after_push,
};
use crate::graph::Graph;

verus! {

/// Every row is as long as the matrix has rows.
pub open spec fn is_square(m: Seq<Seq<bool>>) -> bool {
    forall|i: int| 0 <= i < m.len() ==> (#[trigger] m[i]).len() == m.len()
}

/// Whether cell `(i, j)` exists and is set.
pub open spec fn cell_set(m: Seq<Seq<bool>>, i: int, j: int) -> bool {
    0 <= i < m.len() && 0 <= j < m[i].len() && m[i][j]
}

/// The `n` by `n` matrix with no cell set.
pub open spec fn blank(n: nat) -> Seq<Seq<bool>> {
    Seq::new(n, |i: int| Seq::new(n, |j: int| false))
}

/// The dimension after `(from, to)` was brought in bounds: unchanged where
/// both indices are in bounds already, else one more than the larger index.
pub open spec fn dim_after(m: Seq<Seq<bool>>, from: usize, to: usize) -> nat {
    let need = if from >= to { from + 1 } else { to + 1 };
    if need > m.len() { need as nat } else { m.len() }
}

/// The matrix after adding the edge `(from, to)`: grown to `dim_after`, with
/// every cell that was set still set, and cell `(from, to)` set.
pub open spec fn with_edge(m: Seq<Seq<bool>>, from: usize, to: usize) -> Seq<Seq<bool>> {
    let n = dim_after(m, from, to);
    Seq::new(n, |i: int| Seq::new(n, |j: int| cell_set(m, i, j) || (i == from && j == to)))
}

/// The set cells of row `i` in the columns `i..end`, by rising column.
pub open spec fn row_edges(m: Seq<Seq<bool>>, i: int, end: int) -> Seq<(usize, usize)>
    decreases end - i,
{
    if end <= i {
        Seq::empty()
    } else {
        let rest = row_edges(m, i, end - 1);
        if cell_set(m, i, end - 1) {
            rest.push((i as usize, (end - 1) as usize))
        } else {
            rest
        }
    }
}

/// The set cells of the upper triangle (diagonal included) in the first
/// `rows` rows, row by row.
pub open spec fn upper_edges(m: Seq<Seq<bool>>, rows: int) -> Seq<(usize, usize)>
    decreases rows,
{
    if rows <= 0 {
        Seq::empty()
    } else {
        upper_edges(m, rows - 1) + row_edges(m, rows - 1, m.len() as int)
    }
}

/// The matrix after the pairs of `added` were added to `m` as edges, one by
/// one and in order.
pub open spec fn with_edges(m: Seq<Seq<bool>>, added: Seq<(usize, usize)>) -> Seq<Seq<bool>>
    decreases added.len(),
{
    if added.len() == 0 {
        m
    } else {
        with_edge(with_edges(m, added.drop_last()), added.last().0, added.last().1)
    }
}

/// A graph stored as a square matrix of flags.
#[derive(Debug)]
pub struct MatrixGraph {
    mtx: Vec<Vec<bool>>,
}

impl View for MatrixGraph {
    type V = Seq<Seq<bool>>;

    closed spec fn view(&self) -> Seq<Seq<bool>> {
        Seq::new(self.mtx@.len(), |i: int| self.mtx@[i]@)
    }
}

fn blank_row(n: usize) -> (row: Vec<bool>)
    ensures
        row@ == Seq::new(n as nat, |j: int| false),
{
    let mut row: Vec<bool> = Vec::new();
    while row.len() < n
        invariant
            row.len() <= n,
            forall|j: int| 0 <= j < row.len() ==> !row@[j],
        decreases n - row.len(),
    {
        row.push(false);
    }
    assert(row@ =~= Seq::new(n as nat, |j: int| false));
    row
}

impl Default for MatrixGraph {
    /// The graph of no dot.
    fn default() -> (g: Self)
        ensures
            g.wf(),
            g@ == blank(0),
    {
        let g = MatrixGraph { mtx: Vec::new() };
        assert(g@ =~= blank(0));
        g
    }
}

impl MatrixGraph {
    /// A graph of `count` dots and no edge.
    pub fn with_dots_count(count: usize) -> (g: Self)
        ensures
            g.wf(),
            g@ == blank(count as nat),
            g.dots() == count,
            g.edges() == Seq::<(usize, usize)>::empty(),
    {
        let mut mtx: Vec<Vec<bool>> = Vec::new();
        while mtx.len() < count
            invariant
                mtx.len() <= count,
                forall|i: int| 0 <= i < mtx.len() ==> (#[trigger] mtx@[i])@ == Seq::new(count as nat, |j: int| false),
            decreases count - mtx.len(),
        {
            mtx.push(blank_row(count));
        }
        let g = MatrixGraph { mtx };
        proof {
            assert(g@ =~= blank(count as nat));
            lemma_blank_has_no_edges(count as nat, count as int);
        }
        g
    }
}

/// A matrix with no cell set has no edge to enumerate.
pub proof fn lemma_blank_has_no_edges(n: nat, rows: int)
    requires
        rows <= n,
    ensures
        upper_edges(blank(n), rows) == Seq::<(usize, usize)>::empty(),
    decreases rows,
{
    if rows > 0 {
        lemma_blank_has_no_edges(n, rows - 1);
        lemma_blank_row_has_no_edges(n, rows - 1, n as int);
    }
}

proof fn lemma_blank_row_has_no_edges(n: nat, i: int, end: int)
    requires
        0 <= i < n,
        end <= n,
    ensures
        row_edges(blank(n), i, end) == Seq::<(usize, usize)>::empty(),
    decreases end - i,
{
    if end > i {
        lemma_blank_row_has_no_edges(n, i, end - 1);
    }
}

/// Row `i` yields the pair `(a, b)` if and only if `a` is `i`, `b` is a
/// column from `i` up to `end`, and cell `(a, b)` is set; and it yields no
/// pair twice.
pub proof fn lemma_row_edges(m: Seq<Seq<bool>>, i: int, end: int)
    requires
        0 <= i,
        end <= m.len() <= usize::MAX,
    ensures
        forall|e: (usize, usize)| #[trigger]
            row_edges(m, i, end).contains(e) <==> (e.0 == i && i <= e.1 < end && cell_set(
                m,
                i,
                e.1 as int,
            )),
        row_edges(m, i, end).no_duplicates(),
    decreases end - i,
{
    if end > i {
        lemma_row_edges(m, i, end - 1);
        let rest = row_edges(m, i, end - 1);
        if cell_set(m, i, end - 1) {
            let x = (i as usize, (end - 1) as usize);
            assert(!rest.contains(x));
            assert forall|e: (usize, usize)| #[trigger]
                rest.push(x).contains(e) <==> (e.0 == i && i <= e.1 < end && cell_set(
                    m,
                    i,
                    e.1 as int,
                )) by {
                lemma_seq_contains_after_push(rest, x, e);
            }
        }
    }
}

/// The first `rows` rows yield the pair `(a, b)` if and only if `a` is one of
/// these rows, `a <= b`, and cell `(a, b)` is set; and they yield no pair
/// twice.
pub proof fn lemma_upper_edges(m: Seq<Seq<bool>>, rows: int)
    requires
        rows <= m.len() <= usize::MAX,
    ensures
        forall|e: (usize, usize)| #[trigger]
            upper_edges(m, rows).contains(e) <==> (e.0 < rows && e.0 <= e.1 && cell_set(
                m,
                e.0 as int,
                e.1 as int,
            ) && e.1 < m.len()),
        upper_edges(m, rows).no_duplicates(),
    decreases rows,
{
    if rows > 0 {
        lemma_upper_edges(m, rows - 1);
        lemma_row_edges(m, rows - 1, m.len() as int);
        let a = upper_edges(m, rows - 1);
        let b = row_edges(m, rows - 1, m.len() as int);
        assert forall|e: (usize, usize)| #[trigger]
            (a + b).contains(e) <==> (e.0 < rows && e.0 <= e.1 && cell_set(
                m,
                e.0 as int,
                e.1 as int,
            ) && e.1 < m.len()) by {
            lemma_seq_concat_contains_all_elements(a, b, e);
        }
        assert forall|i: int, j: int| 0 <= i < a.len() && 0 <= j < b.len() implies a[i] != b[j] by {
            assert(a.contains(a[i]));
            assert(b.contains(b[j]));
        }
        lemma_no_dup_in_concat(a, b);
    }
}

/// Adding an edge keeps the matrix square, brings both indices in bounds
/// (the dimension becomes one more than the larger index where that index
/// was out of bounds, and stays as it was otherwise), keeps every set cell
/// set, and sets the cell of the edge and no other.
pub proof fn lemma_with_edge(m: Seq<Seq<bool>>, from: usize, to: usize)
    requires
        is_square(m),
    ensures
        is_square(with_edge(m, from, to)),
        with_edge(m, from, to).len() == dim_after(m, from, to),
        from < m.len() && to < m.len() ==> with_edge(m, from, to).len() == m.len(),
        from >= m.len() || to >= m.len() ==> with_edge(m, from, to).len() == (if from >= to {
            from + 1
        } else {
            to + 1
        }),
        forall|i: int, j: int|
            cell_set(m, i, j) ==> #[trigger] cell_set(with_edge(m, from, to), i, j),
        cell_set(with_edge(m, from, to), from as int, to as int),
        forall|i: int, j: int| #[trigger]
            cell_set(with_edge(m, from, to), i, j) ==> cell_set(m, i, j) || (i == from && j == to),
{
    let grown = with_edge(m, from, to);
    assert forall|i: int, j: int| cell_set(m, i, j) implies #[trigger] cell_set(grown, i, j) by {
        assert(m[i].len() == m.len());
    }
}

/// After edges were added in any number, every added pair has its cell set,
/// and the matrix is still square.
pub proof fn lemma_with_edges(m: Seq<Seq<bool>>, added: Seq<(usize, usize)>)
    requires
        is_square(m),
        m.len() <= usize::MAX,
        forall|k: int| 0 <= k < added.len() ==> (#[trigger] added[k]).0 < usize::MAX && added[k].1 < usize::MAX,
    ensures
        is_square(with_edges(m, added)),
        with_edges(m, added).len() <= usize::MAX,
        with_edges(m, added).len() >= m.len(),
        forall|i: int, j: int| cell_set(m, i, j) ==> #[trigger] cell_set(with_edges(m, added), i, j),
        forall|k: int|
            0 <= k < added.len() ==> cell_set(
                with_edges(m, added),
                (#[trigger] added[k]).0 as int,
                added[k].1 as int,
            ),
    decreases added.len(),
{
    if added.len() > 0 {
        let before = with_edges(m, added.drop_last());
        lemma_with_edges(m, added.drop_last());
        lemma_with_edge(before, added.last().0, added.last().1);
        assert forall|k: int| 0 <= k < added.len() implies cell_set(
            with_edges(m, added),
            (#[trigger] added[k]).0 as int,
            added[k].1 as int,
        ) by {
            if k < added.len() - 1 {
                assert(added.drop_last()[k] == added[k]);
            }
        }
    }
}

/// Of the edges added to a matrix graph, an enumeration yields each pair
/// `(from, to)` with `from <= to` exactly once (it is among the enumerated
/// pairs, and none of them occurs twice), however often it was added, and
/// never a pair with `from > to`.
pub proof fn lemma_added_edges_enumerated(m: Seq<Seq<bool>>, added: Seq<(usize, usize)>)
    requires
        is_square(m),
        m.len() <= usize::MAX,
        forall|k: int| 0 <= k < added.len() ==> (#[trigger] added[k]).0 < usize::MAX && added[k].1 < usize::MAX,
    ensures
        upper_edges(with_edges(m, added), with_edges(m, added).len() as int).no_duplicates(),
        forall|k: int|
            0 <= k < added.len() && (#[trigger] added[k]).0 <= added[k].1 ==> upper_edges(
                with_edges(m, added),
                with_edges(m, added).len() as int,
            ).contains(added[k]),
        forall|e: (usize, usize)|
            e.0 > e.1 ==> !(#[trigger] upper_edges(
                with_edges(m, added),
                with_edges(m, added).len() as int,
            ).contains(e)),
{
    let after = with_edges(m, added);
    lemma_with_edges(m, added);
    lemma_upper_edges(after, after.len() as int);
    assert forall|k: int| 0 <= k < added.len() && (#[trigger] added[k]).0 <= added[k].1 implies upper_edges(
        after,
        after.len() as int,
    ).contains(added[k]) by {
        assert(cell_set(after, added[k].0 as int, added[k].1 as int));
        assert(after[added[k].0 as int].len() == after.len());
    }
}

impl MatrixGraph {
    /// The geometry of a matrix graph can always be collected: every
    /// endpoint of an enumerated edge is an index below the dot count.
    pub proof fn lemma_always_drawable(&self)
        requires
            self.wf(),
        ensures
            crate::graph::in_range(self.edges(), self.dots()),
    {
        self.lemma_endpoints_are_dots();
    }

    /// An enumeration of a matrix graph yields the pair `(a, b)` if and only
    /// if `a <= b` and cell `(a, b)` is set, and yields no pair twice.
    pub proof fn lemma_edges_are_upper_cells(&self)
        requires
            self.wf(),
        ensures
            forall|e: (usize, usize)| #[trigger]
                self.edges().contains(e) <==> (e.0 <= e.1 && cell_set(self@, e.0 as int, e.1 as int)),
            self.edges().no_duplicates(),
    {
        assert(self@.len() == self.mtx.len());
        lemma_upper_edges(self@, self@.len() as int);
        assert forall|e: (usize, usize)| e.0 <= e.1 && cell_set(
            self@,
            e.0 as int,
            e.1 as int,
        ) implies #[trigger] self.edges().contains(e) by {
            assert(self@[e.0 as int].len() == self@.len());
        }
    }
}

impl Graph for MatrixGraph {
    open spec fn wf(&self) -> bool {
        is_square(self@)
    }

    open spec fn dots(&self) -> nat {
        self@.len()
    }

    open spec fn has_dot(&self, dot: usize) -> bool {
        dot < self@.len()
    }

    open spec fn edges(&self) -> Seq<(usize, usize)> {
        upper_edges(self@, self@.len() as int)
    }

    proof fn lemma_endpoints_are_dots(&self) {
        self.lemma_edges_are_upper_cells();
        assert forall|k: int| 0 <= k < self.edges().len() implies self.has_dot(
            (#[trigger] self.edges()[k]).0,
        ) && self.has_dot(self.edges()[k].1) by {
            let e = self.edges()[k];
            assert(self.edges().contains(e));
            assert(self@[e.0 as int].len() == self@.len());
        }
    }

    open spec fn admits(&self, from: usize, to: usize) -> bool {
        from < usize::MAX && to < usize::MAX
    }

    fn dot_count(&self) -> (n: usize) {
        self.mtx.len()
    }

    fn for_each_edge(&self) -> (seen: Vec<(usize, usize)>) {
        let n = self.mtx.len();
        let mut seen: Vec<(usize, usize)> = Vec::new();
        let mut from: usize = 0;
        while from < n
            invariant
                self.wf(),
                n == self.mtx.len(),
                from <= n,
                seen@ == upper_edges(self@, from as int),
            decreases n - from,
        {
            let ghost before = seen@;
            let mut to: usize = from;
            while to < n
                invariant
                    self.wf(),
                    n == self.mtx.len(),
                    from < n,
                    from <= to <= n,
                    seen@ == before + row_edges(self@, from as int, to as int),
                decreases n - to,
            {
                assert(self@[from as int].len() == n);
                let ghost row = row_edges(self@, from as int, to as int);
                if self.mtx[from][to] {
                    seen.push((from, to));
                    assert(seen@ =~= before + row.push((from, to)));
                }
                to += 1;
            }
            from += 1;
        }
        seen
    }

    fn add_edge(&mut self, from: usize, to: usize)
        ensures
            final(self)@ == with_edge(old(self)@, from, to),
    {
        let min_req = if from >= to { from } else { to };
        if min_req >= self.mtx.len() {
            let n = min_req + 1;
            while self.mtx.len() < n
                invariant
                    old(self).mtx.len() <= self.mtx.len() <= n,
                    forall|i: int| 0 <= i < old(self).mtx.len() ==> self.mtx@[i] == old(self).mtx@[i],
                    forall|i: int| old(self).mtx.len() <= i < self.mtx.len() ==> (#[trigger] self.mtx@[i])@ == Seq::new(n as nat, |j: int| false),
                decreases n - self.mtx.len(),
            {
                self.mtx.push(blank_row(n));
            }
            let mut i: usize = 0;
            while i < n
                invariant
                    is_square(old(self)@),
                    old(self).mtx.len() < n,
                    self.mtx.len() == n,
                    i <= n,
                    forall|k: int| i <= k < old(self).mtx.len() ==> self.mtx@[k] == old(self).mtx@[k],
                    forall|k: int| i <= k < n && old(self).mtx.len() <= k ==> (#[trigger] self.mtx@[k])@ == Seq::new(n as nat, |j: int| false),
                    forall|k: int| 0 <= k < i ==> (#[trigger] self.mtx@[k])@ == Seq::new(n as nat, |j: int| cell_set(old(self)@, k, j)),
                decreases n - i,
            {
                let ghost prev = self.mtx@;
                self.mtx[i].resize(n, false);
                assert(forall|k: int| 0 <= k < n && k != i ==> self.mtx@[k] == prev[k]);
                assert(self.mtx@[i as int]@ =~= Seq::new(n as nat, |j: int| cell_set(old(self)@, i as int, j)));
                i += 1;
            }
        }
        let ghost dim = dim_after(old(self)@, from, to);
        assert(self.mtx.len() == dim);
        assert forall|k: int| 0 <= k < dim implies (#[trigger] self.mtx@[k])@ =~= Seq::new(
            dim,
            |j: int| cell_set(old(self)@, k, j),
        ) by {
            if k < old(self).mtx.len() {
                assert(old(self)@[k].len() == old(self)@.len());
            }
        }
        let ghost grown = self.mtx@;
        assert(grown[from as int]@.len() == dim);
        self.mtx[from][to] = true;
        assert(forall|k: int| 0 <= k < dim && k != from ==> self.mtx@[k] == grown[k]);
        assert(self.mtx@[from as int]@ == grown[from as int]@.update(to as int, true));
        assert(self@ =~~= with_edge(old(self)@, from, to));
        proof {
            lemma_with_edge(old(self)@, from, to);
            old(self).lemma_edges_are_upper_cells();
            self.lemma_edges_are_upper_cells();
        }
    }
}

} // verus!
