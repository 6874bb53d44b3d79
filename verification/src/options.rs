//! Enumerating the resolution options of an annotated tree.
//!
//! A node carrying a choice of traits can be resolved to any single one
//! of them, or — when there is a real choice — to all of them at once;
//! its children multiply the possibilities. Enumerating the options walks
//! the tree and takes the cartesian product of the children's options
//! under each choice for the node itself.

use vstd::prelude::*;

verus! {

/// The traits a node may resolve to: still any of a set, pinned to one,
/// or taken all together.
pub enum TraitSet<A> {
    Any(Vec<A>),
    Only(A),
    All(Vec<A>),
}

/// Whether `b` is a clone of the trait set `a`: the same variant, with
/// every element a clone.
pub open spec fn traits_cloned<A: Clone>(a: TraitSet<A>, b: TraitSet<A>) -> bool {
    match (a, b) {
        (TraitSet::Any(x), TraitSet::Any(y)) => x@.len() == y@.len() && forall|i: int|
            0 <= i < x@.len() ==> cloned::<A>(x@[i], #[trigger] y@[i]),
        (TraitSet::Only(x), TraitSet::Only(y)) => cloned::<A>(x, y),
        (TraitSet::All(x), TraitSet::All(y)) => x@.len() == y@.len() && forall|i: int|
            0 <= i < x@.len() ==> cloned::<A>(x@[i], #[trigger] y@[i]),
        _ => false,
    }
}

impl<A: Clone> Clone for TraitSet<A> {
    fn clone(&self) -> (res: Self)
        ensures
            traits_cloned(*self, res),
    {
        match self {
            TraitSet::Any(v) => TraitSet::Any(v.clone()),
            TraitSet::Only(a) => TraitSet::Only(a.clone()),
            TraitSet::All(v) => TraitSet::All(v.clone()),
        }
    }
}

/// A tree of data where every node carries a trait set.
pub struct Node<A, T> {
    pub traits: TraitSet<T>,
    pub data: A,
    pub children: Vec<Node<A, T>>,
}

/// Whether `b` is a clone of the node `a`: cloned data, a cloned trait
/// set, and children that are clones of `a`'s, pointwise.
pub open spec fn node_cloned<A: Clone, T: Clone>(a: Node<A, T>, b: Node<A, T>) -> bool
    decreases a,
{
    &&& cloned::<A>(a.data, b.data)
    &&& traits_cloned(a.traits, b.traits)
    &&& b.children@.len() == a.children@.len()
    &&& forall|i: int|
        0 <= i < a.children@.len() ==> node_cloned(a.children@[i], #[trigger] b.children@[i])
}

impl<A: Clone, T: Clone> Clone for Node<A, T> {
    #[verifier::loop_isolation(false)]
    fn clone(&self) -> (res: Self)
        ensures
            node_cloned(*self, res),
        decreases self,
    {
        let n = self.children.len();
        let mut children: Vec<Node<A, T>> = Vec::new();
        let mut i: usize = 0;
        while i < n
            invariant
                i <= n,
                n == self.children@.len(),
                children@.len() == i,
                forall|j: int|
                    0 <= j < i ==> node_cloned(self.children@[j], #[trigger] children@[j]),
            decreases n - i,
        {
            children.push(self.children[i].clone());
            i = i + 1;
        }
        Node { traits: self.traits.clone(), data: self.data.clone(), children }
    }
}

/// How many option rows a cartesian product over pools of these sizes
/// has.
pub open spec fn product_count(sizes: Seq<nat>) -> nat
    decreases sizes.len(),
{
    if sizes.len() == 0 {
        1nat
    } else {
        product_count(sizes.drop_last()) * sizes.last()
    }
}

/// The sizes of the pools.
pub open spec fn pool_sizes<T>(pools: Seq<Vec<T>>) -> Seq<nat> {
    pools.map_values(|v: Vec<T>| v@.len() as nat)
}

/// Every row extended by every index below `m`, in order: the block of
/// the first row's extensions first, the last position varying fastest.
pub open spec fn rows_extend(rows: Seq<Seq<int>>, m: int) -> Seq<Seq<int>>
    decreases rows.len(),
{
    if rows.len() == 0 {
        Seq::<Seq<int>>::empty()
    } else {
        Seq::new(m as nat, |p: int| rows[0].push(p)) + rows_extend(rows.drop_first(), m)
    }
}

/// The index rows of a cartesian product over pools of these sizes: each
/// row picks one index per pool, rows ordered lexicographically with the
/// last pool varying fastest.
pub open spec fn index_rows(sizes: Seq<nat>) -> Seq<Seq<int>>
    decreases sizes.len(),
{
    if sizes.len() == 0 {
        seq![Seq::<int>::empty()]
    } else {
        rows_extend(index_rows(sizes.drop_last()), sizes.last() as int)
    }
}

proof fn lemma_rows_extend_props(rows: Seq<Seq<int>>, m: int, len: int)
    requires
        m >= 0,
        forall|k: int| 0 <= k < rows.len() ==> (#[trigger] rows[k]).len() == len,
    ensures
        rows_extend(rows, m).len() == rows.len() * m,
        forall|k: int|
            0 <= k < rows_extend(rows, m).len() ==> (#[trigger] rows_extend(rows, m)[k]).len()
                == len + 1,
    decreases rows.len(),
{
    if rows.len() > 0 {
        assert(forall|k: int|
            0 <= k < rows.drop_first().len() ==> #[trigger] rows.drop_first()[k] == rows[k + 1]);
        lemma_rows_extend_props(rows.drop_first(), m, len);
        assert(rows.len() * m == m + rows.drop_first().len() * m) by (nonlinear_arith)
            requires
                rows.len() >= 1,
        ;
        assert forall|k: int|
            0 <= k < rows_extend(rows, m).len() implies (#[trigger] rows_extend(rows, m)[k]).len()
                == len + 1 by {
            if k >= m {
                assert(rows_extend(rows, m)[k] == rows_extend(rows.drop_first(), m)[k - m]);
            }
        }
    }
}

/// Every index row has one in-range index per pool, and there are as
/// many rows as the product of the pool sizes.
pub proof fn lemma_index_rows_props(sizes: Seq<nat>)
    ensures
        index_rows(sizes).len() == product_count(sizes),
        forall|k: int|
            0 <= k < index_rows(sizes).len() ==> (#[trigger] index_rows(sizes)[k]).len()
                == sizes.len() && forall|i: int|
                0 <= i < sizes.len() ==> 0 <= #[trigger] index_rows(sizes)[k][i] < sizes[i],
    decreases sizes.len(),
{
    if sizes.len() > 0 {
        lemma_index_rows_props(sizes.drop_last());
        let prev = index_rows(sizes.drop_last());
        let m = sizes.last() as int;
        lemma_rows_extend_props(prev, m, sizes.len() - 1);
        lemma_rows_extend_member(prev, m);
        assert forall|k: int|
            0 <= k < index_rows(sizes).len() implies (#[trigger] index_rows(sizes)[k]).len()
                == sizes.len() && forall|i: int|
                0 <= i < sizes.len() ==> 0 <= #[trigger] index_rows(sizes)[k][i] < sizes[i] by {
            let row = index_rows(sizes)[k];
            assert(is_extended_row(prev, m, row));
            let (q, p) = choose|q: int, p: int|
                0 <= q < prev.len() && 0 <= p < m && row == #[trigger] prev[q].push(p);
            assert(row == prev[q].push(p));
            assert forall|i: int|
                0 <= i < sizes.len() implies 0 <= #[trigger] row[i] < sizes[i] by {
                if i < sizes.len() - 1 {
                    assert(row[i] == prev[q][i]);
                    assert(sizes.drop_last()[i] == sizes[i]);
                } else {
                    assert(row[i] == p);
                }
            }
        }
    }
}

/// Whether `row` extends some row of `rows` by one index below `m`.
spec fn is_extended_row(rows: Seq<Seq<int>>, m: int, row: Seq<int>) -> bool {
    exists|q: int, p: int| 0 <= q < rows.len() && 0 <= p < m && row == #[trigger] rows[q].push(p)
}

proof fn lemma_rows_extend_member(rows: Seq<Seq<int>>, m: int)
    requires
        m >= 0,
    ensures
        forall|k: int|
            0 <= k < rows_extend(rows, m).len() ==> #[trigger] is_extended_row(
                rows,
                m,
                rows_extend(rows, m)[k],
            ),
    decreases rows.len(),
{
    if rows.len() > 0 {
        lemma_rows_extend_member(rows.drop_first(), m);
        assert forall|k: int|
            0 <= k < rows_extend(rows, m).len() implies #[trigger] is_extended_row(
                rows,
                m,
                rows_extend(rows, m)[k],
            ) by {
            if k < m {
                assert(rows_extend(rows, m)[k] == rows[0].push(k));
            } else {
                assert(rows_extend(rows, m)[k] == rows_extend(rows.drop_first(), m)[k - m]);
                assert(is_extended_row(rows.drop_first(), m, rows_extend(rows, m)[k]));
                let (q0, p0) = choose|q0: int, p0: int|
                    0 <= q0 < rows.drop_first().len() && 0 <= p0 < m && rows_extend(rows, m)[k]
                        == #[trigger] rows.drop_first()[q0].push(p0);
                assert(rows.drop_first()[q0] == rows[q0 + 1]);
                assert(rows_extend(rows, m)[k] == rows[q0 + 1].push(p0));
            }
        }
    }
}

/// The index rows of a built vector of rows.
pub open spec fn idx_rows_view(v: Seq<Vec<usize>>) -> Seq<Seq<int>> {
    Seq::new(v.len(), |k: int| v[k]@.map_values(|u: usize| u as int))
}

/// Every combination of one element from each pool: row `k` holds, at
/// position `i`, a clone of the element of pool `i` selected by the
/// `k`-th index row, so the rows enumerate the whole product in order,
/// the last pool varying fastest.
#[verifier::loop_isolation(false)]
pub fn cartesian_product<T: Clone>(input: &Vec<Vec<T>>) -> (r: Vec<Vec<T>>)
    ensures
        r@.len() == product_count(pool_sizes(input@)),
        forall|k: int| 0 <= k < r@.len() ==> (#[trigger] r@[k])@.len() == input@.len(),
        forall|k: int, i: int|
            0 <= k < r@.len() && 0 <= i < input@.len() ==> cloned::<T>(
                input@[i]@[index_rows(pool_sizes(input@))[k][i]],
                #[trigger] r@[k]@[i],
            ),
{
    let ghost sizes = pool_sizes(input@);
    let n = input.len();

    // first the index rows, over plain positions
    let mut rows_idx: Vec<Vec<usize>> = Vec::new();
    rows_idx.push(Vec::new());
    let mut i: usize = 0;
    proof {
        assert(sizes.take(0) =~= Seq::<nat>::empty());
        assert(idx_rows_view(rows_idx@) =~~= index_rows(sizes.take(0)));
    }
    while i < n
        invariant
            i <= n,
            n == input@.len(),
            sizes.len() == n,
            idx_rows_view(rows_idx@) == index_rows(sizes.take(i as int)),
            forall|k: int| 0 <= k < rows_idx@.len() ==> (#[trigger] rows_idx@[k])@.len() == i,
        decreases n - i,
    {
        let ghost cur = idx_rows_view(rows_idx@);
        let m = input[i].len();
        proof {
            assert(sizes[i as int] == input@[i as int]@.len());
            assert(sizes.take(i + 1).drop_last() =~= sizes.take(i as int));
            assert(sizes.take(i + 1).last() == sizes[i as int]);
            assert(cur.skip(0) =~= cur);
        }
        let mut temp: Vec<Vec<usize>> = Vec::new();
        let rows = rows_idx.len();
        let mut k: usize = 0;
        proof {
            assert(idx_rows_view(temp@) =~= Seq::<Seq<int>>::empty());
            assert(rows_extend(cur, m as int) =~= idx_rows_view(temp@) + rows_extend(
                cur.skip(0),
                m as int,
            ));
        }
        while k < rows
            invariant
                k <= rows,
                rows == rows_idx@.len(),
                i < n,
                n == input@.len(),
                m == input@[i as int]@.len(),
                cur == idx_rows_view(rows_idx@),
                cur.len() == rows,
                forall|j: int| 0 <= j < rows ==> (#[trigger] rows_idx@[j])@.len() == i,
                forall|j: int| 0 <= j < temp@.len() ==> (#[trigger] temp@[j])@.len() == i + 1,
                rows_extend(cur, m as int) == idx_rows_view(temp@) + rows_extend(
                    cur.skip(k as int),
                    m as int,
                ),
            decreases rows - k,
        {
            proof {
                assert(cur.skip(k as int)[0] == cur[k as int]);
                assert(cur.skip(k as int).drop_first() =~= cur.skip(k + 1));
            }
            let ghost block_base = idx_rows_view(temp@);
            let mut p: usize = 0;
            while p < m
                invariant
                    p <= m,
                    k < rows,
                    rows == rows_idx@.len(),
                    i < n,
                    m == input@[i as int]@.len(),
                    cur == idx_rows_view(rows_idx@),
                    cur.len() == rows,
                    forall|j: int| 0 <= j < rows ==> (#[trigger] rows_idx@[j])@.len() == i,
                    forall|j: int| 0 <= j < temp@.len() ==> (#[trigger] temp@[j])@.len() == i
                        + 1,
                    idx_rows_view(temp@) == block_base + Seq::new(
                        p as nat,
                        |q: int| cur[k as int].push(q),
                    ),
                decreases m - p,
            {
                let source = &rows_idx[k];
                let mut nr: Vec<usize> = Vec::new();
                let mut w: usize = 0;
                while w < source.len()
                    invariant
                        w <= source@.len(),
                        source@ == rows_idx@[k as int]@,
                        nr@ == source@.take(w as int),
                    decreases source@.len() - w,
                {
                    nr.push(source[w]);
                    proof {
                        assert(nr@ =~= source@.take(w + 1));
                    }
                    w = w + 1;
                }
                proof {
                    assert(nr@ =~= rows_idx@[k as int]@);
                }
                nr.push(p);
                let ghost before = idx_rows_view(temp@);
                temp.push(nr);
                proof {
                    assert(temp@[temp@.len() - 1]@.map_values(|u: usize| u as int) =~= cur[
                        k as int
                    ].push(p as int));
                    assert(idx_rows_view(temp@) =~= before.push(cur[k as int].push(p as int)));
                    assert(idx_rows_view(temp@) =~= block_base + Seq::new(
                        (p + 1) as nat,
                        |q: int| cur[k as int].push(q),
                    ));
                }
                p = p + 1;
            }
            proof {
                assert(rows_extend(cur.skip(k as int), m as int) == Seq::new(
                    m as nat,
                    |q: int| cur.skip(k as int)[0].push(q),
                ) + rows_extend(cur.skip(k + 1), m as int));
                assert(Seq::new(m as nat, |q: int| cur.skip(k as int)[0].push(q)) =~= Seq::new(
                    m as nat,
                    |q: int| cur[k as int].push(q),
                ));
                assert(idx_rows_view(temp@) + rows_extend(cur.skip(k + 1), m as int)
                    =~= block_base + (Seq::new(m as nat, |q: int| cur[k as int].push(q))
                    + rows_extend(cur.skip(k + 1), m as int)));
            }
            k = k + 1;
        }
        proof {
            assert(cur.skip(rows as int) =~= Seq::<Seq<int>>::empty());
            assert(rows_extend(cur.skip(rows as int), m as int) =~= Seq::<Seq<int>>::empty());
            assert(idx_rows_view(temp@) + Seq::<Seq<int>>::empty() =~= idx_rows_view(temp@));
        }
        rows_idx = temp;
        i = i + 1;
    }
    proof {
        assert(sizes.take(n as int) =~= sizes);
        lemma_index_rows_props(sizes);
    }

    // then the rows themselves, one clone per selected element
    let total = rows_idx.len();
    let mut result: Vec<Vec<T>> = Vec::new();
    let mut k: usize = 0;
    while k < total
        invariant
            k <= total,
            total == rows_idx@.len(),
            n == input@.len(),
            sizes.len() == n,
            idx_rows_view(rows_idx@) == index_rows(sizes),
            forall|j: int| 0 <= j < total ==> (#[trigger] rows_idx@[j])@.len() == n,
            forall|j: int|
                0 <= j < index_rows(sizes).len() ==> (#[trigger] index_rows(sizes)[j]).len()
                    == n && forall|q: int|
                    0 <= q < n ==> 0 <= #[trigger] index_rows(sizes)[j][q] < sizes[q],
            result@.len() == k,
            forall|j: int| 0 <= j < k ==> (#[trigger] result@[j])@.len() == n,
            forall|j: int, q: int|
                0 <= j < k && 0 <= q < n ==> cloned::<T>(
                    input@[q]@[index_rows(sizes)[j][q]],
                    #[trigger] result@[j]@[q],
                ),
        decreases total - k,
    {
        let idx_row = &rows_idx[k];
        let mut row: Vec<T> = Vec::new();
        let mut q: usize = 0;
        proof {
            assert(idx_rows_view(rows_idx@)[k as int] == index_rows(sizes)[k as int]);
        }
        while q < n
            invariant
                q <= n,
                k < total,
                n == input@.len(),
                idx_row@ == rows_idx@[k as int]@,
                idx_row@.len() == n,
                idx_rows_view(rows_idx@) == index_rows(sizes),
                total == rows_idx@.len(),
                forall|j: int|
                    0 <= j < index_rows(sizes).len() ==> (#[trigger] index_rows(
                        sizes,
                    )[j]).len() == n && forall|w: int|
                        0 <= w < n ==> 0 <= #[trigger] index_rows(sizes)[j][w] < sizes[w],
                row@.len() == q,
                forall|w: int|
                    0 <= w < q ==> cloned::<T>(
                        input@[w]@[index_rows(sizes)[k as int][w]],
                        #[trigger] row@[w],
                    ),
            decreases n - q,
        {
            proof {
                assert(index_rows(sizes)[k as int][q as int] == idx_row@[q as int] as int);
                assert(sizes[q as int] == input@[q as int]@.len());
            }
            row.push(input[q][idx_row[q]].clone());
            q = q + 1;
        }
        result.push(row);
        k = k + 1;
    }
    result
}

/// The shape of the option at position `j` of an enumeration over the
/// trait choices `set`, where each block of `per` options shares one
/// children row: cloned data, as many children as the node had, and the
/// trait pinned by the position — one single trait per choice, then all
/// of them together when there was a real choice.
pub open spec fn option_layout<A: Clone, T: Clone>(
    parent: Node<A, T>,
    set: Seq<T>,
    per: int,
    j: int,
    o: Node<A, T>,
) -> bool {
    &&& cloned::<A>(parent.data, o.data)
    &&& o.children@.len() == parent.children@.len()
    &&& if j % per < set.len() {
        o.traits matches TraitSet::Only(x) && cloned::<T>(set[j % per], x)
    } else {
        o.traits matches TraitSet::All(v) && v@.len() == set.len() && forall|q: int|
            0 <= q < set.len() ==> cloned::<T>(set[q], #[trigger] v@[q])
    }
}

/// How many options this node generates.
pub open spec fn options_count<A, T>(n: Node<A, T>) -> nat
    decreases n,
{
    match n.traits {
        TraitSet::Any(set) => children_options_count(n.children@) * (set@.len() + (
        if set@.len() > 1 {
            1nat
        } else {
            0nat
        })),
        _ => 1nat,
    }
}

/// How many combined child rows this node's children generate.
pub open spec fn children_options_count<A, T>(children: Seq<Node<A, T>>) -> nat
    decreases children,
{
    if children.len() == 0 {
        1nat
    } else {
        children_options_count(children.drop_last()) * options_count(children.last())
    }
}

impl<A: Clone, T: Clone> Node<A, T> {
    /// Every resolution of this node: an undecided trait set yields one
    /// option per single trait and, when there was a real choice, one
    /// more taking them all, each combined with every resolution of the
    /// children; a decided node is its own single clone. The options come
    /// in blocks, one block per combined children row, laid out inside
    /// each block in the trait set's order with the all-traits variant
    /// last.
    #[verifier::loop_isolation(false)]
    pub fn generate_options(&self) -> (r: Vec<Node<A, T>>)
        ensures
            r@.len() == options_count(*self),
            self.traits is Any ==> forall|j: int|
                0 <= j < r@.len() ==> option_layout(
                    *self,
                    self.traits->Any_0@,
                    self.traits->Any_0@.len() as int + (
                    if self.traits->Any_0@.len() > 1 {
                        1int
                    } else {
                        0int
                    }),
                    j,
                    #[trigger] r@[j],
                ),
            !(self.traits is Any) ==> r@.len() == 1 && node_cloned(*self, r@[0]),
        decreases self,
    {
        match &self.traits {
            TraitSet::Any(set) => {
                let ghost per = set@.len() as int + (
                if set@.len() > 1 {
                    1int
                } else {
                    0int
                });
                let mut pools: Vec<Vec<Node<A, T>>> = Vec::new();
                let n = self.children.len();
                let mut i: usize = 0;
                proof {
                    assert(pool_sizes(pools@).take(0) =~= Seq::<nat>::empty());
                    assert(pool_sizes(pools@) =~= Seq::<nat>::empty());
                }
                while i < n
                    invariant
                        i <= n,
                        n == self.children@.len(),
                        pools@.len() == i,
                        product_count(pool_sizes(pools@)) == children_options_count(
                            self.children@.take(i as int),
                        ),
                    decreases n - i,
                {
                    proof {
                        assert(self.children@.take(i + 1).drop_last() =~= self.children@.take(
                            i as int,
                        ));
                        assert(self.children@.take(i + 1).last() == self.children@[i as int]);
                    }
                    let ghost before = pools@;
                    let options = self.children[i].generate_options();
                    pools.push(options);
                    proof {
                        assert(pool_sizes(pools@).drop_last() =~= pool_sizes(before));
                        assert(pool_sizes(pools@).last() == options_count(
                            self.children@[i as int],
                        ));
                    }
                    i = i + 1;
                }
                proof {
                    assert(self.children@.take(n as int) =~= self.children@);
                }
                let children_set = cartesian_product(&pools);
                let mut out: Vec<Node<A, T>> = Vec::new();
                let rows = children_set.len();
                let mut k: usize = 0;
                while k < rows
                    invariant
                        k <= rows,
                        rows == children_set@.len(),
                        n == self.children@.len(),
                        pools@.len() == n,
                        forall|q: int| 0 <= q < rows ==> (#[trigger] children_set@[q])@.len()
                            == n,
                        per == set@.len() as int + (
                        if set@.len() > 1 {
                            1int
                        } else {
                            0int
                        }),
                        out@.len() == k * per,
                        forall|j: int| 0 <= j < out@.len() ==> option_layout(
                            *self,
                            set@,
                            per,
                            j,
                            #[trigger] out@[j],
                        ),
                    decreases rows - k,
                {
                    let m = set.len();
                    let mut t: usize = 0;
                    while t < m
                        invariant
                            t <= m,
                            k < rows,
                            rows == children_set@.len(),
                            n == self.children@.len(),
                            forall|q: int| 0 <= q < rows ==> (
                            #[trigger] children_set@[q])@.len() == n,
                            m == set@.len(),
                            per == set@.len() as int + (
                            if set@.len() > 1 {
                                1int
                            } else {
                                0int
                            }),
                            out@.len() == k * per + t,
                            forall|j: int| 0 <= j < out@.len() ==> option_layout(
                                *self,
                                set@,
                                per,
                                j,
                                #[trigger] out@[j],
                            ),
                        decreases m - t,
                    {
                        let option = Node {
                            data: self.data.clone(),
                            children: children_set[k].clone(),
                            traits: TraitSet::Only(set[t].clone()),
                        };
                        proof {
                            assert((k * per + t) % per == t) by (nonlinear_arith)
                                requires
                                    0 <= t < per,
                                    0 <= k,
                                    0 < per,
                            ;
                            assert(option_layout(*self, set@, per, out@.len() as int, option));
                        }
                        out.push(option);
                        t = t + 1;
                    }
                    if set.len() > 1 {
                        let option = Node {
                            data: self.data.clone(),
                            children: children_set[k].clone(),
                            traits: TraitSet::All(set.clone()),
                        };
                        proof {
                            assert((k * per + set@.len()) % per == set@.len() as int)
                                by (nonlinear_arith)
                                requires
                                    per == set@.len() + 1,
                                    0 <= k,
                                    0 < per,
                            ;
                            assert(option_layout(*self, set@, per, out@.len() as int, option));
                        }
                        out.push(option);
                    }
                    k = k + 1;
                    proof {
                        assert(k * per == (k - 1) * per + per) by (nonlinear_arith);
                    }
                }
                proof {
                    assert(self.children@.take(n as int) =~= self.children@);
                    assert(children_options_count(self.children@) * (set@.len() + (
                    if set@.len() > 1 {
                        1nat
                    } else {
                        0nat
                    })) == out@.len()) by (nonlinear_arith)
                        requires
                            out@.len() == rows * per,
                            per == set@.len() as int + (
                            if set@.len() > 1 {
                                1int
                            } else {
                                0int
                            }),
                            rows == children_options_count(self.children@),
                    ;
                }
                out
            },
            _ => {
                let mut out: Vec<Node<A, T>> = Vec::new();
                out.push(self.clone());
                proof {
                    assert(out@.len() == options_count(*self));
                }
                out
            },
        }
    }
}

} // verus!
