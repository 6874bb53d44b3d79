//! Pruning a field tree's subgraph annotations.
//!
//! After enrichment every field carries the subgraphs that could serve it.
//! The pruner reduces those sets in two passes: a greedy minimum set cover
//! over the whole tree picks the required subgraphs, and a walk down the
//! tree then keeps, at each field, only the required subgraphs — further
//! narrowed to the parent's subgraphs whenever the field shares one with
//! its parent, so sibling groups stay on one subgraph where they can.

use vstd::prelude::*;

use crate::blueprint::JoinField;
use crate::blueprint::JoinFieldV;
use crate::model::Field;
use crate::model::FieldV;
use crate::model::QueryPlan;
use crate::model::SelectionSet;
use crate::model::fields_view;
use crate::model::lemma_fields_view;
use crate::names::NameMap;
use crate::names::NameSet;
use crate::names::map_ensure;
use crate::names::map_update_first;
use crate::names::name_lookup;
use crate::transform::Transform;
use crate::valid::CauseV;
use crate::valid::Valid;
use crate::valid::ValidationError;

verus! {

/// The graph names that the entries of `jfs` carry, in order; an entry
/// without a graph contributes nothing.
pub open spec fn join_graphs(jfs: Seq<JoinFieldV>) -> Seq<Seq<char>>
    decreases jfs.len(),
{
    if jfs.len() == 0 {
        Seq::<Seq<char>>::empty()
    } else {
        match jfs[0].graph {
            Option::Some(g) => seq![g] + join_graphs(jfs.drop_first()),
            Option::None => join_graphs(jfs.drop_first()),
        }
    }
}

/// `acc` extended with `g`, unless already present.
pub open spec fn add_name(acc: Seq<Seq<char>>, g: Seq<char>) -> Seq<Seq<char>> {
    if acc.contains(g) {
        acc
    } else {
        acc.push(g)
    }
}

/// `acc` extended with every graph named in `jfs`, in order, each once.
pub open spec fn add_join_graphs(acc: Seq<Seq<char>>, jfs: Seq<JoinFieldV>) -> Seq<Seq<char>>
    decreases jfs.len(),
{
    if jfs.len() == 0 {
        acc
    } else {
        match jfs[0].graph {
            Option::Some(g) => add_join_graphs(add_name(acc, g), jfs.drop_first()),
            Option::None => add_join_graphs(acc, jfs.drop_first()),
        }
    }
}

/// `acc` extended with each of `names`, in order, each once.
pub open spec fn add_seq_names(acc: Seq<Seq<char>>, names: Seq<Seq<char>>) -> Seq<Seq<char>>
    decreases names.len(),
{
    if names.len() == 0 {
        acc
    } else {
        add_seq_names(add_name(acc, names[0]), names.drop_first())
    }
}

/// `acc` extended with every subgraph that can serve a field anywhere in
/// the tree under `f` — inherited type-level candidates as well as the
/// graphs of the field metadata — in first-occurrence order.
pub open spec fn collect_subgraphs_v(acc: Seq<Seq<char>>, f: FieldV) -> Seq<Seq<char>>
    decreases f,
{
    collect_subgraphs_children(
        add_join_graphs(add_seq_names(acc, f.graph), f.join_field),
        f.selections,
    )
}

/// `acc` extended with every subgraph named under the fields of `s`.
pub open spec fn collect_subgraphs_children(
    acc: Seq<Seq<char>>,
    s: Seq<FieldV>,
) -> Seq<Seq<char>>
    decreases s,
{
    if s.len() == 0 {
        acc
    } else {
        collect_subgraphs_children(collect_subgraphs_v(acc, s[0]), s.drop_first())
    }
}

/// `acc` with `g` added to the entry of `key` as [`NameMap::add_to`] does.
pub open spec fn map_add(
    acc: Seq<(Seq<char>, Seq<Seq<char>>)>,
    key: Seq<char>,
    g: Seq<char>,
) -> Seq<(Seq<char>, Seq<Seq<char>>)> {
    match name_lookup(acc, key) {
        Option::Some(s) => map_update_first(acc, key, add_name(s, g)),
        Option::None => acc.push((key, seq![g])),
    }
}

/// `acc` with an entry for `fname` extended by each of `names`.
pub open spec fn add_field_names(
    acc: Seq<(Seq<char>, Seq<Seq<char>>)>,
    fname: Seq<char>,
    names: Seq<Seq<char>>,
) -> Seq<(Seq<char>, Seq<Seq<char>>)>
    decreases names.len(),
{
    if names.len() == 0 {
        acc
    } else {
        add_field_names(map_add(acc, fname, names[0]), fname, names.drop_first())
    }
}

/// `acc` with an entry for `fname` extended by every graph of `jfs`.
pub open spec fn add_field_graphs(
    acc: Seq<(Seq<char>, Seq<Seq<char>>)>,
    fname: Seq<char>,
    jfs: Seq<JoinFieldV>,
) -> Seq<(Seq<char>, Seq<Seq<char>>)>
    decreases jfs.len(),
{
    if jfs.len() == 0 {
        acc
    } else {
        match jfs[0].graph {
            Option::Some(g) => add_field_graphs(map_add(acc, fname, g), fname, jfs.drop_first()),
            Option::None => add_field_graphs(acc, fname, jfs.drop_first()),
        }
    }
}

/// `acc` with the set under `key` replaced, or the entry appended, as
/// [`NameMap::put`] does.
pub open spec fn map_put(
    acc: Seq<(Seq<char>, Seq<Seq<char>>)>,
    key: Seq<char>,
    value: Seq<Seq<char>>,
) -> Seq<(Seq<char>, Seq<Seq<char>>)> {
    match name_lookup(acc, key) {
        Option::Some(_) => map_update_first(acc, key, value),
        Option::None => acc.push((key, value)),
    }
}

/// `acc` overwritten entry by entry with `other`, in order.
pub open spec fn map_extend(
    acc: Seq<(Seq<char>, Seq<Seq<char>>)>,
    other: Seq<(Seq<char>, Seq<Seq<char>>)>,
) -> Seq<(Seq<char>, Seq<Seq<char>>)>
    decreases other.len(),
{
    if other.len() == 0 {
        acc
    } else {
        map_extend(map_put(acc, other[0].0, other[0].1), other.drop_first())
    }
}

/// The map from each field name in the tree under `f` to the set of
/// subgraphs that can serve it: every field gets an entry — one with no
/// candidate at all gets an empty set, so the cover can fail over it —
/// filled from its inherited candidates and its metadata's graphs; each
/// child's map is folded in afterwards, later children overwriting
/// earlier entries of the same name.
pub open spec fn collect_fields_map(f: FieldV) -> Seq<(Seq<char>, Seq<Seq<char>>)>
    decreases f,
{
    collect_fields_children(
        add_field_graphs(
            add_field_names(
                map_ensure(Seq::<(Seq<char>, Seq<Seq<char>>)>::empty(), f.name),
                f.name,
                f.graph,
            ),
            f.name,
            f.join_field,
        ),
        f.selections,
    )
}

/// `acc` extended with each child's field map in order.
pub open spec fn collect_fields_children(
    acc: Seq<(Seq<char>, Seq<Seq<char>>)>,
    s: Seq<FieldV>,
) -> Seq<(Seq<char>, Seq<Seq<char>>)>
    decreases s,
{
    if s.len() == 0 {
        acc
    } else {
        collect_fields_children(map_extend(acc, collect_fields_map(s[0])), s.drop_first())
    }
}

/// The keys of `entries`, in order.
pub open spec fn map_keys(entries: Seq<(Seq<char>, Seq<Seq<char>>)>) -> Seq<Seq<char>>
    decreases entries.len(),
{
    if entries.len() == 0 {
        Seq::<Seq<char>>::empty()
    } else {
        seq![entries[0].0] + map_keys(entries.drop_first())
    }
}

/// Whether subgraph `g` can serve the field named `f` according to the
/// collected map.
pub open spec fn covers(
    f2s: Seq<(Seq<char>, Seq<Seq<char>>)>,
    g: Seq<char>,
    f: Seq<char>,
) -> bool {
    match name_lookup(f2s, f) {
        Option::Some(s) => s.contains(g),
        Option::None => false,
    }
}

/// How many of the `uncovered` fields the subgraph `g` can serve.
pub open spec fn count_cover(
    g: Seq<char>,
    uncovered: Seq<Seq<char>>,
    f2s: Seq<(Seq<char>, Seq<Seq<char>>)>,
) -> nat
    decreases uncovered.len(),
{
    if uncovered.len() == 0 {
        0nat
    } else {
        (if covers(f2s, g, uncovered[0]) {
            1nat
        } else {
            0nat
        }) + count_cover(g, uncovered.drop_first(), f2s)
    }
}

/// The greedy choice: walks `subgraphs` in order carrying the best so far,
/// and replaces it only on a strictly better count, so the earliest best
/// wins.
pub open spec fn pick_best(
    subgraphs: Seq<Seq<char>>,
    uncovered: Seq<Seq<char>>,
    f2s: Seq<(Seq<char>, Seq<Seq<char>>)>,
    best: Option<Seq<char>>,
    best_count: nat,
) -> Option<Seq<char>>
    decreases subgraphs.len(),
{
    if subgraphs.len() == 0 {
        best
    } else {
        let c = count_cover(subgraphs[0], uncovered, f2s);
        if c > best_count {
            pick_best(subgraphs.drop_first(), uncovered, f2s, Option::Some(subgraphs[0]), c)
        } else {
            pick_best(subgraphs.drop_first(), uncovered, f2s, best, best_count)
        }
    }
}

proof fn lemma_pick_best_positive(
    subgraphs: Seq<Seq<char>>,
    uncovered: Seq<Seq<char>>,
    f2s: Seq<(Seq<char>, Seq<Seq<char>>)>,
    best: Option<Seq<char>>,
    best_count: nat,
)
    requires
        best matches Option::Some(b) ==> best_count > 0 && count_cover(b, uncovered, f2s)
            == best_count,
    ensures
        pick_best(subgraphs, uncovered, f2s, best, best_count) matches Option::Some(g)
            ==> count_cover(g, uncovered, f2s) > 0,
    decreases subgraphs.len(),
{
    if subgraphs.len() > 0 {
        let c = count_cover(subgraphs[0], uncovered, f2s);
        if c > best_count {
            lemma_pick_best_positive(
                subgraphs.drop_first(),
                uncovered,
                f2s,
                Option::Some(subgraphs[0]),
                c,
            );
        } else {
            lemma_pick_best_positive(subgraphs.drop_first(), uncovered, f2s, best, best_count);
        }
    }
}

proof fn lemma_count_pos_witness(
    g: Seq<char>,
    uncovered: Seq<Seq<char>>,
    f2s: Seq<(Seq<char>, Seq<Seq<char>>)>,
)
    requires
        count_cover(g, uncovered, f2s) > 0,
    ensures
        exists|i: int| 0 <= i < uncovered.len() && covers(f2s, g, #[trigger] uncovered[i]),
    decreases uncovered.len(),
{
    if uncovered.len() > 0 {
        if covers(f2s, g, uncovered[0]) {
            assert(covers(f2s, g, uncovered[0]));
        } else {
            lemma_count_pos_witness(g, uncovered.drop_first(), f2s);
            let i = choose|i: int|
                0 <= i < uncovered.drop_first().len() && covers(
                    f2s,
                    g,
                    #[trigger] uncovered.drop_first()[i],
                );
            assert(uncovered[i + 1] == uncovered.drop_first()[i]);
        }
    }
}

proof fn lemma_filter_shrinks<A>(s: Seq<A>, pred: spec_fn(A) -> bool, i: int)
    requires
        0 <= i < s.len(),
        !pred(s[i]),
    ensures
        s.filter(pred).len() < s.len(),
    decreases s.len(),
{
    reveal(Seq::filter);
    if i == s.len() - 1 {
        s.drop_last().lemma_filter_len(pred);
    } else {
        lemma_filter_shrinks(s.drop_last(), pred, i);
    }
}

/// The greedy set cover: while any field is uncovered, picks the subgraph
/// that covers the most uncovered fields, first such subgraph on a tie,
/// and removes what it covers; nothing to pick while fields remain means
/// no cover exists.
pub open spec fn greedy_cover(
    subgraphs: Seq<Seq<char>>,
    f2s: Seq<(Seq<char>, Seq<Seq<char>>)>,
    uncovered: Seq<Seq<char>>,
) -> Option<Seq<Seq<char>>>
    decreases uncovered.len(),
    via greedy_cover_decreases
{
    if uncovered.len() == 0 {
        Option::Some(Seq::<Seq<char>>::empty())
    } else {
        match pick_best(subgraphs, uncovered, f2s, Option::None, 0) {
            Option::None => Option::None,
            Option::Some(g) => {
                let remaining = uncovered.filter(|f: Seq<char>| !covers(f2s, g, f));
                match greedy_cover(subgraphs, f2s, remaining) {
                    Option::Some(rest) => Option::Some(seq![g] + rest),
                    Option::None => Option::None,
                }
            },
        }
    }
}

#[via_fn]
proof fn greedy_cover_decreases(
    subgraphs: Seq<Seq<char>>,
    f2s: Seq<(Seq<char>, Seq<Seq<char>>)>,
    uncovered: Seq<Seq<char>>,
) {
    if uncovered.len() > 0 {
        if pick_best(subgraphs, uncovered, f2s, Option::None, 0) is Some {
            let g = pick_best(subgraphs, uncovered, f2s, Option::None, 0)->0;
            lemma_pick_best_positive(subgraphs, uncovered, f2s, Option::None, 0);
            lemma_count_pos_witness(g, uncovered, f2s);
            let i = choose|i: int|
                0 <= i < uncovered.len() && covers(f2s, g, #[trigger] uncovered[i]);
            lemma_filter_shrinks(uncovered, |f: Seq<char>| !covers(f2s, g, f), i);
        }
    }
}


/// Whether any name of `a` also stands in `b`.
pub open spec fn seq_intersects(a: Seq<Seq<char>>, b: Seq<Seq<char>>) -> bool {
    exists|i: int| 0 <= i < a.len() && b.contains(#[trigger] a[i])
}

/// Whether a metadata entry survives the prune: one without a graph always
/// does; one with a graph must name a required subgraph, and additionally
/// one of the parent's subgraphs when the field shares any with its
/// parent.
pub open spec fn keep_join_field(
    jf: JoinFieldV,
    required: Seq<Seq<char>>,
    parent: Option<Seq<Seq<char>>>,
    is_common: bool,
) -> bool {
    match jf.graph {
        Option::None => true,
        Option::Some(g) => required.contains(g) && (is_common ==> parent->0.contains(g)),
    }
}

/// The pruned field: its metadata filtered against the required set and,
/// where common ground with the parent exists, against the parent's set;
/// its children pruned with this field's own unfiltered subgraphs as their
/// parent set.
pub open spec fn prune_field_v(
    f: FieldV,
    required: Seq<Seq<char>>,
    parent: Option<Seq<Seq<char>>>,
) -> FieldV
    decreases f,
{
    let fsubs = join_graphs(f.join_field);
    let is_common = parent matches Option::Some(ps) && seq_intersects(fsubs, ps);
    FieldV {
        join_field: f.join_field.filter(
            |jf: JoinFieldV| keep_join_field(jf, required, parent, is_common),
        ),
        selections: prune_fields_v(f.selections, required, fsubs),
        ..f
    }
}

/// The pruned children, each with `parent_subs` as its parent set.
pub open spec fn prune_fields_v(
    s: Seq<FieldV>,
    required: Seq<Seq<char>>,
    parent_subs: Seq<Seq<char>>,
) -> Seq<FieldV>
    decreases s,
{
    if s.len() == 0 {
        Seq::<FieldV>::empty()
    } else {
        seq![prune_field_v(s[0], required, Option::Some(parent_subs))] + prune_fields_v(
            s.drop_first(),
            required,
            parent_subs,
        )
    }
}

/// Whether the vector holds `name`.
fn vec_contains(v: &Vec<String>, name: &str) -> (r: bool)
    ensures
        r == v.deep_view().contains(name@),
{
    let owned = String::from_str(name);
    let n = v.len();
    let mut i: usize = 0;
    while i < n
        invariant
            i <= n,
            n == v@.len(),
            owned@ == name@,
            forall|j: int| 0 <= j < i ==> v.deep_view()[j] != name@,
        decreases n - i,
    {
        if v[i] == owned {
            proof {
                assert(v.deep_view()[i as int] == name@);
            }
            return true;
        }
        i = i + 1;
    }
    proof {
        assert(forall|j: int| 0 <= j < v.deep_view().len() ==> v.deep_view()[j] != name@);
    }
    false
}

/// The transform that prunes each field's subgraph annotations to a
/// minimal covering set, biased toward the parent's subgraphs.
pub struct Pruner;

impl Pruner {
    /// The pruner transform.
    pub fn new() -> (r: Pruner) {
        Pruner
    }

    /// Collects every subgraph named anywhere in the tree, in
    /// first-occurrence order.
    #[verifier::loop_isolation(false)]
    pub fn collect_subgraph(field: &Field, acc: &mut NameSet)
        ensures
            final(acc)@ == collect_subgraphs_v(old(acc)@, field@),
        decreases field,
    {
        let ghost acc0 = acc@;
        let ghost gnames = field@.graph;
        let ng = field.graph.len();
        let mut gi: usize = 0;
        proof {
            assert(gnames.skip(0) =~= gnames);
        }
        while gi < ng
            invariant
                gi <= ng,
                ng == field.graph@.len(),
                gnames.len() == ng,
                add_seq_names(acc0, gnames) == add_seq_names(acc@, gnames.skip(gi as int)),
            decreases ng - gi,
        {
            proof {
                assert(gnames[gi as int] == field.graph@[gi as int]@);
                assert(gnames.skip(gi as int)[0] == gnames[gi as int]);
                assert(gnames.skip(gi as int).drop_first() =~= gnames.skip(gi + 1));
            }
            acc.insert(String::from_str(field.graph[gi].as_str()));
            gi = gi + 1;
        }
        proof {
            assert(gnames.skip(ng as int) =~= Seq::<Seq<char>>::empty());
        }
        let ghost acc1 = acc@;
        let ghost jfs = field@.join_field;
        let n = field.join_field.len();
        let mut i: usize = 0;
        proof {
            assert(jfs.skip(0) =~= jfs);
        }
        while i < n
            invariant
                i <= n,
                n == field.join_field@.len(),
                jfs.len() == n,
                add_join_graphs(acc1, jfs) == add_join_graphs(acc@, jfs.skip(i as int)),
            decreases n - i,
        {
            proof {
                assert(jfs[i as int] == field.join_field@[i as int]@);
                assert(jfs.skip(i as int)[0] == jfs[i as int]);
                assert(jfs.skip(i as int).drop_first() =~= jfs.skip(i + 1));
            }
            match &field.join_field[i].graph {
                Some(g) => {
                    acc.insert(String::from_str(g.as_str()));
                },
                None => {},
            }
            i = i + 1;
        }
        proof {
            assert(jfs.skip(n as int) =~= Seq::<JoinFieldV>::empty());
        }
        let ghost mid = acc@;
        let ghost children = field@.selections;
        let m = field.selections.0.len();
        let mut k: usize = 0;
        proof {
            lemma_fields_view(field.selections.0@);
            assert(children.skip(0) =~= children);
        }
        while k < m
            invariant
                k <= m,
                m == field.selections.0@.len(),
                children.len() == m,
                collect_subgraphs_children(mid, children) == collect_subgraphs_children(
                    acc@,
                    children.skip(k as int),
                ),
            decreases m - k,
        {
            proof {
                lemma_fields_view(field.selections.0@);
                assert(children[k as int] == field.selections.0@[k as int]@);
                assert(children.skip(k as int)[0] == children[k as int]);
                assert(children.skip(k as int).drop_first() =~= children.skip(k + 1));
            }
            Pruner::collect_subgraph(&field.selections.0[k], acc);
            k = k + 1;
        }
        proof {
            assert(children.skip(m as int) =~= Seq::<FieldV>::empty());
        }
    }

    /// The map from each field name in the tree to the subgraphs that can
    /// serve it.
    #[verifier::loop_isolation(false)]
    pub fn collect_fields(field: &Field) -> (r: NameMap)
        ensures
            r@ == collect_fields_map(field@),
        decreases field,
    {
        let mut map = NameMap::new();
        proof {
            assert(map@ =~= Seq::<(Seq<char>, Seq<Seq<char>>)>::empty());
        }
        map.ensure(field.name.as_str());
        let ghost ensured = map@;
        let ghost gnames = field@.graph;
        let ng = field.graph.len();
        let mut gi: usize = 0;
        proof {
            assert(gnames.skip(0) =~= gnames);
        }
        while gi < ng
            invariant
                gi <= ng,
                ng == field.graph@.len(),
                gnames.len() == ng,
                add_field_names(ensured, field@.name, gnames) == add_field_names(
                    map@,
                    field@.name,
                    gnames.skip(gi as int),
                ),
            decreases ng - gi,
        {
            proof {
                assert(gnames[gi as int] == field.graph@[gi as int]@);
                assert(gnames.skip(gi as int)[0] == gnames[gi as int]);
                assert(gnames.skip(gi as int).drop_first() =~= gnames.skip(gi + 1));
            }
            map.add_to(field.name.as_str(), field.graph[gi].as_str());
            gi = gi + 1;
        }
        proof {
            assert(gnames.skip(ng as int) =~= Seq::<Seq<char>>::empty());
        }
        let ghost named = map@;
        let ghost jfs = field@.join_field;
        let n = field.join_field.len();
        let mut i: usize = 0;
        proof {
            assert(jfs.skip(0) =~= jfs);
        }
        while i < n
            invariant
                i <= n,
                n == field.join_field@.len(),
                jfs.len() == n,
                add_field_graphs(named, field@.name, jfs) == add_field_graphs(
                    map@,
                    field@.name,
                    jfs.skip(i as int),
                ),
            decreases n - i,
        {
            proof {
                assert(jfs[i as int] == field.join_field@[i as int]@);
                assert(jfs.skip(i as int)[0] == jfs[i as int]);
                assert(jfs.skip(i as int).drop_first() =~= jfs.skip(i + 1));
            }
            match &field.join_field[i].graph {
                Some(g) => {
                    map.add_to(field.name.as_str(), g.as_str());
                },
                None => {},
            }
            i = i + 1;
        }
        proof {
            assert(jfs.skip(n as int) =~= Seq::<JoinFieldV>::empty());
        }
        let ghost own = map@;
        let ghost children = field@.selections;
        let m = field.selections.0.len();
        let mut k: usize = 0;
        proof {
            lemma_fields_view(field.selections.0@);
            assert(children.skip(0) =~= children);
        }
        while k < m
            invariant
                k <= m,
                m == field.selections.0@.len(),
                children.len() == m,
                collect_fields_children(own, children) == collect_fields_children(
                    map@,
                    children.skip(k as int),
                ),
            decreases m - k,
        {
            proof {
                lemma_fields_view(field.selections.0@);
                assert(children[k as int] == field.selections.0@[k as int]@);
                assert(children.skip(k as int)[0] == children[k as int]);
                assert(children.skip(k as int).drop_first() =~= children.skip(k + 1));
            }
            let child_map = Pruner::collect_fields(&field.selections.0[k]);
            map.extend_with(child_map);
            k = k + 1;
        }
        proof {
            assert(children.skip(m as int) =~= Seq::<FieldV>::empty());
        }
        map
    }
}

impl NameMap {
    /// Folds `other` into this map, entry by entry in order, replacing the
    /// set of a key already present.
    #[verifier::loop_isolation(false)]
    pub fn extend_with(&mut self, other: NameMap)
        ensures
            final(self)@ == map_extend(old(self)@, other@),
    {
        let ghost otherv = other@;
        let n = other.len();
        let mut i: usize = 0;
        proof {
            assert(otherv.skip(0) =~= otherv);
        }
        while i < n
            invariant
                i <= n,
                n == otherv.len(),
                other@ == otherv,
                map_extend(old(self)@, otherv) == map_extend(self@, otherv.skip(i as int)),
            decreases n - i,
        {
            proof {
                assert(otherv.skip(i as int)[0] == otherv[i as int]);
                assert(otherv.skip(i as int).drop_first() =~= otherv.skip(i + 1));
            }
            let (key, value) = other.index(i);
            let key_owned = key.clone();
            let value_owned = value.duplicate();
            self.put(key_owned, value_owned);
            i = i + 1;
        }
        proof {
            assert(otherv.skip(n as int) =~= Seq::<(Seq<char>, Seq<Seq<char>>)>::empty());
        }
    }
}


/// Counts how many of the `uncovered` fields the subgraph `g` can serve.
#[verifier::loop_isolation(false)]
fn count_covered(g: &str, uncovered: &Vec<String>, f2s: &NameMap) -> (c: usize)
    ensures
        c == count_cover(g@, uncovered.deep_view(), f2s@),
{
    let ghost unc = uncovered.deep_view();
    let n = uncovered.len();
    let mut c: usize = 0;
    let mut i: usize = 0;
    proof {
        assert(unc.skip(0) =~= unc);
    }
    while i < n
        invariant
            i <= n,
            c <= i,
            n == unc.len(),
            count_cover(g@, unc, f2s@) == c + count_cover(g@, unc.skip(i as int), f2s@),
        decreases n - i,
    {
        proof {
            assert(unc.skip(i as int)[0] == unc[i as int]);
            assert(unc.skip(i as int).drop_first() =~= unc.skip(i + 1));
            assert(uncovered@[i as int]@ == unc[i as int]);
        }
        let hit = match f2s.get(uncovered[i].as_str()) {
            Some(set) => set.contains(g),
            None => false,
        };
        if hit {
            c = c + 1;
        }
        i = i + 1;
    }
    proof {
        assert(unc.skip(n as int) =~= Seq::<Seq<char>>::empty());
    }
    c
}

/// The view of an optional owned name.
pub open spec fn opt_name_view(o: Option<String>) -> Option<Seq<char>> {
    match o {
        Option::Some(s) => Option::Some(s@),
        Option::None => Option::None,
    }
}

/// Picks the subgraph covering the most uncovered fields, the earliest on
/// a tie; none when no subgraph covers anything.
#[verifier::loop_isolation(false)]
fn pick_best_exec(subgraphs: &NameSet, uncovered: &Vec<String>, f2s: &NameMap) -> (r: Option<
    String,
>)
    ensures
        opt_name_view(r) == pick_best(
            subgraphs@,
            uncovered.deep_view(),
            f2s@,
            Option::None,
            0,
        ),
{
    let ghost subs = subgraphs@;
    let ghost unc = uncovered.deep_view();
    let n = subgraphs.len();
    let mut best: Option<String> = None;
    let mut best_count: usize = 0;
    let mut i: usize = 0;
    proof {
        assert(subs.skip(0) =~= subs);
    }
    while i < n
        invariant
            i <= n,
            n == subs.len(),
            best is None ==> best_count == 0,
            best matches Some(b) ==> best_count == count_cover(b@, unc, f2s@),
            pick_best(subs, unc, f2s@, Option::None, 0) == pick_best(
                subs.skip(i as int),
                unc,
                f2s@,
                opt_name_view(best),
                best_count as nat,
            ),
        decreases n - i,
    {
        proof {
            assert(subs.skip(i as int)[0] == subs[i as int]);
            assert(subs.skip(i as int).drop_first() =~= subs.skip(i + 1));
        }
        let g = subgraphs.index(i);
        let c = count_covered(g.as_str(), uncovered, f2s);
        if c > best_count {
            best = Some(g.clone());
            best_count = c;
        }
        i = i + 1;
    }
    proof {
        assert(subs.skip(n as int) =~= Seq::<Seq<char>>::empty());
    }
    best
}

impl Pruner {
    /// The greedy minimum set cover: repeatedly picks the subgraph
    /// covering the most uncovered fields until every field is covered,
    /// and fails when fields remain that no subgraph covers.
    #[verifier::loop_isolation(false)]
    pub fn minimum_set_cover(subgraphs: NameSet, field_to_subgraphs: NameMap) -> (r: Valid<
        NameSet,
        String,
    >)
        ensures
            match greedy_cover(
                subgraphs@,
                field_to_subgraphs@,
                map_keys(field_to_subgraphs@),
            ) {
                Option::Some(picks) => r@ matches Ok(s) && s@ == picks,
                Option::None => r@ matches Err(cs) && cs.len() == 1 && cs[0].message@
                    == "Invalid Input: Failed to find a valid set cover"@ && cs[0].trace.len()
                    == 0,
            },
    {
        let ghost subs = subgraphs@;
        let ghost f2s = field_to_subgraphs@;
        let ghost keys0 = map_keys(f2s);

        // the uncovered field names, in map order
        let mut uncovered: Vec<String> = Vec::new();
        let nkeys = field_to_subgraphs.len();
        let mut i: usize = 0;
        proof {
            assert(uncovered.deep_view() =~= Seq::<Seq<char>>::empty());
            lemma_map_keys_len(f2s);
        }
        while i < nkeys
            invariant
                i <= nkeys,
                nkeys == f2s.len(),
                field_to_subgraphs@ == f2s,
                keys0.len() == nkeys,
                uncovered.deep_view().len() == i,
                forall|j: int| 0 <= j < i ==> uncovered.deep_view()[j] == keys0[j],
            decreases nkeys - i,
        {
            proof {
                lemma_map_keys_index(f2s, i as int);
            }
            let (key, _) = field_to_subgraphs.index(i);
            let ghost before = uncovered.deep_view();
            uncovered.push(key.clone());
            proof {
                assert(uncovered.deep_view() =~= before.push(keys0[i as int]));
            }
            i = i + 1;
        }
        proof {
            assert(uncovered.deep_view() =~= keys0);
        }

        let mut picks = NameSet::new();
        proof {
            assert(picks@ =~= Seq::<Seq<char>>::empty());
        }
        loop
            invariant
                subgraphs@ == subs,
                field_to_subgraphs@ == f2s,
                (match greedy_cover(subs, f2s, uncovered.deep_view()) {
                    Option::Some(rest) => greedy_cover(subs, f2s, keys0) == Option::Some(
                        picks@ + rest,
                    ),
                    Option::None => greedy_cover(subs, f2s, keys0) is None,
                }),
                forall|k: int, j: int|
                    0 <= k < picks@.len() && 0 <= j < uncovered.deep_view().len() ==> !covers(
                        f2s,
                        #[trigger] picks@[k],
                        #[trigger] uncovered.deep_view()[j],
                    ),
            decreases uncovered.deep_view().len(),
        {
            if uncovered.len() == 0 {
                proof {
                    assert(uncovered.deep_view().len() == 0);
                    assert(greedy_cover(subs, f2s, uncovered.deep_view()) == Option::Some(
                        Seq::<Seq<char>>::empty(),
                    ));
                    assert(picks@ + Seq::<Seq<char>>::empty() =~= picks@);
                }
                return Valid::succeed(picks);
            }
            let best = pick_best_exec(&subgraphs, &uncovered, &field_to_subgraphs);
            match best {
                None => {
                    return Valid::fail(String::from_str(
                        "Invalid Input: Failed to find a valid set cover",
                    ));
                },
                Some(g) => {
                    let ghost gv = g@;
                    let ghost unc = uncovered.deep_view();
                    proof {
                        lemma_pick_best_positive(subs, unc, f2s, Option::None, 0);
                        lemma_count_pos_witness(gv, unc, f2s);
                        let wi = choose|wi: int|
                            0 <= wi < unc.len() && covers(f2s, gv, #[trigger] unc[wi]);
                        assert(!picks@.contains(gv)) by {
                            if picks@.contains(gv) {
                                let k = choose|k: int|
                                    0 <= k < picks@.len() && picks@[k] == gv;
                                assert(!covers(f2s, picks@[k], unc[wi]));
                            }
                        }
                        lemma_filter_shrinks(unc, |f: Seq<char>| !covers(f2s, gv, f), wi);
                    }
                    let ghost picks_before = picks@;
                    picks.insert(g.clone());
                    proof {
                        assert(picks@ == picks_before.push(gv));
                    }

                    // drop every field the pick covers
                    let mut kept: Vec<String> = Vec::new();
                    let m = uncovered.len();
                    let mut k: usize = 0;
                    proof {
                        reveal(Seq::filter);
                        assert(unc.take(0) =~= Seq::<Seq<char>>::empty());
                        assert(unc.take(0).filter(|f: Seq<char>| !covers(f2s, gv, f))
                            =~= Seq::<Seq<char>>::empty());
                        assert(kept.deep_view() =~= Seq::<Seq<char>>::empty());
                    }
                    while k < m
                        invariant
                            k <= m,
                            m == unc.len(),
                            uncovered.deep_view() == unc,
                            gv == g@,
                            kept.deep_view() == unc.take(k as int).filter(
                                |f: Seq<char>| !covers(f2s, gv, f),
                            ),
                        decreases m - k,
                    {
                        proof {
                            reveal(Seq::filter);
                            assert(unc.take(k + 1).drop_last() =~= unc.take(k as int));
                            assert(unc.take(k + 1).last() == unc[k as int]);
                            assert(uncovered@[k as int]@ == unc[k as int]);
                        }
                        let hit = match field_to_subgraphs.get(uncovered[k].as_str()) {
                            Some(set) => set.contains(g.as_str()),
                            None => false,
                        };
                        if !hit {
                            let ghost before = kept.deep_view();
                            kept.push(uncovered[k].clone());
                            proof {
                                assert(kept.deep_view() =~= before.push(unc[k as int]));
                            }
                        }
                        k = k + 1;
                    }
                    proof {
                        assert(unc.take(m as int) =~= unc);
                    }
                    uncovered = kept;
                    proof {
                        let pred = |f: Seq<char>| !covers(f2s, gv, f);
                        let remaining = unc.filter(pred);
                        assert(uncovered.deep_view() == remaining);
                        assert forall|kk: int, j: int|
                            0 <= kk < picks@.len() && 0 <= j < remaining.len() implies !covers(
                                f2s,
                                #[trigger] picks@[kk],
                                #[trigger] remaining[j],
                            ) by {
                            unc.lemma_filter_pred(pred, j);
                            lemma_filter_member(unc, pred, j);
                            let wj = choose|wj: int|
                                0 <= wj < unc.len() && unc[wj] == remaining[j];
                            if kk < picks_before.len() {
                                assert(picks@[kk] == picks_before[kk]);
                                assert(!covers(f2s, picks_before[kk], unc[wj]));
                            } else {
                                assert(picks@[kk] == gv);
                            }
                        }
                        assert(greedy_cover(subs, f2s, unc) == (
                            match greedy_cover(subs, f2s, remaining) {
                                Option::Some(rest) => Option::<Seq<Seq<char>>>::Some(
                                    seq![gv] + rest,
                                ),
                                Option::None => Option::<Seq<Seq<char>>>::None,
                            }
                        ));
                        if greedy_cover(subs, f2s, remaining) is Some {
                            let rest = greedy_cover(subs, f2s, remaining)->0;
                            assert(picks_before + (seq![gv] + rest) =~= picks@ + rest);
                        }
                    }
                },
            }
        }
    }
}

proof fn lemma_map_keys_index(entries: Seq<(Seq<char>, Seq<Seq<char>>)>, i: int)
    requires
        0 <= i < entries.len(),
    ensures
        map_keys(entries).len() == entries.len(),
        map_keys(entries)[i] == entries[i].0,
    decreases entries.len(),
{
    if entries.len() > 0 {
        if i > 0 {
            lemma_map_keys_index(entries.drop_first(), i - 1);
        } else {
            lemma_map_keys_len(entries.drop_first());
        }
    }
}

proof fn lemma_map_keys_len(entries: Seq<(Seq<char>, Seq<Seq<char>>)>)
    ensures
        map_keys(entries).len() == entries.len(),
    decreases entries.len(),
{
    if entries.len() > 0 {
        lemma_map_keys_len(entries.drop_first());
    }
}


proof fn lemma_filter_member<A>(s: Seq<A>, pred: spec_fn(A) -> bool, j: int)
    requires
        0 <= j < s.filter(pred).len(),
    ensures
        exists|i: int| 0 <= i < s.len() && s[i] == #[trigger] s.filter(pred)[j],
    decreases s.len(),
{
    reveal(Seq::filter);
    if s.len() > 0 {
        let sub = s.drop_last().filter(pred);
        if pred(s.last()) && j == s.filter(pred).len() - 1 {
            assert(s[s.len() - 1] == s.filter(pred)[j]);
        } else {
            lemma_filter_member(s.drop_last(), pred, j);
            let i = choose|i: int|
                0 <= i < s.drop_last().len() && s.drop_last()[i] == #[trigger] sub[j];
            assert(s[i] == s.drop_last()[i]);
            assert(s.filter(pred)[j] == sub[j]);
        }
    }
}


/// The view of an optional borrowed name list.
pub open spec fn opt_vec_view(o: Option<&Vec<String>>) -> Option<Seq<Seq<char>>> {
    match o {
        Option::Some(v) => Option::Some(v.deep_view()),
        Option::None => Option::None,
    }
}

impl Pruner {
    /// Prunes one field and its subtree: drops metadata entries whose
    /// graph is not required — nor, when the field shares a subgraph with
    /// its parent, among the parent's — and recurses with this field's own
    /// unfiltered subgraphs as the children's parent set.
    #[verifier::loop_isolation(false)]
    pub fn prune_field(
        field: Field,
        required_subgraphs: &NameSet,
        parent_subgraphs: Option<&Vec<String>>,
    ) -> (r: Field)
        ensures
            r@ == prune_field_v(field@, required_subgraphs@, opt_vec_view(parent_subgraphs)),
        decreases field,
    {
        let ghost fv = field@;
        let ghost reqv = required_subgraphs@;
        let ghost parv = opt_vec_view(parent_subgraphs);
        let ghost jfs = fv.join_field;

        // this field's own subgraphs, unfiltered
        let mut field_subs: Vec<String> = Vec::new();
        let n = field.join_field.len();
        let mut i: usize = 0;
        proof {
            assert(field_subs.deep_view() =~= Seq::<Seq<char>>::empty());
            assert(jfs.skip(0) =~= jfs);
            assert(join_graphs(jfs) =~= field_subs.deep_view() + join_graphs(jfs.skip(0)));
        }
        while i < n
            invariant
                i <= n,
                n == field.join_field@.len(),
                jfs.len() == n,
                field@ == fv,
                join_graphs(jfs) == field_subs.deep_view() + join_graphs(jfs.skip(i as int)),
            decreases n - i,
        {
            proof {
                assert(jfs[i as int] == field.join_field@[i as int]@);
                assert(jfs.skip(i as int)[0] == jfs[i as int]);
                assert(jfs.skip(i as int).drop_first() =~= jfs.skip(i + 1));
            }
            match &field.join_field[i].graph {
                Some(g) => {
                    let ghost before = field_subs.deep_view();
                    field_subs.push(String::from_str(g.as_str()));
                    proof {
                        assert(field_subs.deep_view() =~= before.push(jfs[i as int].graph->0));
                        assert(field_subs.deep_view() + join_graphs(jfs.skip(i + 1)) =~= before
                            + (seq![jfs[i as int].graph->0] + join_graphs(jfs.skip(i + 1))));
                    }
                },
                None => {},
            }
            i = i + 1;
        }
        proof {
            assert(jfs.skip(n as int) =~= Seq::<JoinFieldV>::empty());
            assert(field_subs.deep_view() + join_graphs(jfs.skip(n as int)) =~= field_subs.deep_view());
        }
        let ghost fsubs = field_subs.deep_view();

        // whether the field shares a subgraph with its parent
        let mut is_common = false;
        match parent_subgraphs {
            Some(ps) => {
                let m = field_subs.len();
                let mut k: usize = 0;
                while k < m
                    invariant
                        k <= m,
                        m == fsubs.len(),
                        field_subs.deep_view() == fsubs,
                        !is_common,
                        forall|j: int| 0 <= j < k ==> !ps.deep_view().contains(#[trigger] fsubs[j]),
                    decreases m - k,
                {
                    if vec_contains(ps, field_subs[k].as_str()) {
                        proof {
                            assert(field_subs@[k as int]@ == fsubs[k as int]);
                            assert(ps.deep_view().contains(fsubs[k as int]));
                        }
                        is_common = true;
                        break;
                    }
                    k = k + 1;
                }
            },
            None => {},
        }
        proof {
            let model_common = parv matches Option::Some(psv) && seq_intersects(fsubs, psv);
            assert(is_common == model_common);
        }

        let Field {
            name,
            alias,
            selections,
            arguments,
            directives,
            is_hidden,
            graph,
            join_field,
            field_type,
            parent_type,
        } = field;

        // keep only the admitted metadata entries
        let ghost pred = |jf: JoinFieldV| keep_join_field(jf, reqv, parv, is_common);
        let mut kept: Vec<JoinField> = Vec::new();
        let mut rest_jf = join_field;
        proof {
            reveal(Seq::filter);
            assert(jfs.take(0) =~= Seq::<JoinFieldV>::empty());
            assert(kept@.map_values(|jf: JoinField| jf@) =~= jfs.take(0).filter(pred));
        }
        while rest_jf.len() > 0
            invariant
                rest_jf@.len() <= jfs.len(),
                forall|j: int|
                    0 <= j < rest_jf@.len() ==> (#[trigger] rest_jf@[j])@ == jfs[jfs.len()
                        - rest_jf@.len() + j],
                kept@.map_values(|jf: JoinField| jf@) == jfs.take(
                    jfs.len() - rest_jf@.len(),
                ).filter(pred),
            decreases rest_jf@.len(),
        {
            let ghost done = (jfs.len() - rest_jf@.len()) as int;
            proof {
                reveal(Seq::filter);
                assert(jfs.take(done + 1).drop_last() =~= jfs.take(done));
                assert(jfs.take(done + 1).last() == jfs[done]);
            }
            let jf = rest_jf.remove(0);
            proof {
                assert(jf@ == jfs[done]);
            }
            let keep = match &jf.graph {
                None => true,
                Some(g) => {
                    let in_required = required_subgraphs.contains(g.as_str());
                    let in_parent = if is_common {
                        match parent_subgraphs {
                            Some(ps) => vec_contains(ps, g.as_str()),
                            None => true,
                        }
                    } else {
                        true
                    };
                    in_required && in_parent
                },
            };
            proof {
                assert(keep == pred(jfs[done]));
            }
            if keep {
                let ghost before = kept@.map_values(|jf2: JoinField| jf2@);
                kept.push(jf);
                proof {
                    assert(kept@.map_values(|jf2: JoinField| jf2@) =~= before.push(jfs[done]));
                }
            }
        }
        proof {
            assert(jfs.take(jfs.len() as int) =~= jfs);
        }

        // prune the children against this field's own subgraphs
        let ghost cviews = fv.selections;
        let ghost svec = selections.0@;
        let mut rest_children = selections.0;
        let mut out_children: Vec<Field> = Vec::new();
        proof {
            lemma_fields_view(rest_children@);
            assert(svec.skip(0) =~= svec);
            assert(cviews.skip(0) =~= cviews);
            assert(fields_view(out_children@) =~= Seq::<FieldV>::empty());
            assert(prune_fields_v(cviews, reqv, fsubs) =~= fields_view(out_children@)
                + prune_fields_v(cviews.skip(0), reqv, fsubs));
        }
        while rest_children.len() > 0
            invariant
                rest_children@.len() <= cviews.len(),
                fields_view(out_children@).len() + rest_children@.len() == cviews.len(),
                fields_view(out_children@).len() == out_children@.len(),
                rest_children@ == svec.skip(svec.len() - rest_children@.len()),
                svec.len() == cviews.len(),
                forall|j: int|
                    0 <= j < rest_children@.len() ==> (#[trigger] rest_children@[j])@
                        == cviews[cviews.len() - rest_children@.len() + j],
                field_subs.deep_view() == fsubs,
                prune_fields_v(cviews, reqv, fsubs) == fields_view(out_children@)
                    + prune_fields_v(cviews.skip(cviews.len() - rest_children@.len()), reqv, fsubs),
            decreases rest_children@.len(),
        {
            let ghost done = (cviews.len() - rest_children@.len()) as int;
            proof {
                lemma_fields_view(rest_children@);
                assert(cviews.skip(done)[0] == cviews[done]);
                assert(cviews.skip(done).drop_first() =~= cviews.skip(done + 1));
            }
            let child = rest_children.remove(0);
            proof {
                assert(child == svec[done]);
                assert(child@ == cviews[done]);
                assert(rest_children@ =~= svec.skip(done + 1));
                lemma_fields_view(rest_children@);
            }
            let pruned = Pruner::prune_field(child, required_subgraphs, Some(&field_subs));
            let ghost before = fields_view(out_children@);
            let ghost oldvec = out_children@;
            out_children.push(pruned);
            proof {
                lemma_fields_view(oldvec);
                lemma_fields_view(out_children@);
                assert(fields_view(out_children@) =~= before.push(
                    prune_field_v(cviews[done], reqv, Option::Some(fsubs)),
                ));
                assert(fields_view(out_children@) + prune_fields_v(
                    cviews.skip(done + 1),
                    reqv,
                    fsubs,
                ) =~= before + (seq![prune_field_v(cviews[done], reqv, Option::Some(fsubs))]
                    + prune_fields_v(cviews.skip(done + 1), reqv, fsubs)));
            }
        }
        proof {
            assert(cviews.skip(cviews.len() as int) =~= Seq::<FieldV>::empty());
            assert(fields_view(out_children@) + prune_fields_v(
                cviews.skip(cviews.len() as int),
                reqv,
                fsubs,
            ) =~= fields_view(out_children@));
        }

        let r = Field {
            name,
            alias,
            selections: SelectionSet::new(out_children),
            arguments,
            directives,
            is_hidden,
            graph,
            join_field: kept,
            field_type,
            parent_type,
        };
        proof {
            assert(r@ =~= prune_field_v(fv, reqv, parv));
        }
        r
    }
}

impl Transform for Pruner {
    type Value = Field;

    type Error = String;

    open spec fn wf(&self) -> bool {
        true
    }

    open spec fn rel(
        &self,
        input: Field,
        output: Result<Field, Seq<CauseV<String>>>,
    ) -> bool {
        let subs = collect_subgraphs_v(Seq::<Seq<char>>::empty(), input@);
        let f2s = collect_fields_map(input@);
        match greedy_cover(subs, f2s, map_keys(f2s)) {
            Option::Some(picks) => output matches Result::Ok(r) && r@ == prune_field_v(
                input@,
                picks,
                Option::None,
            ),
            Option::None => output matches Result::Err(cs) && crate::valid::traced_causes(
                cs,
                seq!["Invalid Input: Failed to find a valid set cover"@],
                "pruner"@,
            ),
        }
    }

    fn transform(&self, input: Field) -> (r: Valid<Field, String>) {
        match Pruner::prune_root_field(input) {
            Ok(pruned) => Valid::succeed(pruned),
            Err(e) => {
                let ghost ev = e@;
                let traced = e.trace("pruner");
                proof {
                    assert(traced@[0] == crate::valid::cause_traced(ev[0], "pruner"@));
                    assert(traced@[0].trace =~= seq!["pruner"@]);
                }
                Valid::from_validation_err(traced)
            },
        }
    }
}


/// Every field name in the tree under `f`.
pub open spec fn tree_field_names(f: FieldV) -> Set<Seq<char>>
    decreases f,
{
    set![f.name].union(trees_field_names(f.selections))
}

/// Every field name in the trees of `s`.
pub open spec fn trees_field_names(s: Seq<FieldV>) -> Set<Seq<char>>
    decreases s,
{
    if s.len() == 0 {
        Set::<Seq<char>>::empty()
    } else {
        tree_field_names(s[0]).union(trees_field_names(s.drop_first()))
    }
}

/// The pruner removes metadata, never fields: every field name present in
/// the input tree is still present in the pruned tree, and no name
/// appears from nowhere.
pub proof fn lemma_pruner_preserves_fields(
    f: FieldV,
    required: Seq<Seq<char>>,
    parent: Option<Seq<Seq<char>>>,
)
    ensures
        tree_field_names(prune_field_v(f, required, parent)) == tree_field_names(f),
    decreases f,
{
    let fsubs = join_graphs(f.join_field);
    lemma_prune_fields_names(f.selections, required, fsubs);
    assert(tree_field_names(prune_field_v(f, required, parent)) =~= tree_field_names(f));
}

proof fn lemma_prune_fields_names(
    s: Seq<FieldV>,
    required: Seq<Seq<char>>,
    parent_subs: Seq<Seq<char>>,
)
    ensures
        trees_field_names(prune_fields_v(s, required, parent_subs)) == trees_field_names(s),
    decreases s,
{
    if s.len() > 0 {
        lemma_pruner_preserves_fields(s[0], required, Option::Some(parent_subs));
        lemma_prune_fields_names(s.drop_first(), required, parent_subs);
        let pruned = prune_fields_v(s, required, parent_subs);
        assert(pruned[0] == prune_field_v(s[0], required, Option::Some(parent_subs)));
        assert(pruned.drop_first() =~= prune_fields_v(s.drop_first(), required, parent_subs));
        assert(trees_field_names(pruned) =~= trees_field_names(s));
    }
}

/// Justification of one greedy pick: some field of `uncovered` is covered
/// by `picks[i]` and by no earlier pick.
pub open spec fn pick_justified(
    f2s: Seq<(Seq<char>, Seq<Seq<char>>)>,
    uncovered: Seq<Seq<char>>,
    picks: Seq<Seq<char>>,
    i: int,
) -> bool {
    exists|fname: Seq<char>|
        #![trigger covers(f2s, picks[i], fname)]
        {
            &&& uncovered.contains(fname)
            &&& covers(f2s, picks[i], fname)
            &&& forall|j: int| 0 <= j < i ==> !covers(f2s, picks[j], fname)
        }
}

/// The greedy cover wastes no pick: each picked subgraph covers, at its
/// turn, a field that none of the earlier picks covers, so no pick is
/// redundant under the greedy order.
pub proof fn lemma_greedy_cover_minimal(
    subgraphs: Seq<Seq<char>>,
    f2s: Seq<(Seq<char>, Seq<Seq<char>>)>,
    uncovered: Seq<Seq<char>>,
)
    ensures
        greedy_cover(subgraphs, f2s, uncovered) matches Option::Some(picks) ==> forall|i: int|
            0 <= i < picks.len() ==> #[trigger] pick_justified(f2s, uncovered, picks, i),
    decreases uncovered.len(),
{
    if uncovered.len() == 0 {
        return ;
    }
    if pick_best(subgraphs, uncovered, f2s, Option::None, 0) is Some {
        let g = pick_best(subgraphs, uncovered, f2s, Option::None, 0)->0;
        lemma_pick_best_positive(subgraphs, uncovered, f2s, Option::None, 0);
        lemma_count_pos_witness(g, uncovered, f2s);
        let pred = |fname: Seq<char>| !covers(f2s, g, fname);
        let wi = choose|wi: int|
            0 <= wi < uncovered.len() && covers(f2s, g, #[trigger] uncovered[wi]);
        lemma_filter_shrinks(uncovered, pred, wi);
        let remaining = uncovered.filter(pred);
        lemma_greedy_cover_minimal(subgraphs, f2s, remaining);
        if greedy_cover(subgraphs, f2s, remaining) is Some {
            let rest = greedy_cover(subgraphs, f2s, remaining)->0;
            let picks = seq![g] + rest;
            assert(greedy_cover(subgraphs, f2s, uncovered) == Option::Some(picks));
            assert forall|i: int| 0 <= i < picks.len() implies #[trigger] pick_justified(
                f2s,
                uncovered,
                picks,
                i,
            ) by {
                if i == 0 {
                    let fname = uncovered[wi];
                    assert(covers(f2s, picks[0], fname));
                    assert(pick_justified(f2s, uncovered, picks, 0));
                } else {
                    assert(pick_justified(f2s, remaining, rest, i - 1));
                    let fname = choose|fname: Seq<char>|
                        #![trigger covers(f2s, rest[i - 1], fname)]
                        {
                            &&& remaining.contains(fname)
                            &&& covers(f2s, rest[i - 1], fname)
                            &&& forall|j: int| 0 <= j < i - 1 ==> !covers(f2s, rest[j], fname)
                        };
                    let rk = choose|rk: int| 0 <= rk < remaining.len() && remaining[rk] == fname;
                    lemma_filter_member(uncovered, pred, rk);
                    uncovered.lemma_filter_pred(pred, rk);
                    assert(uncovered.contains(fname)) by {
                        let ui = choose|ui: int|
                            0 <= ui < uncovered.len() && uncovered[ui] == uncovered.filter(
                                pred,
                            )[rk];
                        assert(uncovered[ui] == fname);
                    }
                    assert(!covers(f2s, g, fname));
                    assert(picks[i] == rest[i - 1]);
                    assert(covers(f2s, picks[i], fname));
                    assert forall|j: int| 0 <= j < i implies !covers(f2s, picks[j], fname) by {
                        if j > 0 {
                            assert(picks[j] == rest[j - 1]);
                        }
                    }
                    assert(pick_justified(f2s, uncovered, picks, i));
                }
            }
        }
    }
}


/// What pruning one root field yields: the field pruned against its own
/// tree's greedy cover, or the set-cover failure.
pub open spec fn prune_root(f: FieldV) -> Result<FieldV, Seq<Seq<char>>> {
    let subs = collect_subgraphs_v(Seq::<Seq<char>>::empty(), f);
    let f2s = collect_fields_map(f);
    match greedy_cover(subs, f2s, map_keys(f2s)) {
        Option::Some(picks) => Result::Ok(prune_field_v(f, picks, Option::None)),
        Option::None => Result::Err(
            seq!["Invalid Input: Failed to find a valid set cover"@],
        ),
    }
}

/// Prunes each root field in order, accumulating every error.
pub open spec fn prune_roots(fields: Seq<FieldV>) -> Result<Seq<FieldV>, Seq<Seq<char>>>
    decreases fields.len(),
{
    if fields.len() == 0 {
        Result::Ok(Seq::<FieldV>::empty())
    } else {
        let head = prune_root(fields[0]);
        let tail = prune_roots(fields.drop_first());
        match head {
            Result::Ok(f) => match tail {
                Result::Ok(fs) => Result::Ok(seq![f] + fs),
                Result::Err(msgs) => Result::Err(msgs),
            },
            Result::Err(ms) => match tail {
                Result::Ok(_) => Result::Err(ms),
                Result::Err(msgs) => Result::Err(ms + msgs),
            },
        }
    }
}

/// What pruning a whole plan yields: the same plan shape with every
/// fetch's root fields pruned, or every set-cover failure found.
pub open spec fn prune_plan_v(p: crate::model::PlanV) -> Result<
    crate::model::PlanV,
    Seq<Seq<char>>,
>
    decreases p,
{
    match p {
        crate::model::PlanV::Fetch(fetch) => match prune_roots(fetch.selection_set) {
            Result::Ok(fields) => Result::Ok(
                crate::model::PlanV::Fetch(
                    crate::model::FetchV { selection_set: fields, ..fetch },
                ),
            ),
            Result::Err(msgs) => Result::Err(msgs),
        },
        crate::model::PlanV::Flatten { select, plan } => match prune_plan_v(*plan) {
            Result::Ok(q) => Result::Ok(
                crate::model::PlanV::Flatten { select, plan: Box::new(q) },
            ),
            Result::Err(msgs) => Result::Err(msgs),
        },
        crate::model::PlanV::Parallel(items) => match prune_plans(items) {
            Result::Ok(its) => Result::Ok(crate::model::PlanV::Parallel(its)),
            Result::Err(msgs) => Result::Err(msgs),
        },
        crate::model::PlanV::Sequence(items) => match prune_plans(items) {
            Result::Ok(its) => Result::Ok(crate::model::PlanV::Sequence(its)),
            Result::Err(msgs) => Result::Err(msgs),
        },
    }
}

/// Prunes each sub-plan in order, accumulating every error.
pub open spec fn prune_plans(items: Seq<crate::model::PlanV>) -> Result<
    Seq<crate::model::PlanV>,
    Seq<Seq<char>>,
>
    decreases items,
{
    if items.len() == 0 {
        Result::Ok(Seq::<crate::model::PlanV>::empty())
    } else {
        let head = prune_plan_v(items[0]);
        let tail = prune_plans(items.drop_first());
        match head {
            Result::Ok(q) => match tail {
                Result::Ok(qs) => Result::Ok(seq![q] + qs),
                Result::Err(msgs) => Result::Err(msgs),
            },
            Result::Err(ms) => match tail {
                Result::Ok(_) => Result::Err(ms),
                Result::Err(msgs) => Result::Err(ms + msgs),
            },
        }
    }
}

proof fn lemma_prune_roots_push(fields: Seq<FieldV>, x: FieldV)
    ensures
        prune_roots(fields.push(x)) == (match (prune_roots(fields), prune_root(x)) {
            (Result::Ok(fs), Result::Ok(f)) => Result::<Seq<FieldV>, Seq<Seq<char>>>::Ok(
                fs.push(f),
            ),
            (Result::Ok(_), Result::Err(ms)) => Result::Err(ms),
            (Result::Err(msgs), Result::Ok(_)) => Result::Err(msgs),
            (Result::Err(msgs), Result::Err(ms)) => Result::Err(msgs + ms),
        }),
    decreases fields.len(),
{
    if fields.len() == 0 {
        assert(fields.push(x).drop_first() =~= fields);
        match (prune_roots(fields), prune_root(x)) {
            (Result::Ok(fs), Result::Ok(f)) => {
                assert(seq![f] + fs =~= fs.push(f));
            },
            (Result::Err(msgs), Result::Err(ms)) => {
                assert(msgs + ms =~= ms);
            },
            _ => {},
        }
    } else {
        assert(fields.push(x).drop_first() =~= fields.drop_first().push(x));
        lemma_prune_roots_push(fields.drop_first(), x);
        assert(fields.push(x)[0] == fields[0]);
        match (prune_roots(fields), prune_root(x)) {
            (Result::Ok(fs), Result::Ok(f)) => {
                assert(prune_roots(fields.push(x)) matches Result::Ok(r) && r =~= fs.push(f));
            },
            (Result::Err(msgs), Result::Err(ms)) => {
                assert(prune_roots(fields.push(x)) matches Result::Err(r) && r =~= msgs + ms);
            },
            _ => {},
        }
    }
}

proof fn lemma_prune_plans_push(items: Seq<crate::model::PlanV>, x: crate::model::PlanV)
    ensures
        prune_plans(items.push(x)) == (match (prune_plans(items), prune_plan_v(x)) {
            (Result::Ok(qs), Result::Ok(q)) => Result::<
                Seq<crate::model::PlanV>,
                Seq<Seq<char>>,
            >::Ok(qs.push(q)),
            (Result::Ok(_), Result::Err(ms)) => Result::Err(ms),
            (Result::Err(msgs), Result::Ok(_)) => Result::Err(msgs),
            (Result::Err(msgs), Result::Err(ms)) => Result::Err(msgs + ms),
        }),
    decreases items.len(),
{
    if items.len() == 0 {
        assert(items.push(x).drop_first() =~= items);
        match (prune_plans(items), prune_plan_v(x)) {
            (Result::Ok(qs), Result::Ok(q)) => {
                assert(seq![q] + qs =~= qs.push(q));
            },
            (Result::Err(msgs), Result::Err(ms)) => {
                assert(msgs + ms =~= ms);
            },
            _ => {},
        }
    } else {
        assert(items.push(x).drop_first() =~= items.drop_first().push(x));
        lemma_prune_plans_push(items.drop_first(), x);
        assert(items.push(x)[0] == items[0]);
        match (prune_plans(items), prune_plan_v(x)) {
            (Result::Ok(qs), Result::Ok(q)) => {
                assert(prune_plans(items.push(x)) matches Result::Ok(r) && r =~= qs.push(q));
            },
            (Result::Err(msgs), Result::Err(ms)) => {
                assert(prune_plans(items.push(x)) matches Result::Err(r) && r =~= msgs + ms);
            },
            _ => {},
        }
    }
}

impl Pruner {
    /// Prunes one root field against its own tree's greedy cover.
    pub fn prune_root_field(field: Field) -> (r: Result<Field, ValidationError<String>>)
        ensures
            match prune_root(field@) {
                Result::Ok(fv) => r matches Ok(f) && f@ == fv,
                Result::Err(msgs) => r matches Err(e) && crate::valid::message_causes(e@, msgs),
            },
    {
        let mut subs = NameSet::new();
        proof {
            assert(subs@ =~= Seq::<Seq<char>>::empty());
        }
        Pruner::collect_subgraph(&field, &mut subs);
        let f2s = Pruner::collect_fields(&field);
        match Pruner::minimum_set_cover(subs, f2s).to_result() {
            Ok(required) => Ok(Pruner::prune_field(field, &required, None)),
            Err(e) => Err(e),
        }
    }

    /// Prunes every root field of every fetch in the plan, accumulating
    /// every set-cover failure.
    #[verifier::loop_isolation(false)]
    pub fn prune_plan(plan: QueryPlan) -> (r: Result<QueryPlan, ValidationError<String>>)
        ensures
            match prune_plan_v(plan@) {
                Result::Ok(pv) => r matches Ok(p) && p@ == pv,
                Result::Err(msgs) => r matches Err(e) && crate::valid::message_causes(e@, msgs),
            },
        decreases plan,
    {
        match plan {
            QueryPlan::Fetch(fetch) => {
                let ghost fetchv = fetch@;
                let crate::model::Fetch {
                    name,
                    arguments,
                    variables,
                    directives,
                    selection_set,
                    representations,
                    type_of,
                    service,
                } = fetch;
                proof {
                    lemma_fields_view(selection_set.0@);
                }
                match Pruner::prune_fields(selection_set.0) {
                    Ok(fields) => {
                        let r = QueryPlan::Fetch(
                            crate::model::Fetch {
                                name,
                                arguments,
                                variables,
                                directives,
                                selection_set: SelectionSet(fields),
                                representations,
                                type_of,
                                service,
                            },
                        );
                        proof {
                            assert(r@ =~= prune_plan_v(
                                crate::model::PlanV::Fetch(fetchv),
                            )->Ok_0);
                        }
                        Ok(r)
                    },
                    Err(e) => Err(e),
                }
            },
            QueryPlan::Flatten { select, plan } => {
                match Pruner::prune_plan(*plan) {
                    Ok(q) => Ok(QueryPlan::Flatten { select, plan: Box::new(q) }),
                    Err(e) => Err(e),
                }
            },
            QueryPlan::Parallel(items) => {
                match Pruner::prune_children(items) {
                    Ok(out) => Ok(QueryPlan::Parallel(out)),
                    Err(e) => Err(e),
                }
            },
            QueryPlan::Sequence(items) => {
                match Pruner::prune_children(items) {
                    Ok(out) => Ok(QueryPlan::Sequence(out)),
                    Err(e) => Err(e),
                }
            },
        }
    }

    /// Prunes each root field in order, accumulating every failure.
    #[verifier::loop_isolation(false)]
    fn prune_fields(fields: Vec<Field>) -> (r: Result<Vec<Field>, ValidationError<String>>)
        ensures
            match prune_roots(fields_view(fields@)) {
                Result::Ok(fvs) => r matches Ok(out) && fields_view(out@) == fvs,
                Result::Err(msgs) => r matches Err(e) && crate::valid::message_causes(e@, msgs),
            },
    {
        let ghost items0 = fields@;
        let ghost orig = fields_view(fields@);
        proof {
            lemma_fields_view(fields@);
        }
        let mut rest = fields;
        let mut out: Vec<Field> = Vec::new();
        let mut errs: ValidationError<String> = ValidationError::empty();
        let mut failed = false;
        proof {
            assert(orig.take(0) =~= Seq::<FieldV>::empty());
            assert(fields_view(out@) =~= Seq::<FieldV>::empty());
            assert(errs@ =~= Seq::<crate::valid::CauseV<String>>::empty());
        }
        while rest.len() > 0
            invariant
                rest@.len() <= items0.len(),
                orig == fields_view(items0),
                orig.len() == items0.len(),
                rest@ == items0.skip(items0.len() - rest@.len()),
                out@.len() == fields_view(out@).len(),
                !failed ==> out@.len() == orig.len() - rest@.len(),
                !failed ==> errs@ == Seq::<crate::valid::CauseV<String>>::empty(),
                !failed ==> prune_roots(orig.take(orig.len() - rest@.len())) == Result::<
                    Seq<FieldV>,
                    Seq<Seq<char>>,
                >::Ok(fields_view(out@)),
                failed ==> (prune_roots(orig.take(orig.len() - rest@.len()))
                    matches Result::Err(msgs) && crate::valid::message_causes(errs@, msgs)),
            decreases rest@.len(),
        {
            let ghost processed = (items0.len() - rest@.len()) as int;
            proof {
                lemma_fields_view(items0);
                lemma_fields_view(out@);
                assert(rest@[0] == items0[processed]);
                assert(orig.take(processed).push(orig[processed]) =~= orig.take(processed + 1));
                lemma_prune_roots_push(orig.take(processed), orig[processed]);
            }
            let x = rest.remove(0);
            proof {
                assert(x == items0[processed]);
                assert(x@ == orig[processed]);
            }
            let ghost old_errs = errs@;
            match Pruner::prune_root_field(x) {
                Ok(f) => {
                    if !failed {
                        let ghost outv = fields_view(out@);
                        let ghost oldvec = out@;
                        out.push(f);
                        proof {
                            lemma_fields_view(oldvec);
                            lemma_fields_view(out@);
                            assert(fields_view(out@) =~= outv.push(
                                out@[oldvec.len() as int]@,
                            ));
                        }
                    }
                },
                Err(e) => {
                    let ghost ev = e@;
                    let was_failed = failed;
                    failed = true;
                    errs = errs.combine(e);
                    proof {
                        if !was_failed {
                            assert(errs@ =~= ev);
                        }
                    }
                },
            }
            proof {
                assert(rest@ =~= items0.skip(items0.len() - rest@.len()));
                lemma_fields_view(out@);
                if failed {
                    let msgs = prune_roots(orig.take(processed + 1))->Err_0;
                    assert forall|i: int|
                        0 <= i < errs@.len() implies (#[trigger] errs@[i]).trace.len() == 0
                            && errs@[i].message@ == msgs[i] by {
                        if i < old_errs.len() {
                            assert(errs@[i] == old_errs[i]);
                        }
                    }
                }
            }
        }
        proof {
            assert(orig.take(orig.len() as int) =~= orig);
            assert(items0.skip(0) =~= items0);
        }
        if failed {
            Err(errs)
        } else {
            Ok(out)
        }
    }

    /// Prunes each sub-plan in order, accumulating every failure.
    #[verifier::loop_isolation(false)]
    fn prune_children(items: Vec<QueryPlan>) -> (r: Result<
        Vec<QueryPlan>,
        ValidationError<String>,
    >)
        ensures
            match prune_plans(crate::model::plans_view(items@)) {
                Result::Ok(qs) => r matches Ok(out) && crate::model::plans_view(out@) == qs,
                Result::Err(msgs) => r matches Err(e) && crate::valid::message_causes(e@, msgs),
            },
        decreases items@,
    {
        let ghost items0 = items@;
        let ghost orig = crate::model::plans_view(items@);
        proof {
            crate::model::lemma_plans_view(items@);
        }
        let mut rest = items;
        let mut out: Vec<QueryPlan> = Vec::new();
        let mut errs: ValidationError<String> = ValidationError::empty();
        let mut failed = false;
        proof {
            assert(orig.take(0) =~= Seq::<crate::model::PlanV>::empty());
            assert(crate::model::plans_view(out@) =~= Seq::<crate::model::PlanV>::empty());
            assert(errs@ =~= Seq::<crate::valid::CauseV<String>>::empty());
        }
        while rest.len() > 0
            invariant
                rest@.len() <= items0.len(),
                orig == crate::model::plans_view(items0),
                orig.len() == items0.len(),
                rest@ == items0.skip(items0.len() - rest@.len()),
                out@.len() == crate::model::plans_view(out@).len(),
                !failed ==> out@.len() == orig.len() - rest@.len(),
                !failed ==> errs@ == Seq::<crate::valid::CauseV<String>>::empty(),
                !failed ==> prune_plans(orig.take(orig.len() - rest@.len())) == Result::<
                    Seq<crate::model::PlanV>,
                    Seq<Seq<char>>,
                >::Ok(crate::model::plans_view(out@)),
                failed ==> (prune_plans(orig.take(orig.len() - rest@.len()))
                    matches Result::Err(msgs) && crate::valid::message_causes(errs@, msgs)),
            decreases rest@.len(),
        {
            let ghost processed = (items0.len() - rest@.len()) as int;
            proof {
                crate::model::lemma_plans_view(items0);
                crate::model::lemma_plans_view(out@);
                assert(rest@[0] == items0[processed]);
                assert(orig.take(processed).push(orig[processed]) =~= orig.take(processed + 1));
                lemma_prune_plans_push(orig.take(processed), orig[processed]);
            }
            let x = rest.remove(0);
            proof {
                assert(x == items0[processed]);
                assert(x@ == orig[processed]);
                assert(decreases_to!(items0 => x));
            }
            let ghost old_errs = errs@;
            match Pruner::prune_plan(x) {
                Ok(q) => {
                    if !failed {
                        let ghost outv = crate::model::plans_view(out@);
                        out.push(q);
                        proof {
                            crate::model::lemma_plans_view(out@);
                            assert(crate::model::plans_view(out@) =~= outv.push(q@));
                        }
                    }
                },
                Err(e) => {
                    let ghost ev = e@;
                    let was_failed = failed;
                    failed = true;
                    errs = errs.combine(e);
                    proof {
                        if !was_failed {
                            assert(errs@ =~= ev);
                        }
                    }
                },
            }
            proof {
                assert(rest@ =~= items0.skip(items0.len() - rest@.len()));
                if failed {
                    let msgs = prune_plans(orig.take(processed + 1))->Err_0;
                    assert forall|i: int|
                        0 <= i < errs@.len() implies (#[trigger] errs@[i]).trace.len() == 0
                            && errs@[i].message@ == msgs[i] by {
                        if i < old_errs.len() {
                            assert(errs@[i] == old_errs[i]);
                        }
                    }
                }
            }
        }
        proof {
            assert(orig.take(orig.len() as int) =~= orig);
            assert(items0.skip(0) =~= items0);
        }
        if failed {
            Err(errs)
        } else {
            Ok(out)
        }
    }
}

} // verus!
