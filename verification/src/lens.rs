//! A composable JSON path.
//!
//! A [`Lens`] designates a location inside a JSON value and supports both a
//! total [`Lens::get`] and a total [`Lens::set`]; the query plan's flatten
//! node uses one to scope a sub-plan to the place its output merges into.

use vstd::prelude::*;

use crate::json::Json;
use crate::json::JsonV;
use crate::json::entries_view;
use crate::json::jsons_view;
use crate::json::lemma_entries_view;
use crate::json::lemma_jsons_view;
use crate::json::obj_get;

verus! {

/// A JSON path: a key step, an index step, a composition, a map over every
/// element, or the empty path.
pub enum Lens {
    Field(String),
    Index(usize),
    Combine(Box<Lens>, Box<Lens>),
    ForEach(Box<Lens>),
    Empty,
}

/// The mathematical content of a [`Lens`].
#[verifier::ext_equal]
pub enum LensV {
    Field(Seq<char>),
    Index(int),
    Combine(Box<LensV>, Box<LensV>),
    ForEach(Box<LensV>),
    Empty,
}

impl View for Lens {
    type V = LensV;

    open spec fn view(&self) -> LensV
        decreases self,
    {
        match self {
            Lens::Field(key) => LensV::Field(key@),
            Lens::Index(i) => LensV::Index(*i as int),
            Lens::Combine(a, b) => LensV::Combine(Box::new((&**a)@), Box::new((&**b)@)),
            Lens::ForEach(l) => LensV::ForEach(Box::new((&**l)@)),
            Lens::Empty => LensV::Empty,
        }
    }
}

/// What [`Lens::get`] reads at the path `l` in `v`: a missing key, an index
/// out of range or a step into the wrong shape of value reads null.
pub open spec fn lens_get(l: LensV, v: JsonV) -> JsonV
    decreases l,
{
    match l {
        LensV::Field(key) => match v {
            JsonV::Obj(entries) => match obj_get(entries, key) {
                Option::Some(x) => x,
                Option::None => JsonV::Null,
            },
            _ => JsonV::Null,
        },
        LensV::Index(i) => match v {
            JsonV::Arr(items) => if 0 <= i < items.len() {
                items[i]
            } else {
                JsonV::Null
            },
            _ => JsonV::Null,
        },
        LensV::Combine(a, b) => lens_get(*b, lens_get(*a, v)),
        LensV::ForEach(inner) => match v {
            JsonV::Arr(items) => JsonV::Arr(
                Seq::new(items.len(), |i: int| lens_get(*inner, items[i])),
            ),
            JsonV::Obj(entries) => JsonV::Obj(
                Seq::new(entries.len(), |i: int| (entries[i].0, lens_get(*inner, entries[i].1))),
            ),
            _ => JsonV::Null,
        },
        LensV::Empty => JsonV::Null,
    }
}

/// `entries` with the first entry keyed `key` replaced by `(key, w)`, or
/// with `(key, w)` appended when no entry has that key.
pub open spec fn obj_set(
    entries: Seq<(Seq<char>, JsonV)>,
    key: Seq<char>,
    w: JsonV,
) -> Seq<(Seq<char>, JsonV)>
    decreases entries.len(),
{
    if entries.len() == 0 {
        seq![(key, w)]
    } else if entries[0].0 == key {
        seq![(key, w)] + entries.drop_first()
    } else {
        seq![entries[0]] + obj_set(entries.drop_first(), key, w)
    }
}

/// `items` with position `i` set to `w`, padded with nulls when `i` lies
/// beyond the end.
pub open spec fn arr_set(items: Seq<JsonV>, i: int, w: JsonV) -> Seq<JsonV> {
    if i < items.len() {
        items.update(i, w)
    } else {
        items + Seq::new((i - items.len()) as nat, |j: int| JsonV::Null) + seq![w]
    }
}

/// What [`Lens::set`] writes: `w` placed at the path `l` in `v`, building
/// the missing structure when `v` has the wrong shape along the way.
pub open spec fn lens_set(l: LensV, v: JsonV, w: JsonV) -> JsonV
    decreases l,
{
    match l {
        LensV::Field(key) => match v {
            JsonV::Obj(entries) => JsonV::Obj(obj_set(entries, key, w)),
            _ => JsonV::Obj(seq![(key, w)]),
        },
        LensV::Index(i) => match v {
            JsonV::Arr(items) => JsonV::Arr(arr_set(items, i, w)),
            _ => JsonV::Arr(seq![w]),
        },
        LensV::Combine(a, b) => lens_set(*a, v, lens_set(*b, lens_get(*a, v), w)),
        LensV::ForEach(inner) => match v {
            JsonV::Arr(items) => JsonV::Arr(
                Seq::new(items.len(), |i: int| lens_set(*inner, items[i], w)),
            ),
            JsonV::Obj(entries) => JsonV::Obj(
                Seq::new(
                    entries.len(),
                    |i: int| (entries[i].0, lens_set(*inner, entries[i].1, w)),
                ),
            ),
            _ => w,
        },
        LensV::Empty => w,
    }
}

impl Lens {
    /// Reads the value at this path in `value`; total, reading null where
    /// the path does not fit the value.
    #[verifier::loop_isolation(false)]
    pub fn get(&self, value: Json) -> (r: Json)
        ensures
            r@ == lens_get(self@, value@),
        decreases self,
    {
        let ghost vv = value@;
        match self {
            Lens::Field(key) => match value {
                Json::Obj(entries) => {
                    let ghost ev = entries_view(entries@);
                    let mut rest = entries;
                    loop
                        invariant
                            obj_get(entries_view(rest@), key@) == obj_get(ev, key@),
                        decreases rest@.len(),
                    {
                        if rest.len() == 0 {
                            proof {
                                assert(entries_view(rest@) =~= Seq::<(Seq<char>, JsonV)>::empty());
                            }
                            return Json::Null;
                        }
                        let ghost before = rest@;
                        let (k, v) = rest.remove(0);
                        proof {
                            lemma_entries_view(before);
                            lemma_entries_view(rest@);
                            assert(rest@ =~= before.drop_first());
                            assert(entries_view(rest@) =~= entries_view(before).drop_first());
                        }
                        if k == *key {
                            proof {
                                assert(obj_get(entries_view(before), key@) == Option::Some(v@));
                            }
                            return v;
                        }
                    }
                },
                _ => Json::Null,
            },
            Lens::Index(i) => match value {
                Json::Arr(mut items) => {
                    proof {
                        lemma_jsons_view(items@);
                    }
                    if *i < items.len() {
                        items.remove(*i)
                    } else {
                        Json::Null
                    }
                },
                _ => Json::Null,
            },
            Lens::Combine(a, b) => {
                let inner = a.get(value);
                b.get(inner)
            },
            Lens::ForEach(inner) => match value {
                Json::Arr(items) => {
                    let ghost orig = items@;
                    proof {
                        lemma_jsons_view(orig);
                    }
                    let mut rest = items;
                    let mut out: Vec<Json> = Vec::new();
                    while rest.len() > 0
                        invariant
                            out@.len() + rest@.len() == orig.len(),
                            rest@ == orig.skip(out@.len() as int),
                            forall|j: int|
                                0 <= j < out@.len() ==> (#[trigger] out@[j])@ == lens_get(
                                    inner@,
                                    orig[j]@,
                                ),
                        decreases rest@.len(),
                    {
                        let x = rest.remove(0);
                        proof {
                            assert(x == orig[out@.len() as int]);
                        }
                        out.push(inner.get(x));
                    }
                    let r = Json::Arr(out);
                    proof {
                        lemma_jsons_view(out@);
                        assert(jsons_view(out@) =~= Seq::new(
                            orig.len(),
                            |i: int| lens_get(inner@, jsons_view(orig)[i]),
                        ));
                        assert(lens_get(self@, vv) is Arr);
                        assert(lens_get(self@, vv)->Arr_0.len() == orig.len());
                        assert forall|i: int| 0 <= i < orig.len() implies lens_get(
                            self@,
                            vv,
                        )->Arr_0[i] == jsons_view(out@)[i] by {
                            assert(lens_get(self@, vv)->Arr_0[i] == lens_get(
                                inner@,
                                jsons_view(orig)[i],
                            ));
                        }
                        assert(lens_get(self@, vv)->Arr_0 =~= jsons_view(out@));
                        assert(r@ == lens_get(self@, vv));
                    }
                    r
                },
                Json::Obj(entries) => {
                    let ghost orig = entries@;
                    proof {
                        lemma_entries_view(orig);
                    }
                    let mut rest = entries;
                    let mut out: Vec<(String, Json)> = Vec::new();
                    while rest.len() > 0
                        invariant
                            out@.len() + rest@.len() == orig.len(),
                            rest@ == orig.skip(out@.len() as int),
                            forall|j: int|
                                0 <= j < out@.len() ==> (#[trigger] out@[j]).0@ == orig[j].0@
                                    && out@[j].1@ == lens_get(inner@, orig[j].1@),
                        decreases rest@.len(),
                    {
                        let (k, x) = rest.remove(0);
                        proof {
                            assert((k, x) == orig[out@.len() as int]);
                        }
                        let y = inner.get(x);
                        out.push((k, y));
                    }
                    let r = Json::Obj(out);
                    proof {
                        lemma_entries_view(out@);
                        assert(entries_view(out@) =~= Seq::new(
                            orig.len(),
                            |i: int| (
                                entries_view(orig)[i].0,
                                lens_get(inner@, entries_view(orig)[i].1),
                            ),
                        ));
                        assert(lens_get(self@, vv) is Obj);
                        assert(lens_get(self@, vv)->Obj_0.len() == orig.len());
                        assert forall|i: int| 0 <= i < orig.len() implies lens_get(
                            self@,
                            vv,
                        )->Obj_0[i] == entries_view(out@)[i] by {
                            assert(lens_get(self@, vv)->Obj_0[i] == (
                                entries_view(orig)[i].0,
                                lens_get(inner@, entries_view(orig)[i].1),
                            ));
                        }
                        assert(lens_get(self@, vv)->Obj_0 =~= entries_view(out@));
                        assert(r@ == lens_get(self@, vv));
                    }
                    r
                },
                _ => Json::Null,
            },
            Lens::Empty => Json::Null,
        }
    }

    /// Writes `other_value` at this path in `value`; total, building the
    /// missing structure where the path does not fit the value.
    #[verifier::loop_isolation(false)]
    pub fn set(&self, value: Json, other_value: Json) -> (r: Json)
        ensures
            r@ == lens_set(self@, value@, other_value@),
        decreases self,
    {
        let ghost vv = value@;
        let ghost wv = other_value@;
        match self {
            Lens::Field(key) => match value {
                Json::Obj(mut entries) => {
                    let ghost ev = entries_view(entries@);
                    proof {
                        lemma_entries_view(entries@);
                        assert(ev.skip(0) =~= ev);
                        assert(ev.take(0) + obj_set(ev, key@, wv) =~= obj_set(ev, key@, wv));
                    }
                    let n = entries.len();
                    let mut i: usize = 0;
                    while i < n
                        invariant
                            i <= n,
                            n == entries@.len(),
                            ev == entries_view(entries@),
                            forall|j: int| 0 <= j < i ==> (#[trigger] entries@[j]).0@ != key@,
                            obj_set(ev, key@, wv) == ev.take(i as int) + obj_set(
                                ev.skip(i as int),
                                key@,
                                wv,
                            ),
                        decreases n - i,
                    {
                        if entries[i].0 == *key {
                            proof {
                                lemma_entries_view(entries@);
                                assert(ev[i as int] == (entries@[i as int].0@, entries@[i as int].1@));
                                assert(ev[i as int].0 == key@);
                                assert(ev.skip(i as int)[0] == ev[i as int]);
                                assert(obj_set(ev.skip(i as int), key@, wv) == seq![
                                    (key@, wv),
                                ] + ev.skip(i as int).drop_first());
                            }
                            let owned_key = key.clone();
                            entries[i] = (owned_key, other_value);
                            let r = Json::Obj(entries);
                            proof {
                                lemma_entries_view(entries@);
                                assert(entries_view(entries@) =~= ev.take(i as int) + (seq![
                                    (key@, wv),
                                ] + ev.skip(i as int).drop_first()));
                            }
                            return r;
                        }
                        proof {
                            lemma_entries_view(entries@);
                            assert(ev[i as int] == (entries@[i as int].0@, entries@[i as int].1@));
                            assert(ev.skip(i as int)[0] == ev[i as int]);
                            assert(ev.skip(i as int).drop_first() =~= ev.skip(i + 1));
                            assert(ev.take(i as int).push(ev[i as int]) =~= ev.take(i + 1));
                            assert(ev.take(i as int) + (seq![ev[i as int]] + obj_set(
                                ev.skip(i + 1),
                                key@,
                                wv,
                            )) =~= ev.take(i + 1) + obj_set(ev.skip(i + 1), key@, wv));
                        }
                        i = i + 1;
                    }
                    proof {
                        assert(ev.skip(n as int) =~= Seq::<(Seq<char>, JsonV)>::empty());
                        lemma_entries_view(entries@);
                    }
                    let owned_key = key.clone();
                    entries.push((owned_key, other_value));
                    let r = Json::Obj(entries);
                    proof {
                        lemma_entries_view(entries@);
                        assert(entries_view(entries@) =~= ev.take(n as int) + seq![(key@, wv)]);
                    }
                    r
                },
                _ => {
                    let owned_key = key.clone();
                    let mut entries: Vec<(String, Json)> = Vec::new();
                    entries.push((owned_key, other_value));
                    let r = Json::Obj(entries);
                    proof {
                        lemma_entries_view(entries@);
                        assert(entries_view(entries@) =~= seq![(key@, wv)]);
                    }
                    r
                },
            },
            Lens::Index(idx) => match value {
                Json::Arr(mut items) => {
                    let ghost orig = jsons_view(items@);
                    proof {
                        lemma_jsons_view(items@);
                    }
                    if *idx < items.len() {
                        items[*idx] = other_value;
                        let r = Json::Arr(items);
                        proof {
                            lemma_jsons_view(items@);
                            assert(jsons_view(items@) =~= orig.update(*idx as int, wv));
                        }
                        r
                    } else {
                        while items.len() < *idx
                            invariant
                                orig.len() <= items@.len() <= *idx,
                                jsons_view(items@) =~= orig + Seq::new(
                                    (items@.len() - orig.len()) as nat,
                                    |j: int| JsonV::Null,
                                ),
                            decreases *idx - items.len(),
                        {
                            let ghost before = items@;
                            items.push(Json::Null);
                            proof {
                                lemma_jsons_view(before);
                                lemma_jsons_view(items@);
                                assert(jsons_view(items@) =~= orig + Seq::new(
                                    (items@.len() - orig.len()) as nat,
                                    |j: int| JsonV::Null,
                                ));
                            }
                        }
                        let ghost padded = items@;
                        items.push(other_value);
                        let r = Json::Arr(items);
                        proof {
                            lemma_jsons_view(padded);
                            lemma_jsons_view(items@);
                            assert(jsons_view(items@) =~= jsons_view(padded).push(wv));
                            assert(jsons_view(items@) =~= arr_set(orig, *idx as int, wv));
                        }
                        r
                    }
                },
                _ => {
                    let mut items: Vec<Json> = Vec::new();
                    items.push(other_value);
                    let r = Json::Arr(items);
                    proof {
                        lemma_jsons_view(items@);
                        assert(jsons_view(items@) =~= seq![wv]);
                    }
                    r
                },
            },
            Lens::Combine(a, b) => {
                let intermediate = a.get(value.duplicate());
                let second_value = b.set(intermediate, other_value);
                a.set(value, second_value)
            },
            Lens::ForEach(inner) => match value {
                Json::Arr(items) => {
                    let ghost orig = items@;
                    proof {
                        lemma_jsons_view(orig);
                    }
                    let mut rest = items;
                    let mut out: Vec<Json> = Vec::new();
                    while rest.len() > 0
                        invariant
                            out@.len() + rest@.len() == orig.len(),
                            rest@ == orig.skip(out@.len() as int),
                            forall|j: int|
                                0 <= j < out@.len() ==> (#[trigger] out@[j])@ == lens_set(
                                    inner@,
                                    orig[j]@,
                                    wv,
                                ),
                        decreases rest@.len(),
                    {
                        let x = rest.remove(0);
                        proof {
                            assert(x == orig[out@.len() as int]);
                        }
                        out.push(inner.set(x, other_value.duplicate()));
                    }
                    let r = Json::Arr(out);
                    proof {
                        lemma_jsons_view(out@);
                        assert(lens_set(self@, vv, wv) is Arr);
                        assert(lens_set(self@, vv, wv)->Arr_0.len() == orig.len());
                        assert forall|i: int| 0 <= i < orig.len() implies lens_set(
                            self@,
                            vv,
                            wv,
                        )->Arr_0[i] == jsons_view(out@)[i] by {
                            assert(lens_set(self@, vv, wv)->Arr_0[i] == lens_set(
                                inner@,
                                jsons_view(orig)[i],
                                wv,
                            ));
                        }
                        assert(lens_set(self@, vv, wv)->Arr_0 =~= jsons_view(out@));
                        assert(r@ == lens_set(self@, vv, wv));
                    }
                    r
                },
                Json::Obj(entries) => {
                    let ghost orig = entries@;
                    proof {
                        lemma_entries_view(orig);
                    }
                    let mut rest = entries;
                    let mut out: Vec<(String, Json)> = Vec::new();
                    while rest.len() > 0
                        invariant
                            out@.len() + rest@.len() == orig.len(),
                            rest@ == orig.skip(out@.len() as int),
                            forall|j: int|
                                0 <= j < out@.len() ==> (#[trigger] out@[j]).0@ == orig[j].0@
                                    && out@[j].1@ == lens_set(inner@, orig[j].1@, wv),
                        decreases rest@.len(),
                    {
                        let (k, x) = rest.remove(0);
                        proof {
                            assert((k, x) == orig[out@.len() as int]);
                        }
                        let y = inner.set(x, other_value.duplicate());
                        out.push((k, y));
                    }
                    let r = Json::Obj(out);
                    proof {
                        lemma_entries_view(out@);
                        assert(lens_set(self@, vv, wv) is Obj);
                        assert(lens_set(self@, vv, wv)->Obj_0.len() == orig.len());
                        assert forall|i: int| 0 <= i < orig.len() implies lens_set(
                            self@,
                            vv,
                            wv,
                        )->Obj_0[i] == entries_view(out@)[i] by {
                            assert(lens_set(self@, vv, wv)->Obj_0[i] == (
                                entries_view(orig)[i].0,
                                lens_set(inner@, entries_view(orig)[i].1, wv),
                            ));
                        }
                        assert(lens_set(self@, vv, wv)->Obj_0 =~= entries_view(out@));
                        assert(r@ == lens_set(self@, vv, wv));
                    }
                    r
                },
                _ => other_value,
            },
            Lens::Empty => other_value,
        }
    }
}
/// A lens made only of key steps, index steps and compositions of them: the
/// paths that designate one location.
pub open spec fn is_path_lens(l: LensV) -> bool
    decreases l,
{
    match l {
        LensV::Field(_) => true,
        LensV::Index(_) => true,
        LensV::Combine(a, b) => is_path_lens(*a) && is_path_lens(*b),
        _ => false,
    }
}

/// A path lens whose every index step meets `v` as an array or is index
/// zero; setting through such a step then reaches exactly the written slot.
pub open spec fn sets_cleanly(l: LensV, v: JsonV) -> bool
    decreases l,
{
    match l {
        LensV::Field(_) => true,
        LensV::Index(i) => 0 <= i && (v is Arr || i == 0),
        LensV::Combine(a, b) => sets_cleanly(*a, v) && sets_cleanly(*b, lens_get(*a, v)),
        _ => false,
    }
}

proof fn lemma_obj_get_set(es: Seq<(Seq<char>, JsonV)>, key: Seq<char>, w: JsonV)
    ensures
        obj_get(obj_set(es, key, w), key) == Option::Some(w),
    decreases es.len(),
{
    if es.len() > 0 && es[0].0 != key {
        lemma_obj_get_set(es.drop_first(), key, w);
        assert((seq![es[0]] + obj_set(es.drop_first(), key, w)).drop_first() =~= obj_set(
            es.drop_first(),
            key,
            w,
        ));
    } else if es.len() > 0 {
        assert(obj_set(es, key, w)[0] == (key, w));
    } else {
        assert(obj_set(es, key, w)[0] == (key, w));
    }
}

proof fn lemma_obj_set_set(es: Seq<(Seq<char>, JsonV)>, key: Seq<char>, x: JsonV, y: JsonV)
    ensures
        obj_set(obj_set(es, key, x), key, y) == obj_set(es, key, y),
    decreases es.len(),
{
    if es.len() == 0 {
        assert(obj_set(obj_set(es, key, x), key, y) =~= obj_set(es, key, y));
    } else if es[0].0 == key {
        assert(obj_set(es, key, x)[0].0 == key);
        assert((seq![(key, x)] + es.drop_first()).drop_first() =~= es.drop_first());
        assert(obj_set(obj_set(es, key, x), key, y) =~= obj_set(es, key, y));
    } else {
        lemma_obj_set_set(es.drop_first(), key, x, y);
        assert((seq![es[0]] + obj_set(es.drop_first(), key, x)).drop_first() =~= obj_set(
            es.drop_first(),
            key,
            x,
        ));
        assert(obj_set(obj_set(es, key, x), key, y) =~= obj_set(es, key, y));
    }
}

proof fn lemma_arr_get_set(items: Seq<JsonV>, i: int, w: JsonV)
    requires
        0 <= i,
    ensures
        arr_set(items, i, w).len() > i,
        arr_set(items, i, w)[i] == w,
{
    if i >= items.len() {
        assert(arr_set(items, i, w)[i] == w);
    }
}

proof fn lemma_arr_set_set(items: Seq<JsonV>, i: int, x: JsonV, y: JsonV)
    requires
        0 <= i,
    ensures
        arr_set(arr_set(items, i, x), i, y) == arr_set(items, i, y),
{
    if i < items.len() {
        assert(arr_set(arr_set(items, i, x), i, y) =~= arr_set(items, i, y));
    } else {
        assert(arr_set(items, i, x).len() == i + 1);
        assert(arr_set(arr_set(items, i, x), i, y) =~= arr_set(items, i, y));
    }
}

/// Reading back what was written: at a path lens that sets cleanly in `v`,
/// `get` after `set` returns exactly the written value.
pub proof fn lemma_lens_get_set(l: LensV, v: JsonV, w: JsonV)
    requires
        sets_cleanly(l, v),
    ensures
        lens_get(l, lens_set(l, v, w)) == w,
    decreases l,
{
    match l {
        LensV::Field(key) => {
            match v {
                JsonV::Obj(es) => lemma_obj_get_set(es, key, w),
                _ => {
                    assert(obj_get(seq![(key, w)], key) == Option::Some(w));
                },
            }
        },
        LensV::Index(i) => {
            match v {
                JsonV::Arr(items) => lemma_arr_get_set(items, i, w),
                _ => {
                    assert(seq![w][0] == w);
                },
            }
        },
        LensV::Combine(a, b) => {
            let g = lens_get(*a, v);
            let x = lens_set(*b, g, w);
            lemma_lens_get_set(*a, v, x);
            lemma_lens_get_set(*b, g, w);
        },
        _ => {},
    }
}

/// Writing twice is writing once: at a path lens that sets cleanly in `v`,
/// a second `set` overwrites the first.
pub proof fn lemma_lens_set_set(l: LensV, v: JsonV, x: JsonV, y: JsonV)
    requires
        sets_cleanly(l, v),
    ensures
        lens_set(l, lens_set(l, v, x), y) == lens_set(l, v, y),
    decreases l,
{
    match l {
        LensV::Field(key) => {
            match v {
                JsonV::Obj(es) => lemma_obj_set_set(es, key, x, y),
                _ => {
                    assert(obj_set(seq![(key, x)], key, y) =~= seq![(key, y)]);
                },
            }
        },
        LensV::Index(i) => {
            match v {
                JsonV::Arr(items) => lemma_arr_set_set(items, i, x, y),
                _ => {
                    assert(arr_set(seq![x], 0, y) =~= seq![y]);
                },
            }
        },
        LensV::Combine(a, b) => {
            let g = lens_get(*a, v);
            let xx = lens_set(*b, g, x);
            let v1 = lens_set(*a, v, xx);
            lemma_lens_get_set(*a, v, xx);
            assert(lens_get(*a, v1) == xx);
            lemma_lens_set_set(*b, g, x, y);
            lemma_lens_set_set(*a, v, xx, lens_set(*b, g, y));
        },
        _ => {},
    }
}

/// Mapping a lens over an array reads pointwise: `get` of a for-each lens on
/// an array is the element-wise `get`.
pub proof fn lemma_lens_foreach_get(l: LensV, items: Seq<JsonV>)
    ensures
        lens_get(LensV::ForEach(Box::new(l)), JsonV::Arr(items)) == JsonV::Arr(
            Seq::new(items.len(), |i: int| lens_get(l, items[i])),
        ),
{
    let lhs = lens_get(LensV::ForEach(Box::new(l)), JsonV::Arr(items));
    assert(lhs is Arr);
    assert(lhs->Arr_0.len() == items.len());
    assert forall|i: int| 0 <= i < items.len() implies lhs->Arr_0[i] == lens_get(
        l,
        items[i],
    ) by {}
    assert(lhs->Arr_0 =~= Seq::new(items.len(), |i: int| lens_get(l, items[i])));
}


} // verus!
