//! A plain JSON value.
//!
//! The planner navigates and rewrites JSON with [`crate::lens::Lens`], and
//! stores raw directive arguments as JSON objects. This type holds such a
//! value as plain data: an object is a sequence of key/value entries in
//! insertion order, and a number is held as a signed integer.

use vstd::prelude::*;

verus! {

/// A JSON value.
pub enum Json {
    Null,
    Bool(bool),
    Num(i64),
    Str(String),
    Arr(Vec<Json>),
    Obj(Vec<(String, Json)>),
}

/// The mathematical content of a [`Json`] value.
#[verifier::ext_equal]
pub enum JsonV {
    Null,
    Bool(bool),
    Num(int),
    Str(Seq<char>),
    Arr(Seq<JsonV>),
    Obj(Seq<(Seq<char>, JsonV)>),
}

impl View for Json {
    type V = JsonV;

    open spec fn view(&self) -> JsonV
        decreases self,
    {
        match self {
            Json::Null => JsonV::Null,
            Json::Bool(b) => JsonV::Bool(*b),
            Json::Num(n) => JsonV::Num(*n as int),
            Json::Str(s) => JsonV::Str(s@),
            Json::Arr(items) => JsonV::Arr(jsons_view(items@)),
            Json::Obj(entries) => JsonV::Obj(entries_view(entries@)),
        }
    }
}

/// The views of every value in `s`, in order.
pub open spec fn jsons_view(s: Seq<Json>) -> Seq<JsonV>
    decreases s,
{
    if s.len() == 0 {
        Seq::<JsonV>::empty()
    } else {
        seq![s[0]@] + jsons_view(s.drop_first())
    }
}

/// The views of every entry in `s`, in order.
pub open spec fn entries_view(s: Seq<(String, Json)>) -> Seq<(Seq<char>, JsonV)>
    decreases s,
{
    if s.len() == 0 {
        Seq::<(Seq<char>, JsonV)>::empty()
    } else {
        seq![(s[0].0@, s[0].1@)] + entries_view(s.drop_first())
    }
}

/// `jsons_view` views the sequence pointwise.
pub broadcast proof fn lemma_jsons_view(s: Seq<Json>)
    ensures
        (#[trigger] jsons_view(s)).len() == s.len(),
        forall|i: int| #![trigger jsons_view(s)[i]] #![trigger s[i]]
            0 <= i < s.len() ==> jsons_view(s)[i] == s[i]@,
    decreases s.len(),
{
    if s.len() > 0 {
        lemma_jsons_view(s.drop_first());
        assert(jsons_view(s) == seq![s[0]@] + jsons_view(s.drop_first()));
        assert(jsons_view(s).len() == s.len());
        assert forall|i: int| 0 <= i < s.len() implies jsons_view(s)[i] == s[i]@ by {
            if i > 0 {
                assert(s.drop_first()[i - 1] == s[i]);
            }
        }
    }
}

/// `entries_view` views the sequence pointwise.
pub broadcast proof fn lemma_entries_view(s: Seq<(String, Json)>)
    ensures
        (#[trigger] entries_view(s)).len() == s.len(),
        forall|i: int| #![trigger entries_view(s)[i]] #![trigger s[i]]
            0 <= i < s.len() ==> entries_view(s)[i] == (s[i].0@, s[i].1@),
    decreases s.len(),
{
    if s.len() > 0 {
        lemma_entries_view(s.drop_first());
        assert(entries_view(s) == seq![(s[0].0@, s[0].1@)] + entries_view(s.drop_first()));
        assert(entries_view(s).len() == s.len());
        assert forall|i: int|
            0 <= i < s.len() implies entries_view(s)[i] == (s[i].0@, s[i].1@) by {
            if i > 0 {
                assert(s.drop_first()[i - 1] == s[i]);
            }
        }
    }
}

/// The value under `key` among `entries`: the first entry with that key.
pub open spec fn obj_get(entries: Seq<(Seq<char>, JsonV)>, key: Seq<char>) -> Option<JsonV>
    decreases entries.len(),
{
    if entries.len() == 0 {
        Option::None
    } else if entries[0].0 == key {
        Option::Some(entries[0].1)
    } else {
        obj_get(entries.drop_first(), key)
    }
}

impl Json {

    /// A fresh value with the same content.
    #[verifier::loop_isolation(false)]
    pub fn duplicate(&self) -> (r: Json)
        ensures
            r@ == self@,
        decreases self,
    {
        match self {
            Json::Null => Json::Null,
            Json::Bool(b) => Json::Bool(*b),
            Json::Num(n) => Json::Num(*n),
            Json::Str(s) => Json::Str(s.clone()),
            Json::Arr(items) => {
                let n = items.len();
                let mut out: Vec<Json> = Vec::new();
                let mut i: usize = 0;
                proof {
                    lemma_jsons_view(items@);
                }
                while i < n
                    invariant
                        i <= n,
                        n == items@.len(),
                        out@.len() == i,
                        forall|j: int| 0 <= j < i ==> (#[trigger] out@[j])@ == items@[j]@,
                    decreases n - i,
                {
                    out.push(items[i].duplicate());
                    i = i + 1;
                }
                let r = Json::Arr(out);
                proof {
                    lemma_jsons_view(out@);
                    assert(jsons_view(out@) =~= jsons_view(items@));
                }
                r
            },
            Json::Obj(entries) => {
                let n = entries.len();
                let mut out: Vec<(String, Json)> = Vec::new();
                let mut i: usize = 0;
                proof {
                    lemma_entries_view(entries@);
                }
                while i < n
                    invariant
                        i <= n,
                        n == entries@.len(),
                        out@.len() == i,
                        forall|j: int| 0 <= j < i ==> (#[trigger] out@[j]).0@ == entries@[j].0@
                            && out@[j].1@ == entries@[j].1@,
                    decreases n - i,
                {
                    out.push((entries[i].0.clone(), entries[i].1.duplicate()));
                    i = i + 1;
                }
                let r = Json::Obj(out);
                proof {
                    lemma_entries_view(out@);
                    assert(entries_view(out@) =~= entries_view(entries@));
                }
                r
            },
        }
    }

    /// Looks `key` up in this value: the value of the first entry with that
    /// key when this is an object that has one, and nothing otherwise.
    pub fn get_key(&self, key: &str) -> (r: Option<&Json>)
        ensures
            match self@ {
                JsonV::Obj(entries) => match obj_get(entries, key@) {
                    Option::Some(v) => r matches Some(j) && j@ == v,
                    Option::None => r is None,
                },
                _ => r is None,
            },
    {
        match self {
            Json::Obj(entries) => {
                let key_owned = String::from_str(key);
                let ghost ev = entries_view(entries@);
                proof {
                    lemma_entries_view(entries@);
                }
                let n = entries.len();
                proof {
                    assert(ev.skip(0) =~= ev);
                }
                let mut i: usize = 0;
                while i < n
                    invariant
                        n == entries@.len(),
                        i <= n,
                        key_owned@ == key@,
                        ev == entries_view(entries@),
                        self@ == JsonV::Obj(ev),
                        ev.len() == n,
                        forall|j: int| 0 <= j < n ==> ev[j] == ((#[trigger] entries@[j]).0@, entries@[j].1@),
                        obj_get(ev, key@) == obj_get(ev.skip(i as int), key@),
                    decreases n - i,
                {
                    if entries[i].0 == key_owned {
                        proof {
                            assert(ev.skip(i as int)[0] == ev[i as int]);
                            assert(obj_get(ev.skip(i as int), key@) == Option::Some(
                                ev[i as int].1,
                            ));
                            assert(obj_get(ev, key@) == Option::Some(entries@[i as int].1@));
                        }
                        return Some(&entries[i].1);
                    }
                    proof {
                        assert(ev.skip(i as int).drop_first() =~= ev.skip(i + 1));
                    }
                    i = i + 1;
                }
                proof {
                    assert(ev.skip(n as int) =~= Seq::<(Seq<char>, JsonV)>::empty());
                }
                None
            },
            _ => None,
        }
    }
}

} // verus!
