//! Insertion-ordered collections of names.
//!
//! The pruner and the set-cover routine work over sets of subgraph names
//! and maps from field names to such sets. Both keep insertion order, so
//! that greedy choices are deterministic across runs and platforms.

use vstd::prelude::*;

verus! {

/// An insertion-ordered set of names: each name appears once, in the order
/// first inserted.
pub struct NameSet(Vec<String>);

impl View for NameSet {
    type V = Seq<Seq<char>>;

    closed spec fn view(&self) -> Seq<Seq<char>> {
        self.0.deep_view()
    }
}

impl NameSet {
    /// The empty set.
    pub fn new() -> (r: NameSet)
        ensures
            r@ == Seq::<Seq<char>>::empty(),
    {
        let r = NameSet(Vec::new());
        proof {
            assert(r@ =~= Seq::<Seq<char>>::empty());
        }
        r
    }

    /// Whether `name` is in the set.
    pub fn contains(&self, name: &str) -> (r: bool)
        ensures
            r == self@.contains(name@),
    {
        let owned = String::from_str(name);
        let n = self.0.len();
        let mut i: usize = 0;
        while i < n
            invariant
                i <= n,
                n == self.0@.len(),
                owned@ == name@,
                forall|j: int| 0 <= j < i ==> self@[j] != name@,
            decreases n - i,
        {
            if self.0[i] == owned {
                proof {
                    assert(self@[i as int] == name@);
                }
                return true;
            }
            i = i + 1;
        }
        proof {
            assert(forall|j: int| 0 <= j < self@.len() ==> self@[j] != name@);
        }
        false
    }

    /// Adds `name` unless it is already there; a new name goes to the end.
    pub fn insert(&mut self, name: String)
        ensures
            old(self)@.contains(name@) ==> final(self)@ == old(self)@,
            !old(self)@.contains(name@) ==> final(self)@ == old(self)@.push(name@),
    {
        if !self.contains(name.as_str()) {
            let ghost before = self@;
            self.0.push(name);
            proof {
                assert(self@ =~= before.push(self.0@[self.0@.len() - 1]@));
            }
        }
    }

    /// How many names are in the set.
    pub fn len(&self) -> (r: usize)
        ensures
            r == self@.len(),
    {
        self.0.len()
    }

    /// Whether the set is empty.
    pub fn is_empty(&self) -> (r: bool)
        ensures
            r == (self@.len() == 0),
    {
        self.0.len() == 0
    }

    /// The name at position `i`, in insertion order.
    pub fn index(&self, i: usize) -> (r: &String)
        requires
            i < self@.len(),
        ensures
            r@ == self@[i as int],
    {
        &self.0[i]
    }

    /// A fresh set with the same names in the same order.
    pub fn duplicate(&self) -> (r: NameSet)
        ensures
            r@ == self@,
    {
        let n = self.0.len();
        let mut out: Vec<String> = Vec::new();
        let mut i: usize = 0;
        while i < n
            invariant
                i <= n,
                n == self.0@.len(),
                out@.len() == i,
                forall|j: int| 0 <= j < i ==> (#[trigger] out@[j])@ == self@[j],
            decreases n - i,
        {
            out.push(self.0[i].clone());
            i = i + 1;
        }
        let r = NameSet(out);
        proof {
            assert(r@ =~= self@);
        }
        r
    }
}

/// The set under `key` among `entries`: the first entry with that key.
pub open spec fn name_lookup(
    entries: Seq<(Seq<char>, Seq<Seq<char>>)>,
    key: Seq<char>,
) -> Option<Seq<Seq<char>>>
    decreases entries.len(),
{
    if entries.len() == 0 {
        Option::None
    } else if entries[0].0 == key {
        Option::Some(entries[0].1)
    } else {
        name_lookup(entries.drop_first(), key)
    }
}

/// An insertion-ordered map from a name to a set of names.
pub struct NameMap(Vec<(String, NameSet)>);

impl View for NameMap {
    type V = Seq<(Seq<char>, Seq<Seq<char>>)>;

    closed spec fn view(&self) -> Seq<(Seq<char>, Seq<Seq<char>>)> {
        Seq::new(self.0@.len(), |i: int| (self.0@[i].0@, self.0@[i].1@))
    }
}

impl NameMap {
    /// The empty map.
    pub fn new() -> (r: NameMap)
        ensures
            r@ == Seq::<(Seq<char>, Seq<Seq<char>>)>::empty(),
    {
        let r = NameMap(Vec::new());
        proof {
            assert(r@ =~= Seq::<(Seq<char>, Seq<Seq<char>>)>::empty());
        }
        r
    }

    /// The number of entries.
    pub fn len(&self) -> (r: usize)
        ensures
            r == self@.len(),
    {
        self.0.len()
    }

    /// The entry at position `i`, in insertion order.
    pub fn index(&self, i: usize) -> (r: (&String, &NameSet))
        requires
            i < self@.len(),
        ensures
            r.0@ == self@[i as int].0,
            r.1@ == self@[i as int].1,
    {
        (&self.0[i].0, &self.0[i].1)
    }

    /// The set under `key`, when there is one.
    pub fn get(&self, key: &str) -> (r: Option<&NameSet>)
        ensures
            match name_lookup(self@, key@) {
                Option::Some(s) => r matches Some(v) && v@ == s,
                Option::None => r is None,
            },
    {
        let owned = String::from_str(key);
        let n = self.0.len();
        let mut i: usize = 0;
        proof {
            assert(self@.skip(0) =~= self@);
        }
        while i < n
            invariant
                i <= n,
                n == self.0@.len(),
                owned@ == key@,
                name_lookup(self@, key@) == name_lookup(self@.skip(i as int), key@),
            decreases n - i,
        {
            if self.0[i].0 == owned {
                proof {
                    assert(self@.skip(i as int)[0] == self@[i as int]);
                }
                return Some(&self.0[i].1);
            }
            proof {
                assert(self@.skip(i as int)[0] == self@[i as int]);
                assert(self@.skip(i as int).drop_first() =~= self@.skip(i + 1));
            }
            i = i + 1;
        }
        proof {
            assert(self@.skip(n as int) =~= Seq::<(Seq<char>, Seq<Seq<char>>)>::empty());
        }
        None
    }

    /// Adds `graph` to the set under `key`, creating the entry at the end
    /// when the key is new.
    pub fn add_to(&mut self, key: &str, graph: &str)
        ensures
            match name_lookup(old(self)@, key@) {
                Option::Some(s) => final(self)@ == map_update_first(old(self)@, key@, (
                    if s.contains(graph@) {
                        s
                    } else {
                        s.push(graph@)
                    }
                )),
                Option::None => final(self)@ == old(self)@.push(
                    (key@, seq![graph@]),
                ),
            },
    {
        let owned = String::from_str(key);
        let n = self.0.len();
        let mut i: usize = 0;
        proof {
            assert(self@.skip(0) =~= self@);
            assert(old(self)@.take(0) =~= Seq::<(Seq<char>, Seq<Seq<char>>)>::empty());
        }
        while i < n
            invariant
                i <= n,
                n == self.0@.len(),
                self@ == old(self)@,
                owned@ == key@,
                name_lookup(self@, key@) == name_lookup(self@.skip(i as int), key@),
                forall|j: int| 0 <= j < i ==> (#[trigger] self@[j]).0 != key@,
            decreases n - i,
        {
            proof {
                assert(self@.skip(i as int)[0] == self@[i as int]);
            }
            if self.0[i].0 == owned {
                let ghost before = self@;
                let ghost old_set = self@[i as int].1;
                self.0[i].1.insert(String::from_str(graph));
                proof {
                    let new_set = if old_set.contains(graph@) {
                        old_set
                    } else {
                        old_set.push(graph@)
                    };
                    assert(self@ =~= before.update(i as int, (key@, new_set)));
                    lemma_map_update_first(before, key@, new_set, i as int);
                }
                return ;
            }
            proof {
                assert(self@.skip(i as int).drop_first() =~= self@.skip(i + 1));
            }
            i = i + 1;
        }
        proof {
            assert(self@.skip(n as int) =~= Seq::<(Seq<char>, Seq<Seq<char>>)>::empty());
        }
        let ghost before = self@;
        let mut fresh = NameSet::new();
        fresh.insert(String::from_str(graph));
        self.0.push((String::from_str(key), fresh));
        proof {
            assert(self@ =~= before.push((key@, seq![graph@])));
        }
    }

    /// Creates an empty entry for `key` at the end when the key is new.
    pub fn ensure(&mut self, key: &str)
        ensures
            final(self)@ == map_ensure(old(self)@, key@),
    {
        let owned = String::from_str(key);
        let n = self.0.len();
        let mut i: usize = 0;
        proof {
            assert(self@.skip(0) =~= self@);
        }
        while i < n
            invariant
                i <= n,
                n == self.0@.len(),
                self@ == old(self)@,
                owned@ == key@,
                name_lookup(self@, key@) == name_lookup(self@.skip(i as int), key@),
            decreases n - i,
        {
            proof {
                assert(self@.skip(i as int)[0] == self@[i as int]);
                assert(self@.skip(i as int).drop_first() =~= self@.skip(i + 1));
            }
            if self.0[i].0 == owned {
                return ;
            }
            i = i + 1;
        }
        proof {
            assert(self@.skip(n as int) =~= Seq::<(Seq<char>, Seq<Seq<char>>)>::empty());
        }
        let ghost before = self@;
        self.0.push((owned, NameSet::new()));
        proof {
            assert(self@ =~= before.push((key@, Seq::<Seq<char>>::empty())));
        }
    }

    /// Replaces the set under `key`, or appends the entry when the key is
    /// new.
    pub fn put(&mut self, key: String, value: NameSet)
        ensures
            match name_lookup(old(self)@, key@) {
                Option::Some(_) => final(self)@ == map_update_first(old(self)@, key@, value@),
                Option::None => final(self)@ == old(self)@.push((key@, value@)),
            },
    {
        let n = self.0.len();
        let mut i: usize = 0;
        proof {
            assert(self@.skip(0) =~= self@);
        }
        while i < n
            invariant
                i <= n,
                n == self.0@.len(),
                self@ == old(self)@,
                name_lookup(self@, key@) == name_lookup(self@.skip(i as int), key@),
                forall|j: int| 0 <= j < i ==> (#[trigger] self@[j]).0 != key@,
            decreases n - i,
        {
            proof {
                assert(self@.skip(i as int)[0] == self@[i as int]);
            }
            if self.0[i].0 == key {
                let ghost before = self@;
                self.0[i] = (key, value);
                proof {
                    assert(self@ =~= before.update(i as int, (key@, value@)));
                    lemma_map_update_first(before, key@, value@, i as int);
                }
                return ;
            }
            proof {
                assert(self@.skip(i as int).drop_first() =~= self@.skip(i + 1));
            }
            i = i + 1;
        }
        proof {
            assert(self@.skip(n as int) =~= Seq::<(Seq<char>, Seq<Seq<char>>)>::empty());
        }
        let ghost before = self@;
        let ghost kv = key@;
        let ghost vv = value@;
        self.0.push((key, value));
        proof {
            assert(self@ =~= before.push((kv, vv)));
        }
    }
}

/// `entries` with an empty entry appended for `key` when the key is new.
pub open spec fn map_ensure(
    entries: Seq<(Seq<char>, Seq<Seq<char>>)>,
    key: Seq<char>,
) -> Seq<(Seq<char>, Seq<Seq<char>>)> {
    match name_lookup(entries, key) {
        Option::Some(_) => entries,
        Option::None => entries.push((key, Seq::<Seq<char>>::empty())),
    }
}

/// `entries` with the first entry keyed `key` given the set `value`.
pub open spec fn map_update_first(
    entries: Seq<(Seq<char>, Seq<Seq<char>>)>,
    key: Seq<char>,
    value: Seq<Seq<char>>,
) -> Seq<(Seq<char>, Seq<Seq<char>>)>
    decreases entries.len(),
{
    if entries.len() == 0 {
        entries
    } else if entries[0].0 == key {
        seq![(key, value)] + entries.drop_first()
    } else {
        seq![entries[0]] + map_update_first(entries.drop_first(), key, value)
    }
}

proof fn lemma_map_update_first(
    entries: Seq<(Seq<char>, Seq<Seq<char>>)>,
    key: Seq<char>,
    value: Seq<Seq<char>>,
    i: int,
)
    requires
        0 <= i < entries.len(),
        entries[i].0 == key,
        forall|j: int| 0 <= j < i ==> (#[trigger] entries[j]).0 != key,
    ensures
        map_update_first(entries, key, value) == entries.update(i, (key, value)),
    decreases i,
{
    if i == 0 {
        assert(map_update_first(entries, key, value) =~= entries.update(0, (key, value)));
    } else {
        assert(entries.drop_first()[i - 1].0 == key);
        assert(forall|j: int|
            0 <= j < i - 1 ==> (#[trigger] entries.drop_first()[j]).0 != key);
        lemma_map_update_first(entries.drop_first(), key, value, i - 1);
        assert(map_update_first(entries, key, value) =~= entries.update(i, (key, value)));
    }
}

} // verus!
