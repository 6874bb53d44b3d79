//! A flattened lookup structure over a blueprint.
//!
//! The index maps a type name to its definition and a pair of container
//! type name and field name to the field's definition, and records the
//! root operation type names. It borrows the blueprint's definitions and
//! never changes after construction.

use vstd::prelude::*;

use crate::blueprint::Blueprint;
use crate::blueprint::Definition;
use crate::blueprint::DefinitionV;
use crate::blueprint::FieldDefinition;
use crate::blueprint::FieldDefinitionV;
use crate::blueprint::InputFieldDefinition;
use crate::blueprint::InputFieldDefinitionV;
use crate::blueprint::ObjectTypeDefinition;
use crate::blueprint::definition_name;

verus! {

/// What a field lookup yields: an output field with its arguments by
/// name, or an input field.
pub enum QueryField<'a> {
    Field((&'a FieldDefinition, Vec<(&'a String, &'a InputFieldDefinition)>)),
    InputField(&'a InputFieldDefinition),
}

/// The view of a [`QueryField`].
#[verifier::ext_equal]
pub enum QueryFieldV {
    Field((FieldDefinitionV, Seq<(Seq<char>, InputFieldDefinitionV)>)),
    InputField(InputFieldDefinitionV),
}

impl<'a> View for QueryField<'a> {
    type V = QueryFieldV;

    open spec fn view(&self) -> QueryFieldV {
        match self {
            QueryField::Field((f, args)) => QueryFieldV::Field(
                (
                    (*f)@,
                    args@.map_values(
                        |kv: (&'a String, &'a InputFieldDefinition)| (kv.0@, kv.1@),
                    ),
                ),
            ),
            QueryField::InputField(a) => QueryFieldV::InputField((*a)@),
        }
    }
}

/// The arguments of a field, each paired with its name.
pub open spec fn arg_pairs(args: Seq<InputFieldDefinitionV>) -> Seq<(
    Seq<char>,
    InputFieldDefinitionV,
)> {
    args.map_values(|a: InputFieldDefinitionV| (a.name, a))
}

/// The lookup entries for the arguments of one field of `tname`.
pub open spec fn input_entries(tname: Seq<char>, args: Seq<InputFieldDefinitionV>) -> Seq<(
    Seq<char>,
    Seq<char>,
    QueryFieldV,
)> {
    args.map_values(|a: InputFieldDefinitionV| (tname, a.name, QueryFieldV::InputField(a)))
}

/// The lookup entries for one output field of `tname`: the field itself,
/// then its arguments.
pub open spec fn entries_for_field(tname: Seq<char>, f: FieldDefinitionV) -> Seq<(
    Seq<char>,
    Seq<char>,
    QueryFieldV,
)> {
    seq![(tname, f.name, QueryFieldV::Field((f, arg_pairs(f.args))))] + input_entries(
        tname,
        f.args,
    )
}

/// The lookup entries for a sequence of output fields of `tname`.
pub open spec fn entries_for_fields(tname: Seq<char>, fs: Seq<FieldDefinitionV>) -> Seq<(
    Seq<char>,
    Seq<char>,
    QueryFieldV,
)>
    decreases fs.len(),
{
    if fs.len() == 0 {
        Seq::empty()
    } else {
        entries_for_field(tname, fs[0]) + entries_for_fields(tname, fs.drop_first())
    }
}

/// The lookup entries that one definition contributes: output fields and
/// their arguments for objects and interfaces, input fields for input
/// objects, nothing for the rest.
pub open spec fn entries_for_def(d: DefinitionV) -> Seq<(Seq<char>, Seq<char>, QueryFieldV)> {
    match d {
        DefinitionV::Object(o) => entries_for_fields(o.name, o.fields),
        DefinitionV::Interface(i) => entries_for_fields(i.name, i.fields),
        DefinitionV::InputObject(io) => input_entries(
            io.name,
            io.fields,
        ),
        _ => Seq::empty(),
    }
}

/// The lookup entries of a whole definition sequence, in order.
pub open spec fn entries_for_defs(defs: Seq<DefinitionV>) -> Seq<(
    Seq<char>,
    Seq<char>,
    QueryFieldV,
)>
    decreases defs.len(),
{
    if defs.len() == 0 {
        Seq::empty()
    } else {
        entries_for_def(defs[0]) + entries_for_defs(defs.drop_first())
    }
}

/// The type entries of a definition sequence: each name with its
/// definition, in order.
pub open spec fn type_entries(defs: Seq<DefinitionV>) -> Seq<(Seq<char>, DefinitionV)> {
    defs.map_values(|d: DefinitionV| (definition_name(d), d))
}

/// The first definition named `name` among `entries`.
pub open spec fn type_lookup(
    entries: Seq<(Seq<char>, DefinitionV)>,
    name: Seq<char>,
) -> Option<DefinitionV>
    decreases entries.len(),
{
    if entries.len() == 0 {
        Option::None
    } else if entries[0].0 == name {
        Option::Some(entries[0].1)
    } else {
        type_lookup(entries.drop_first(), name)
    }
}

/// The first field entry keyed by `container` and `name`.
pub open spec fn field_lookup(
    entries: Seq<(Seq<char>, Seq<char>, QueryFieldV)>,
    container: Seq<char>,
    name: Seq<char>,
) -> Option<QueryFieldV>
    decreases entries.len(),
{
    if entries.len() == 0 {
        Option::None
    } else if entries[0].0 == container && entries[0].1 == name {
        Option::Some(entries[0].2)
    } else {
        field_lookup(entries.drop_first(), container, name)
    }
}

/// The flattened lookup structure: type entries, field entries and the
/// root operation names, all borrowed from one blueprint.
pub struct Index<'a> {
    types: Vec<(&'a String, &'a Definition)>,
    fields: Vec<(&'a String, &'a String, QueryField<'a>)>,
    query_root: Option<&'a String>,
    mutation_root: Option<&'a String>,
    subscription_root: Option<&'a String>,
}

impl<'a> Index<'a> {
    /// The type entries, as viewed.
    pub closed spec fn types_view(&self) -> Seq<(Seq<char>, DefinitionV)> {
        Seq::new(self.types@.len(), |i: int| (self.types@[i].0@, self.types@[i].1@))
    }

    /// The field entries, as viewed.
    pub closed spec fn fields_view(&self) -> Seq<(Seq<char>, Seq<char>, QueryFieldV)> {
        Seq::new(
            self.fields@.len(),
            |i: int| (self.fields@[i].0@, self.fields@[i].1@, self.fields@[i].2@),
        )
    }

    /// The root operation type names, as viewed.
    pub closed spec fn roots_view(&self) -> (
        Option<Seq<char>>,
        Option<Seq<char>>,
        Option<Seq<char>>,
    ) {
        (
            match self.query_root {
                Option::Some(s) => Option::Some(s@),
                Option::None => Option::None,
            },
            match self.mutation_root {
                Option::Some(s) => Option::Some(s@),
                Option::None => Option::None,
            },
            match self.subscription_root {
                Option::Some(s) => Option::Some(s@),
                Option::None => Option::None,
            },
        )
    }

    /// The first definition of this type name.
    pub fn get_type(&self, name: &str) -> (r: Option<&'a Definition>)
        ensures
            match type_lookup(self.types_view(), name@) {
                Option::Some(d) => r matches Some(rd) && rd@ == d,
                Option::None => r is None,
            },
    {
        let owned = String::from_str(name);
        let n = self.types.len();
        let mut i: usize = 0;
        proof {
            assert(self.types_view().skip(0) =~= self.types_view());
        }
        while i < n
            invariant
                i <= n,
                n == self.types@.len(),
                owned@ == name@,
                type_lookup(self.types_view(), name@) == type_lookup(
                    self.types_view().skip(i as int),
                    name@,
                ),
            decreases n - i,
        {
            proof {
                assert(self.types_view().skip(i as int)[0] == self.types_view()[i as int]);
                assert(self.types_view().skip(i as int).drop_first() =~= self.types_view().skip(
                    i + 1,
                ));
            }
            if *self.types[i].0 == owned {
                return Some(self.types[i].1);
            }
            i = i + 1;
        }
        proof {
            assert(self.types_view().skip(n as int) =~= Seq::<(Seq<char>, DefinitionV)>::empty());
        }
        None
    }

    /// The first definition of this type name, when it is an object type.
    pub fn get_object_type_definition(&self, name: &str) -> (r: Option<
        &'a ObjectTypeDefinition,
    >)
        ensures
            match type_lookup(self.types_view(), name@) {
                Option::Some(d) => (d matches DefinitionV::Object(o) ==> r matches Some(ro)
                    && ro@ == o) && (!(d is Object) ==> r is None),
                Option::None => r is None,
            },
    {
        match self.get_type(name) {
            Some(Definition::Object(o)) => Some(o),
            _ => None,
        }
    }

    /// The first field entry of this container and field name.
    pub fn get_field(&self, container: &str, name: &str) -> (r: Option<&QueryField<'a>>)
        ensures
            match field_lookup(self.fields_view(), container@, name@) {
                Option::Some(q) => r matches Some(rq) && rq@ == q,
                Option::None => r is None,
            },
    {
        let owned_c = String::from_str(container);
        let owned_n = String::from_str(name);
        let n = self.fields.len();
        let mut i: usize = 0;
        proof {
            assert(self.fields_view().skip(0) =~= self.fields_view());
        }
        while i < n
            invariant
                i <= n,
                n == self.fields@.len(),
                owned_c@ == container@,
                owned_n@ == name@,
                field_lookup(self.fields_view(), container@, name@) == field_lookup(
                    self.fields_view().skip(i as int),
                    container@,
                    name@,
                ),
            decreases n - i,
        {
            proof {
                assert(self.fields_view().skip(i as int)[0] == self.fields_view()[i as int]);
                assert(self.fields_view().skip(i as int).drop_first() =~= self.fields_view().skip(
                    i + 1,
                ));
            }
            if *self.fields[i].0 == owned_c && *self.fields[i].1 == owned_n {
                return Some(&self.fields[i].2);
            }
            i = i + 1;
        }
        proof {
            assert(self.fields_view().skip(n as int) =~= Seq::<
                (Seq<char>, Seq<char>, QueryFieldV),
            >::empty());
        }
        None
    }

    /// The name of the query root operation type, when the schema binds
    /// one.
    pub fn get_query(&self) -> (r: Option<&'a String>)
        ensures
            match self.roots_view().0 {
                Option::Some(s) => r matches Some(rs) && rs@ == s,
                Option::None => r is None,
            },
    {
        self.query_root
    }

    /// The name of the mutation root operation type, when the schema binds
    /// one.
    pub fn get_mutation(&self) -> (r: Option<&'a String>)
        ensures
            match self.roots_view().1 {
                Option::Some(s) => r matches Some(rs) && rs@ == s,
                Option::None => r is None,
            },
    {
        self.mutation_root
    }

    /// The name of the subscription root operation type, when the schema
    /// binds one.
    pub fn get_subscription(&self) -> (r: Option<&'a String>)
        ensures
            match self.roots_view().2 {
                Option::Some(s) => r matches Some(rs) && rs@ == s,
                Option::None => r is None,
            },
    {
        self.subscription_root
    }
}


/// The view of a built vector of field entries.
pub open spec fn triples_view<'a>(
    v: Seq<(&'a String, &'a String, QueryField<'a>)>,
) -> Seq<(Seq<char>, Seq<char>, QueryFieldV)> {
    Seq::new(v.len(), |i: int| (v[i].0@, v[i].1@, v[i].2@))
}

proof fn lemma_entries_for_fields_take(tname: Seq<char>, fs: Seq<FieldDefinitionV>, k: int)
    requires
        0 <= k < fs.len(),
    ensures
        entries_for_fields(tname, fs.take(k + 1)) == entries_for_fields(tname, fs.take(k))
            + entries_for_field(tname, fs[k]),
    decreases k,
{
    if k == 0 {
        assert(fs.take(1)[0] == fs[0]);
        assert(fs.take(1).drop_first() =~= fs.take(0));
        assert(entries_for_fields(tname, fs.take(0)) =~= Seq::<
            (Seq<char>, Seq<char>, QueryFieldV),
        >::empty());
        assert(entries_for_fields(tname, fs.take(1)) =~= entries_for_fields(tname, fs.take(0))
            + entries_for_field(tname, fs[0]));
    } else {
        lemma_entries_for_fields_take(tname, fs.drop_first(), k - 1);
        assert(fs.take(k + 1)[0] == fs[0]);
        assert(fs.take(k + 1).drop_first() =~= fs.drop_first().take(k));
        assert(fs.take(k)[0] == fs[0]);
        assert(fs.take(k).drop_first() =~= fs.drop_first().take(k - 1));
        assert(fs.drop_first()[k - 1] == fs[k]);
        assert(entries_for_fields(tname, fs.take(k + 1)) =~= entries_for_fields(
            tname,
            fs.take(k),
        ) + entries_for_field(tname, fs[k]));
    }
}

proof fn lemma_entries_for_defs_take(defs: Seq<DefinitionV>, k: int)
    requires
        0 <= k < defs.len(),
    ensures
        entries_for_defs(defs.take(k + 1)) == entries_for_defs(defs.take(k)) + entries_for_def(
            defs[k],
        ),
    decreases k,
{
    if k == 0 {
        assert(defs.take(1)[0] == defs[0]);
        assert(defs.take(1).drop_first() =~= defs.take(0));
        assert(entries_for_defs(defs.take(0)) =~= Seq::<
            (Seq<char>, Seq<char>, QueryFieldV),
        >::empty());
        assert(entries_for_defs(defs.take(1)) =~= entries_for_defs(defs.take(0))
            + entries_for_def(defs[0]));
    } else {
        lemma_entries_for_defs_take(defs.drop_first(), k - 1);
        assert(defs.take(k + 1)[0] == defs[0]);
        assert(defs.take(k + 1).drop_first() =~= defs.drop_first().take(k));
        assert(defs.take(k)[0] == defs[0]);
        assert(defs.take(k).drop_first() =~= defs.drop_first().take(k - 1));
        assert(defs.drop_first()[k - 1] == defs[k]);
        assert(entries_for_defs(defs.take(k + 1)) =~= entries_for_defs(defs.take(k))
            + entries_for_def(defs[k]));
    }
}

/// Appends the entries of one output field: the field itself with its
/// arguments by name, then each argument.
#[verifier::loop_isolation(false)]
fn push_field_entries<'a>(
    out: &mut Vec<(&'a String, &'a String, QueryField<'a>)>,
    tname: &'a String,
    f: &'a FieldDefinition,
)
    ensures
        triples_view(final(out)@) == triples_view(old(out)@) + entries_for_field(tname@, f@),
{
    let ghost argsv = f@.args;
    let mut args: Vec<(&'a String, &'a InputFieldDefinition)> = Vec::new();
    let n = f.args.len();
    let mut i: usize = 0;
    while i < n
        invariant
            i <= n,
            n == f.args@.len(),
            argsv.len() == n,
            args@.len() == i,
            forall|j: int|
                0 <= j < i ==> (#[trigger] args@[j]).0@ == argsv[j].name && args@[j].1@
                    == argsv[j],
        decreases n - i,
    {
        proof {
            assert(argsv[i as int] == f.args@[i as int]@);
        }
        args.push((&f.args[i].name, &f.args[i]));
        i = i + 1;
    }
    let ghost base = triples_view(out@);
    out.push((tname, &f.name, QueryField::Field((f, args))));
    proof {
        assert(args@.map_values(|kv: (&'a String, &'a InputFieldDefinition)| (kv.0@, kv.1@))
            =~= arg_pairs(argsv));
        assert(triples_view(out@) =~= base + seq![
            (tname@, f@.name, QueryFieldV::Field((f@, arg_pairs(argsv)))),
        ]);
    }
    let ghost mid = triples_view(out@);
    let mut k: usize = 0;
    while k < n
        invariant
            k <= n,
            n == f.args@.len(),
            argsv.len() == n,
            triples_view(out@) == mid + input_entries(tname@, argsv).take(k as int),
        decreases n - k,
    {
        proof {
            assert(argsv[k as int] == f.args@[k as int]@);
        }
        let ghost before = triples_view(out@);
        out.push((tname, &f.args[k].name, QueryField::InputField(&f.args[k])));
        proof {
            assert(input_entries(tname@, argsv)[k as int] == (
                tname@,
                argsv[k as int].name,
                QueryFieldV::InputField(argsv[k as int]),
            ));
            assert(triples_view(out@) =~= before.push(input_entries(tname@, argsv)[k as int]));
            assert(input_entries(tname@, argsv).take(k + 1) =~= input_entries(
                tname@,
                argsv,
            ).take(k as int).push(input_entries(tname@, argsv)[k as int]));
            assert(triples_view(out@) =~= mid + input_entries(tname@, argsv).take(k + 1));
        }
        k = k + 1;
    }
    proof {
        assert(input_entries(tname@, argsv).take(n as int) =~= input_entries(tname@, argsv));
        assert(triples_view(out@) =~= triples_view(old(out)@) + entries_for_field(tname@, f@));
    }
}

/// Appends the entries that one definition contributes.
#[verifier::loop_isolation(false)]
fn push_def_entries<'a>(
    out: &mut Vec<(&'a String, &'a String, QueryField<'a>)>,
    def: &'a Definition,
)
    ensures
        triples_view(final(out)@) == triples_view(old(out)@) + entries_for_def(def@),
{
    match def {
        Definition::Object(o) => {
            let ghost fsv = o@.fields;
            let n = o.fields.len();
            let mut i: usize = 0;
            proof {
                assert(fsv.take(0) =~= Seq::<FieldDefinitionV>::empty());
                assert(triples_view(out@) =~= triples_view(out@) + entries_for_fields(
                    o@.name,
                    fsv.take(0),
                ));
            }
            while i < n
                invariant
                    i <= n,
                    n == o.fields@.len(),
                    fsv.len() == n,
                    triples_view(out@) == triples_view(old(out)@) + entries_for_fields(
                        o@.name,
                        fsv.take(i as int),
                    ),
                decreases n - i,
            {
                proof {
                    assert(fsv[i as int] == o.fields@[i as int]@);
                    lemma_entries_for_fields_take(o@.name, fsv, i as int);
                }
                push_field_entries(out, &o.name, &o.fields[i]);
                i = i + 1;
            }
            proof {
                assert(fsv.take(n as int) =~= fsv);
            }
        },
        Definition::Interface(iface) => {
            let ghost fsv = iface@.fields;
            let n = iface.fields.len();
            let mut i: usize = 0;
            proof {
                assert(fsv.take(0) =~= Seq::<FieldDefinitionV>::empty());
                assert(triples_view(out@) =~= triples_view(out@) + entries_for_fields(
                    iface@.name,
                    fsv.take(0),
                ));
            }
            while i < n
                invariant
                    i <= n,
                    n == iface.fields@.len(),
                    fsv.len() == n,
                    triples_view(out@) == triples_view(old(out)@) + entries_for_fields(
                        iface@.name,
                        fsv.take(i as int),
                    ),
                decreases n - i,
            {
                proof {
                    assert(fsv[i as int] == iface.fields@[i as int]@);
                    lemma_entries_for_fields_take(iface@.name, fsv, i as int);
                }
                push_field_entries(out, &iface.name, &iface.fields[i]);
                i = i + 1;
            }
            proof {
                assert(fsv.take(n as int) =~= fsv);
            }
        },
        Definition::InputObject(io) => {
            let ghost argsv = io@.fields;
            let n = io.fields.len();
            let mut k: usize = 0;
            proof {
                assert(input_entries(io@.name, argsv).take(0) =~= Seq::<
                    (Seq<char>, Seq<char>, QueryFieldV),
                >::empty());
                assert(triples_view(out@) =~= triples_view(out@) + input_entries(
                    io@.name,
                    argsv,
                ).take(0));
            }
            while k < n
                invariant
                    k <= n,
                    n == io.fields@.len(),
                    argsv.len() == n,
                    triples_view(out@) == triples_view(old(out)@) + input_entries(
                        io@.name,
                        argsv,
                    ).take(k as int),
                decreases n - k,
            {
                proof {
                    assert(argsv[k as int] == io.fields@[k as int]@);
                }
                let ghost before = triples_view(out@);
                out.push((&io.name, &io.fields[k].name, QueryField::InputField(&io.fields[k])));
                proof {
                    assert(input_entries(io@.name, argsv)[k as int] == (
                        io@.name,
                        argsv[k as int].name,
                        QueryFieldV::InputField(argsv[k as int]),
                    ));
                    assert(triples_view(out@) =~= before.push(
                        input_entries(io@.name, argsv)[k as int],
                    ));
                    assert(input_entries(io@.name, argsv).take(k + 1) =~= input_entries(
                        io@.name,
                        argsv,
                    ).take(k as int).push(input_entries(io@.name, argsv)[k as int]));
                    assert(triples_view(out@) =~= triples_view(old(out)@) + input_entries(
                        io@.name,
                        argsv,
                    ).take(k + 1));
                }
                k = k + 1;
            }
            proof {
                assert(input_entries(io@.name, argsv).take(n as int) =~= input_entries(
                    io@.name,
                    argsv,
                ));
            }
        },
        _ => {
            proof {
                assert(triples_view(out@) =~= triples_view(out@) + entries_for_def(def@));
            }
        },
    }
}

impl Blueprint {
    /// Builds the index: every type entry, every field entry, and the root
    /// operation names, in blueprint order.
    #[verifier::loop_isolation(false)]
    pub fn to_index<'a>(&'a self) -> (r: Index<'a>)
        ensures
            r.types_view() == type_entries(self@.definitions),
            r.fields_view() == entries_for_defs(self@.definitions),
            r.roots_view() == (self@.schema.query, self@.schema.mutation, self@.schema.subscription),
    {
        let ghost dviews = self@.definitions;
        let mut types: Vec<(&'a String, &'a Definition)> = Vec::new();
        let mut fields: Vec<(&'a String, &'a String, QueryField<'a>)> = Vec::new();
        let n = self.definitions.len();
        let mut i: usize = 0;
        proof {
            assert(dviews.take(0) =~= Seq::<DefinitionV>::empty());
            assert(triples_view(fields@) =~= entries_for_defs(dviews.take(0)));
        }
        while i < n
            invariant
                i <= n,
                n == self.definitions@.len(),
                dviews.len() == n,
                types@.len() == i,
                forall|j: int|
                    0 <= j < i ==> (#[trigger] types@[j]).0@ == definition_name(dviews[j])
                        && types@[j].1@ == dviews[j],
                triples_view(fields@) == entries_for_defs(dviews.take(i as int)),
            decreases n - i,
        {
            proof {
                assert(dviews[i as int] == self.definitions@[i as int]@);
                lemma_entries_for_defs_take(dviews, i as int);
            }
            let def = &self.definitions[i];
            types.push((def.name(), def));
            push_def_entries(&mut fields, def);
            i = i + 1;
        }
        proof {
            assert(dviews.take(n as int) =~= dviews);
        }
        let r = Index {
            types,
            fields,
            query_root: match &self.schema.query {
                Some(q) => Some(q),
                None => None,
            },
            mutation_root: match &self.schema.mutation {
                Some(m) => Some(m),
                None => None,
            },
            subscription_root: match &self.schema.subscription {
                Some(sub) => Some(sub),
                None => None,
            },
        };
        proof {
            assert(r.types_view() =~= type_entries(dviews));
            assert(r.fields_view() =~= entries_for_defs(dviews));
        }
        r
    }
}


/// No two field entries share a key.
pub open spec fn unique_field_keys(entries: Seq<(Seq<char>, Seq<char>, QueryFieldV)>) -> bool {
    forall|a: int, b: int|
        0 <= a < b < entries.len() ==> !((#[trigger] entries[a]).0 == (#[trigger] entries[b]).0
            && entries[a].1 == entries[b].1)
}

proof fn lemma_lookup_of_unique(entries: Seq<(Seq<char>, Seq<char>, QueryFieldV)>, i: int)
    requires
        unique_field_keys(entries),
        0 <= i < entries.len(),
    ensures
        field_lookup(entries, entries[i].0, entries[i].1) == Option::Some(entries[i].2),
    decreases entries.len(),
{
    if entries[0].0 == entries[i].0 && entries[0].1 == entries[i].1 {
        assert(i == 0);
    } else {
        assert(forall|a: int, b: int|
            0 <= a < b < entries.drop_first().len() ==> !((#[trigger] entries.drop_first()[a]).0
                == (#[trigger] entries.drop_first()[b]).0 && entries.drop_first()[a].1
                == entries.drop_first()[b].1)) by {
            assert(forall|a: int|
                0 <= a < entries.drop_first().len() ==> #[trigger] entries.drop_first()[a]
                    == entries[a + 1]);
        }
        lemma_lookup_of_unique(entries.drop_first(), i - 1);
        assert(entries.drop_first()[i - 1] == entries[i]);
    }
}

/// The output fields of a definition, when it has any.
pub open spec fn def_fields(d: DefinitionV) -> Seq<FieldDefinitionV> {
    match d {
        DefinitionV::Object(o) => o.fields,
        DefinitionV::Interface(i) => i.fields,
        _ => Seq::empty(),
    }
}

proof fn lemma_fields_entry_member(tname: Seq<char>, fs: Seq<FieldDefinitionV>, m: int)
    requires
        0 <= m < fs.len(),
    ensures
        entries_for_fields(tname, fs).contains(
            (tname, fs[m].name, QueryFieldV::Field((fs[m], arg_pairs(fs[m].args)))),
        ),
    decreases m,
{
    let entry = (tname, fs[m].name, QueryFieldV::Field((fs[m], arg_pairs(fs[m].args))));
    if m == 0 {
        assert(entries_for_fields(tname, fs)[0] == entry);
    } else {
        lemma_fields_entry_member(tname, fs.drop_first(), m - 1);
        assert(fs.drop_first()[m - 1] == fs[m]);
        let tail = entries_for_fields(tname, fs.drop_first());
        let j = choose|j: int| 0 <= j < tail.len() && tail[j] == entry;
        let head = entries_for_field(tname, fs[0]);
        assert(entries_for_fields(tname, fs)[head.len() + j] == entry);
    }
}

proof fn lemma_defs_entry_member(defs: Seq<DefinitionV>, k: int, m: int)
    requires
        0 <= k < defs.len(),
        defs[k] is Object || defs[k] is Interface,
        0 <= m < def_fields(defs[k]).len(),
    ensures
        entries_for_defs(defs).contains(
            (
                definition_name(defs[k]),
                def_fields(defs[k])[m].name,
                QueryFieldV::Field(
                    (def_fields(defs[k])[m], arg_pairs(def_fields(defs[k])[m].args)),
                ),
            ),
        ),
    decreases k,
{
    let entry = (
        definition_name(defs[k]),
        def_fields(defs[k])[m].name,
        QueryFieldV::Field((def_fields(defs[k])[m], arg_pairs(def_fields(defs[k])[m].args))),
    );
    if k == 0 {
        lemma_fields_entry_member(definition_name(defs[0]), def_fields(defs[0]), m);
        let head = entries_for_def(defs[0]);
        let j = choose|j: int| 0 <= j < head.len() && head[j] == entry;
        assert(entries_for_defs(defs)[j] == entry);
    } else {
        lemma_defs_entry_member(defs.drop_first(), k - 1, m);
        assert(defs.drop_first()[k - 1] == defs[k]);
        let tail = entries_for_defs(defs.drop_first());
        let j = choose|j: int| 0 <= j < tail.len() && tail[j] == entry;
        let head = entries_for_def(defs[0]);
        assert(entries_for_defs(defs)[head.len() + j] == entry);
    }
}

/// Index coverage: when no two field entries collide on their key, every
/// output field of every object and interface definition is reachable by
/// a lookup under its container's name, and the lookup returns exactly
/// that field with its arguments by name.
pub proof fn lemma_index_coverage(defs: Seq<DefinitionV>, k: int, m: int)
    requires
        unique_field_keys(entries_for_defs(defs)),
        0 <= k < defs.len(),
        defs[k] is Object || defs[k] is Interface,
        0 <= m < def_fields(defs[k]).len(),
    ensures
        field_lookup(
            entries_for_defs(defs),
            definition_name(defs[k]),
            def_fields(defs[k])[m].name,
        ) == Option::Some(
            QueryFieldV::Field(
                (def_fields(defs[k])[m], arg_pairs(def_fields(defs[k])[m].args)),
            ),
        ),
{
    lemma_defs_entry_member(defs, k, m);
    let entries = entries_for_defs(defs);
    let entry = (
        definition_name(defs[k]),
        def_fields(defs[k])[m].name,
        QueryFieldV::Field((def_fields(defs[k])[m], arg_pairs(def_fields(defs[k])[m].args))),
    );
    let i = choose|i: int| 0 <= i < entries.len() && entries[i] == entry;
    lemma_lookup_of_unique(entries, i);
}

} // verus!
