//! Building a blueprint from a parsed SDL document.
//!
//! One pass over the document's definitions collects the schema roots,
//! the type definitions and the directive definitions, each keyed by
//! name with duplicates reported as errors, and then locates the
//! `join__Graph` enumeration to populate the subgraph registry. The
//! federation metadata is read out of the `join__*` directives' JSON
//! arguments; a directive of a join kind whose arguments do not fit its
//! record is an error, and errors accumulate.

use vstd::prelude::*;

use crate::blueprint::Blueprint;
use crate::blueprint::BlueprintV;
use crate::blueprint::Definition;
use crate::blueprint::DefinitionV;
use crate::blueprint::Directive;
use crate::blueprint::DirectiveV;
use crate::blueprint::DirectiveDefinition;
use crate::blueprint::DirectiveDefinitionV;
use crate::blueprint::EnumTypeDefinition;
use crate::blueprint::EnumValueDefinition;
use crate::blueprint::EnumValueDefinitionV;
use crate::blueprint::FieldDefinition;
use crate::blueprint::FieldDefinitionV;
use crate::blueprint::Graph;
use crate::blueprint::InputFieldDefinition;
use crate::blueprint::InputFieldDefinitionV;
use crate::blueprint::InputObjectTypeDefinition;
use crate::blueprint::InterfaceTypeDefinition;
use crate::blueprint::JoinEnum;
use crate::blueprint::JoinField;
use crate::blueprint::JoinFieldV;
use crate::blueprint::JoinGraph;
use crate::blueprint::JoinGraphV;
use crate::blueprint::JoinImplements;
use crate::blueprint::JoinImplementsV;
use crate::blueprint::JoinType;
use crate::blueprint::JoinTypeV;
use crate::blueprint::JoinUnion;
use crate::blueprint::JoinUnionV;
use crate::blueprint::ObjectTypeDefinition;
use crate::blueprint::ScalarTypeDefinition;
use crate::blueprint::SchemaDefinition;
use crate::blueprint::SchemaDefinitionV;
use crate::blueprint::Type;
use crate::blueprint::TypeV;
use crate::blueprint::UnionTypeDefinition;
use crate::json::Json;
use crate::json::JsonV;
use crate::json::obj_get;
use crate::valid::CauseV;
use crate::valid::Valid;
use crate::valid::ValidationError;
use crate::valid::message_causes;

verus! {

/// The string under `key` in the JSON object `args`: present and a
/// string, present but of another shape, or absent.
pub open spec fn json_str_field(args: JsonV, key: Seq<char>) -> Option<Option<Seq<char>>> {
    match args {
        JsonV::Obj(entries) => match obj_get(entries, key) {
            Option::Some(v) => match v {
                JsonV::Str(s) => Option::Some(Option::Some(s)),
                _ => Option::None,
            },
            Option::None => Option::Some(Option::None),
        },
        _ => Option::None,
    }
}

/// The boolean under `key` in the JSON object `args`.
pub open spec fn json_bool_field(args: JsonV, key: Seq<char>) -> Option<Option<bool>> {
    match args {
        JsonV::Obj(entries) => match obj_get(entries, key) {
            Option::Some(v) => match v {
                JsonV::Bool(b) => Option::Some(Option::Some(b)),
                _ => Option::None,
            },
            Option::None => Option::Some(Option::None),
        },
        _ => Option::None,
    }
}

/// The `join__type` record read from directive arguments, when they fit.
pub open spec fn join_type_of(args: JsonV) -> Option<JoinTypeV> {
    match (
        json_str_field(args, "graph"@),
        json_str_field(args, "key"@),
        json_bool_field(args, "extension"@),
        json_bool_field(args, "resolvable"@),
        json_bool_field(args, "isInterfaceObject"@),
    ) {
        (
            Option::Some(Option::Some(graph)),
            Option::Some(key),
            Option::Some(extension),
            Option::Some(resolvable),
            Option::Some(iio),
        ) => Option::Some(
            JoinTypeV {
                graph,
                key,
                extension: extension == Option::Some(true),
                resolvable: resolvable != Option::Some(false),
                is_interface_object: iio == Option::Some(true),
            },
        ),
        _ => Option::None,
    }
}

/// The `join__field` record read from directive arguments, when they fit.
pub open spec fn join_field_of(args: JsonV) -> Option<JoinFieldV> {
    match (
        json_str_field(args, "graph"@),
        json_str_field(args, "requires"@),
        json_str_field(args, "provides"@),
        json_str_field(args, "type"@),
        json_bool_field(args, "external"@),
        json_str_field(args, "override"@),
        json_bool_field(args, "usedOverridden"@),
    ) {
        (
            Option::Some(graph),
            Option::Some(requires_arg),
            Option::Some(provides),
            Option::Some(type_of),
            Option::Some(external),
            Option::Some(override_of),
            Option::Some(used_overridden),
        ) => Option::Some(
            JoinFieldV {
                graph,
                requires: requires_arg,
                provides,
                type_of,
                external,
                override_of,
                used_overridden,
            },
        ),
        _ => Option::None,
    }
}

/// The `join__implements` record read from directive arguments.
pub open spec fn join_implements_of(args: JsonV) -> Option<JoinImplementsV> {
    match (json_str_field(args, "graph"@), json_str_field(args, "interface"@)) {
        (Option::Some(Option::Some(graph)), Option::Some(Option::Some(interface))) => Option::Some(
            JoinImplementsV { graph, interface },
        ),
        _ => Option::None,
    }
}

/// The `join__unionMember` record read from directive arguments.
pub open spec fn join_union_of(args: JsonV) -> Option<JoinUnionV> {
    match (json_str_field(args, "graph"@), json_str_field(args, "member"@)) {
        (Option::Some(Option::Some(graph)), Option::Some(Option::Some(member))) => Option::Some(
            JoinUnionV { graph, member },
        ),
        _ => Option::None,
    }
}

/// The `join__enumValue` record read from directive arguments.
pub open spec fn join_enum_of(args: JsonV) -> Option<Seq<char>> {
    match json_str_field(args, "graph"@) {
        Option::Some(Option::Some(graph)) => Option::Some(graph),
        _ => Option::None,
    }
}

/// The `join__graph` record read from directive arguments.
pub open spec fn join_graph_of(args: JsonV) -> Option<JoinGraphV> {
    match (json_str_field(args, "name"@), json_str_field(args, "url"@)) {
        (Option::Some(Option::Some(name)), Option::Some(Option::Some(url))) => Option::Some(
            JoinGraphV { name, url },
        ),
        _ => Option::None,
    }
}

/// The message for a join directive whose arguments do not fit its record.
pub open spec fn malformed_message(directive: Seq<char>) -> Seq<char> {
    "malformed arguments for `"@ + directive + "` directive"@
}

/// Reads every directive named `name` into a record via `parser`,
/// accumulating a malformed-arguments error for each one that does not
/// fit.
pub open spec fn extract_joins<X>(
    ds: Seq<DirectiveV>,
    name: Seq<char>,
    parser: spec_fn(JsonV) -> Option<X>,
) -> Result<Seq<X>, Seq<Seq<char>>>
    decreases ds.len(),
{
    if ds.len() == 0 {
        Result::Ok(Seq::<X>::empty())
    } else {
        let rest = extract_joins(ds.drop_first(), name, parser);
        if ds[0].name == name {
            match parser(ds[0].arguments) {
                Option::Some(v) => match rest {
                    Result::Ok(vs) => Result::Ok(seq![v] + vs),
                    Result::Err(msgs) => Result::Err(msgs),
                },
                Option::None => match rest {
                    Result::Ok(_) => Result::Err(seq![malformed_message(name)]),
                    Result::Err(msgs) => Result::Err(seq![malformed_message(name)] + msgs),
                },
            }
        } else {
            rest
        }
    }
}


/// The blueprint type of a type usage: required where not nullable.
pub open spec fn map_type_v(t: crate::sdl::TypeRefNodeV) -> TypeV
    decreases t,
{
    match t {
        crate::sdl::TypeRefNodeV::Named { name, nullable } => TypeV::Named {
            name,
            required: !nullable,
        },
        crate::sdl::TypeRefNodeV::List { inner, nullable } => TypeV::List {
            of_type: Box::new(map_type_v(*inner)),
            non_null: !nullable,
        },
    }
}

/// The message for an argument value with no JSON form.
pub open spec fn convert_message(position: Seq<char>) -> Seq<char> {
    "Could not convert `ConstValue` to `Value` @"@ + position
}

/// The conversion messages of every argument with no JSON form, in order.
pub open spec fn args_errors(args: Seq<(Seq<char>, crate::sdl::ArgValueV)>) -> Seq<Seq<char>>
    decreases args.len(),
{
    if args.len() == 0 {
        Seq::<Seq<char>>::empty()
    } else {
        (match args[0].1.value {
            Option::Some(_) => Seq::<Seq<char>>::empty(),
            Option::None => seq![convert_message(args[0].1.position)],
        }) + args_errors(args.drop_first())
    }
}

/// The argument object built left to right: a later argument of the same
/// name replaces the earlier value in place.
pub open spec fn args_object(
    acc: Seq<(Seq<char>, JsonV)>,
    args: Seq<(Seq<char>, crate::sdl::ArgValueV)>,
) -> Seq<(Seq<char>, JsonV)>
    decreases args.len(),
{
    if args.len() == 0 {
        acc
    } else {
        match args[0].1.value {
            Option::Some(v) => args_object(
                crate::lens::obj_set(acc, args[0].0, v),
                args.drop_first(),
            ),
            Option::None => args_object(acc, args.drop_first()),
        }
    }
}

/// What parsing a directive's arguments yields: one JSON object, or the
/// conversion message of every argument with no JSON form.
pub open spec fn parse_arguments_v(args: Seq<(Seq<char>, crate::sdl::ArgValueV)>) -> Result<
    JsonV,
    Seq<Seq<char>>,
> {
    if args_errors(args).len() == 0 {
        Result::Ok(JsonV::Obj(args_object(Seq::<(Seq<char>, JsonV)>::empty(), args)))
    } else {
        Result::Err(args_errors(args))
    }
}

/// What parsing one applied directive yields.
pub open spec fn parse_directive_v(d: crate::sdl::DirectiveNodeV) -> Result<
    DirectiveV,
    Seq<Seq<char>>,
> {
    match parse_arguments_v(d.arguments) {
        Result::Ok(arguments) => Result::Ok(DirectiveV { name: d.name, arguments }),
        Result::Err(msgs) => Result::Err(msgs),
    }
}

/// Parses each applied directive in order, accumulating every error.
pub open spec fn parse_directives_v(ds: Seq<crate::sdl::DirectiveNodeV>) -> Result<
    Seq<DirectiveV>,
    Seq<Seq<char>>,
>
    decreases ds.len(),
{
    if ds.len() == 0 {
        Result::Ok(Seq::<DirectiveV>::empty())
    } else {
        let head = parse_directive_v(ds[0]);
        let tail = parse_directives_v(ds.drop_first());
        match head {
            Result::Ok(d) => match tail {
                Result::Ok(rest) => Result::Ok(seq![d] + rest),
                Result::Err(msgs) => Result::Err(msgs),
            },
            Result::Err(ms) => match tail {
                Result::Ok(_) => Result::Err(ms),
                Result::Err(msgs) => Result::Err(ms + msgs),
            },
        }
    }
}

/// What parsing a schema definition yields.
pub open spec fn parse_schema_v(sn: crate::sdl::SchemaNodeV) -> Result<
    SchemaDefinitionV,
    Seq<Seq<char>>,
> {
    match parse_directives_v(sn.directives) {
        Result::Ok(directives) => Result::Ok(
            SchemaDefinitionV {
                query: sn.query,
                mutation: sn.mutation,
                subscription: sn.subscription,
                directives,
            },
        ),
        Result::Err(msgs) => Result::Err(msgs),
    }
}

/// What parsing an input value yields: its directives and default value
/// parsed — both sides' errors kept — and its field metadata extracted.
pub open spec fn parse_input_field_v(iv: crate::sdl::InputValueNodeV) -> Result<
    InputFieldDefinitionV,
    Seq<Seq<char>>,
> {
    let directives = parse_directives_v(iv.directives);
    let default_value = match iv.default_value {
        Option::Some(a) => match a.value {
            Option::Some(v) => Result::Ok(Option::Some(v)),
            Option::None => Result::Err(seq![convert_message(a.position)]),
        },
        Option::None => Result::Ok(Option::<JsonV>::None),
    };
    match (directives, default_value) {
        (Result::Ok(ds), Result::Ok(dv)) => match extract_joins(
            ds,
            "join__field"@,
            |args: JsonV| join_field_of(args),
        ) {
            Result::Ok(join_fields) => Result::Ok(
                InputFieldDefinitionV {
                    name: iv.name,
                    of_type: map_type_v(iv.ty),
                    default_value: dv,
                    description: iv.description,
                    join_fields,
                },
            ),
            Result::Err(msgs) => Result::Err(msgs),
        },
        (Result::Ok(_), Result::Err(m2)) => Result::Err(m2),
        (Result::Err(m1), Result::Ok(_)) => Result::Err(m1),
        (Result::Err(m1), Result::Err(m2)) => Result::Err(m1 + m2),
    }
}

/// Parses each input value in order, accumulating every error.
pub open spec fn parse_input_fields_v(ivs: Seq<crate::sdl::InputValueNodeV>) -> Result<
    Seq<InputFieldDefinitionV>,
    Seq<Seq<char>>,
>
    decreases ivs.len(),
{
    if ivs.len() == 0 {
        Result::Ok(Seq::<InputFieldDefinitionV>::empty())
    } else {
        let head = parse_input_field_v(ivs[0]);
        let tail = parse_input_fields_v(ivs.drop_first());
        match head {
            Result::Ok(v) => match tail {
                Result::Ok(rest) => Result::Ok(seq![v] + rest),
                Result::Err(msgs) => Result::Err(msgs),
            },
            Result::Err(ms) => match tail {
                Result::Ok(_) => Result::Err(ms),
                Result::Err(msgs) => Result::Err(ms + msgs),
            },
        }
    }
}

/// What parsing an output field yields: its arguments and directives
/// parsed — both sides' errors kept — and its field metadata extracted.
pub open spec fn parse_field_v(f: crate::sdl::FieldNodeV) -> Result<
    FieldDefinitionV,
    Seq<Seq<char>>,
> {
    let args = parse_input_fields_v(f.arguments);
    let directives = parse_directives_v(f.directives);
    match (args, directives) {
        (Result::Ok(a), Result::Ok(ds)) => match extract_joins(
            ds,
            "join__field"@,
            |j: JsonV| join_field_of(j),
        ) {
            Result::Ok(join_fields) => Result::Ok(
                FieldDefinitionV {
                    name: f.name,
                    args: a,
                    of_type: map_type_v(f.ty),
                    directives: ds,
                    description: f.description,
                    join_fields,
                },
            ),
            Result::Err(msgs) => Result::Err(msgs),
        },
        (Result::Ok(_), Result::Err(m2)) => Result::Err(m2),
        (Result::Err(m1), Result::Ok(_)) => Result::Err(m1),
        (Result::Err(m1), Result::Err(m2)) => Result::Err(m1 + m2),
    }
}

/// Parses each output field in order, accumulating every error.
pub open spec fn parse_fields_v(fs: Seq<crate::sdl::FieldNodeV>) -> Result<
    Seq<FieldDefinitionV>,
    Seq<Seq<char>>,
>
    decreases fs.len(),
{
    if fs.len() == 0 {
        Result::Ok(Seq::<FieldDefinitionV>::empty())
    } else {
        let head = parse_field_v(fs[0]);
        let tail = parse_fields_v(fs.drop_first());
        match head {
            Result::Ok(v) => match tail {
                Result::Ok(rest) => Result::Ok(seq![v] + rest),
                Result::Err(msgs) => Result::Err(msgs),
            },
            Result::Err(ms) => match tail {
                Result::Ok(_) => Result::Err(ms),
                Result::Err(msgs) => Result::Err(ms + msgs),
            },
        }
    }
}

/// What parsing one enum value yields.
pub open spec fn parse_enum_value_v(ev: crate::sdl::EnumValueNodeV) -> Result<
    EnumValueDefinitionV,
    Seq<Seq<char>>,
> {
    match parse_directives_v(ev.directives) {
        Result::Ok(ds) => match extract_joins(ds, "join__enumValue"@, |j: JsonV| join_enum_of(j)) {
            Result::Ok(join_enums) => Result::Ok(
                EnumValueDefinitionV {
                    description: ev.description,
                    name: ev.name,
                    directives: ds,
                    join_enums,
                },
            ),
            Result::Err(msgs) => Result::Err(msgs),
        },
        Result::Err(msgs) => Result::Err(msgs),
    }
}

/// Parses each enum value in order, accumulating every error.
pub open spec fn parse_enum_values_v(evs: Seq<crate::sdl::EnumValueNodeV>) -> Result<
    Seq<EnumValueDefinitionV>,
    Seq<Seq<char>>,
>
    decreases evs.len(),
{
    if evs.len() == 0 {
        Result::Ok(Seq::<EnumValueDefinitionV>::empty())
    } else {
        let head = parse_enum_value_v(evs[0]);
        let tail = parse_enum_values_v(evs.drop_first());
        match head {
            Result::Ok(v) => match tail {
                Result::Ok(rest) => Result::Ok(seq![v] + rest),
                Result::Err(msgs) => Result::Err(msgs),
            },
            Result::Err(ms) => match tail {
                Result::Ok(_) => Result::Err(ms),
                Result::Err(msgs) => Result::Err(ms + msgs),
            },
        }
    }
}

/// What parsing one type definition yields, by kind.
pub open spec fn parse_type_v(t: crate::sdl::TypeNodeV) -> Result<DefinitionV, Seq<Seq<char>>> {
    let directives = parse_directives_v(t.directives);
    match t.kind {
        crate::sdl::TypeKindNodeV::Scalar => match directives {
            Result::Ok(ds) => match extract_joins(ds, "join__type"@, |j: JsonV| join_type_of(j)) {
                Result::Ok(join_types) => Result::Ok(
                    DefinitionV::Scalar(
                        crate::blueprint::ScalarTypeDefinitionV {
                            name: t.name,
                            directives: ds,
                            description: t.description,
                            join_types,
                        },
                    ),
                ),
                Result::Err(msgs) => Result::Err(msgs),
            },
            Result::Err(msgs) => Result::Err(msgs),
        },
        crate::sdl::TypeKindNodeV::Object { implements, fields } => {
            let fs = parse_fields_v(fields);
            match (directives, fs) {
                (Result::Ok(ds), Result::Ok(flds)) => match (
                    extract_joins(ds, "join__type"@, |j: JsonV| join_type_of(j)),
                    extract_joins(ds, "join__implements"@, |j: JsonV| join_implements_of(j)),
                ) {
                    (Result::Ok(join_types), Result::Ok(join_implements)) => Result::Ok(
                        DefinitionV::Object(
                            crate::blueprint::ObjectTypeDefinitionV {
                                name: t.name,
                                fields: flds,
                                description: t.description,
                                implements,
                                join_types,
                                join_implements,
                            },
                        ),
                    ),
                    (Result::Err(m1), Result::Ok(_)) => Result::Err(m1),
                    (Result::Ok(_), Result::Err(m2)) => Result::Err(m2),
                    (Result::Err(m1), Result::Err(m2)) => Result::Err(m1 + m2),
                },
                (Result::Ok(_), Result::Err(m2)) => Result::Err(m2),
                (Result::Err(m1), Result::Ok(_)) => Result::Err(m1),
                (Result::Err(m1), Result::Err(m2)) => Result::Err(m1 + m2),
            }
        },
        crate::sdl::TypeKindNodeV::Interface { fields } => {
            let fs = parse_fields_v(fields);
            match (directives, fs) {
                (Result::Ok(ds), Result::Ok(flds)) => match (
                    extract_joins(ds, "join__type"@, |j: JsonV| join_type_of(j)),
                    extract_joins(ds, "join__implements"@, |j: JsonV| join_implements_of(j)),
                ) {
                    (Result::Ok(join_types), Result::Ok(join_implements)) => Result::Ok(
                        DefinitionV::Interface(
                            crate::blueprint::InterfaceTypeDefinitionV {
                                name: t.name,
                                fields: flds,
                                description: t.description,
                                join_types,
                                join_implements,
                            },
                        ),
                    ),
                    (Result::Err(m1), Result::Ok(_)) => Result::Err(m1),
                    (Result::Ok(_), Result::Err(m2)) => Result::Err(m2),
                    (Result::Err(m1), Result::Err(m2)) => Result::Err(m1 + m2),
                },
                (Result::Ok(_), Result::Err(m2)) => Result::Err(m2),
                (Result::Err(m1), Result::Ok(_)) => Result::Err(m1),
                (Result::Err(m1), Result::Err(m2)) => Result::Err(m1 + m2),
            }
        },
        crate::sdl::TypeKindNodeV::Union { members } => match directives {
            Result::Ok(ds) => match (
                extract_joins(ds, "join__type"@, |j: JsonV| join_type_of(j)),
                extract_joins(ds, "join__unionMember"@, |j: JsonV| join_union_of(j)),
            ) {
                (Result::Ok(join_types), Result::Ok(join_unions)) => Result::Ok(
                    DefinitionV::Union(
                        crate::blueprint::UnionTypeDefinitionV {
                            name: t.name,
                            directives: ds,
                            description: t.description,
                            types: members,
                            join_types,
                            join_unions,
                        },
                    ),
                ),
                (Result::Err(m1), Result::Ok(_)) => Result::Err(m1),
                (Result::Ok(_), Result::Err(m2)) => Result::Err(m2),
                (Result::Err(m1), Result::Err(m2)) => Result::Err(m1 + m2),
            },
            Result::Err(msgs) => Result::Err(msgs),
        },
        crate::sdl::TypeKindNodeV::Enum { values } => {
            let evs = parse_enum_values_v(values);
            match (directives, evs) {
                (Result::Ok(ds), Result::Ok(enum_values)) => match extract_joins(
                    ds,
                    "join__type"@,
                    |j: JsonV| join_type_of(j),
                ) {
                    Result::Ok(join_types) => Result::Ok(
                        DefinitionV::Enum(
                            crate::blueprint::EnumTypeDefinitionV {
                                name: t.name,
                                directives: ds,
                                description: t.description,
                                enum_values,
                                join_types,
                            },
                        ),
                    ),
                    Result::Err(msgs) => Result::Err(msgs),
                },
                (Result::Ok(_), Result::Err(m2)) => Result::Err(m2),
                (Result::Err(m1), Result::Ok(_)) => Result::Err(m1),
                (Result::Err(m1), Result::Err(m2)) => Result::Err(m1 + m2),
            }
        },
        crate::sdl::TypeKindNodeV::InputObject { fields } => {
            let fs = parse_input_fields_v(fields);
            match (directives, fs) {
                (Result::Ok(ds), Result::Ok(flds)) => match extract_joins(
                    ds,
                    "join__type"@,
                    |j: JsonV| join_type_of(j),
                ) {
                    Result::Ok(join_types) => Result::Ok(
                        DefinitionV::InputObject(
                            crate::blueprint::InputObjectTypeDefinitionV {
                                name: t.name,
                                fields: flds,
                                description: t.description,
                                join_types,
                            },
                        ),
                    ),
                    Result::Err(msgs) => Result::Err(msgs),
                },
                (Result::Ok(_), Result::Err(m2)) => Result::Err(m2),
                (Result::Err(m1), Result::Ok(_)) => Result::Err(m1),
                (Result::Err(m1), Result::Err(m2)) => Result::Err(m1 + m2),
            }
        },
    }
}

/// What parsing one directive definition yields.
pub open spec fn parse_directive_definition_v(d: crate::sdl::DirectiveDefNodeV) -> Result<
    DirectiveDefinitionV,
    Seq<Seq<char>>,
> {
    match parse_input_fields_v(d.arguments) {
        Result::Ok(arguments) => Result::Ok(
            DirectiveDefinitionV {
                name: d.name,
                description: d.description,
                arguments,
                repeatable: d.repeatable,
                locations: d.locations,
            },
        ),
        Result::Err(msgs) => Result::Err(msgs),
    }
}


/// The message for a type name declared twice.
pub open spec fn dup_type_message(name: Seq<char>, position: Seq<char>) -> Seq<char> {
    "The type `"@ + name + "` has been already defined, "@ + position
}

/// The message for a directive name defined twice.
pub open spec fn dup_directive_message(name: Seq<char>, position: Seq<char>) -> Seq<char> {
    "The directive `"@ + name + "` has been defined twice,"@ + position
}

/// The message for a registry with no `join__Graph` enumeration.
pub open spec fn missing_registry_message() -> Seq<char> {
    "The `join__Graph` enumeration is missing"@
}

/// The first value under `key` among `entries`.
pub open spec fn assoc_lookup<X>(entries: Seq<(Seq<char>, X)>, key: Seq<char>) -> Option<X>
    decreases entries.len(),
{
    if entries.len() == 0 {
        Option::None
    } else if entries[0].0 == key {
        Option::Some(entries[0].1)
    } else {
        assoc_lookup(entries.drop_first(), key)
    }
}

/// `entries` with the first entry under `key` replaced by `v`.
pub open spec fn assoc_replace<X>(entries: Seq<(Seq<char>, X)>, key: Seq<char>, v: X) -> Seq<(
    Seq<char>,
    X,
)>
    decreases entries.len(),
{
    if entries.len() == 0 {
        entries
    } else if entries[0].0 == key {
        seq![(key, v)] + entries.drop_first()
    } else {
        seq![entries[0]] + assoc_replace(entries.drop_first(), key, v)
    }
}

/// The running state of the single pass: the merged schema, and the type
/// and directive definitions keyed by name in first-occurrence order.
#[verifier::ext_equal]
pub struct ParseState {
    pub schema: Result<SchemaDefinitionV, Seq<Seq<char>>>,
    pub defs: Seq<(Seq<char>, Result<DefinitionV, Seq<Seq<char>>>)>,
    pub dirs: Seq<(Seq<char>, Result<DirectiveDefinitionV, Seq<Seq<char>>>)>,
}

/// The state before any definition was seen.
pub open spec fn init_state() -> ParseState {
    ParseState {
        schema: Result::Ok(
            SchemaDefinitionV {
                query: Option::None,
                mutation: Option::None,
                subscription: Option::None,
                directives: Seq::<DirectiveV>::empty(),
            },
        ),
        defs: Seq::empty(),
        dirs: Seq::empty(),
    }
}

/// Merges one more schema definition into the accumulated one: the first
/// binding of each root wins and directives append; errors of both sides
/// are kept.
pub open spec fn merge_schema(
    acc: Result<SchemaDefinitionV, Seq<Seq<char>>>,
    sn: crate::sdl::SchemaNodeV,
) -> Result<SchemaDefinitionV, Seq<Seq<char>>> {
    match (acc, parse_schema_v(sn)) {
        (Result::Ok(a), Result::Ok(b)) => Result::Ok(
            SchemaDefinitionV {
                query: if a.query is None {
                    b.query
                } else {
                    a.query
                },
                mutation: if a.mutation is None {
                    b.mutation
                } else {
                    a.mutation
                },
                subscription: if a.subscription is None {
                    b.subscription
                } else {
                    a.subscription
                },
                directives: a.directives + b.directives,
            },
        ),
        (Result::Err(m1), Result::Ok(_)) => Result::Err(m1),
        (Result::Ok(_), Result::Err(m2)) => Result::Err(m2),
        (Result::Err(m1), Result::Err(m2)) => Result::Err(m1 + m2),
    }
}

/// The entry a repeated type name leaves behind: its error list with the
/// duplication message appended; the repeated definition itself is
/// dropped.
pub open spec fn dup_def_entry(
    existing: Result<DefinitionV, Seq<Seq<char>>>,
    name: Seq<char>,
    position: Seq<char>,
) -> Result<DefinitionV, Seq<Seq<char>>> {
    match existing {
        Result::Ok(_) => Result::Err(seq![dup_type_message(name, position)]),
        Result::Err(m) => Result::Err(m + seq![dup_type_message(name, position)]),
    }
}

/// The entry a repeated directive name leaves behind.
pub open spec fn dup_dir_entry(
    existing: Result<DirectiveDefinitionV, Seq<Seq<char>>>,
    name: Seq<char>,
    position: Seq<char>,
) -> Result<DirectiveDefinitionV, Seq<Seq<char>>> {
    match existing {
        Result::Ok(_) => Result::Err(seq![dup_directive_message(name, position)]),
        Result::Err(m) => Result::Err(m + seq![dup_directive_message(name, position)]),
    }
}

/// One step of the pass.
pub open spec fn fold_item(st: ParseState, item: crate::sdl::SchemaItemV) -> ParseState {
    match item {
        crate::sdl::SchemaItemV::Schema(sn) => ParseState {
            schema: merge_schema(st.schema, sn),
            ..st
        },
        crate::sdl::SchemaItemV::Type(tn) => match assoc_lookup(st.defs, tn.name) {
            Option::Some(existing) => ParseState {
                defs: assoc_replace(
                    st.defs,
                    tn.name,
                    dup_def_entry(existing, tn.name, tn.position),
                ),
                ..st
            },
            Option::None => ParseState {
                defs: st.defs.push((tn.name, parse_type_v(tn))),
                ..st
            },
        },
        crate::sdl::SchemaItemV::Directive(dn) => match assoc_lookup(st.dirs, dn.name) {
            Option::Some(existing) => ParseState {
                dirs: assoc_replace(
                    st.dirs,
                    dn.name,
                    dup_dir_entry(existing, dn.name, dn.position),
                ),
                ..st
            },
            Option::None => ParseState {
                dirs: st.dirs.push((dn.name, parse_directive_definition_v(dn))),
                ..st
            },
        },
    }
}

/// The whole pass, in document order.
pub open spec fn fold_items(st: ParseState, items: Seq<crate::sdl::SchemaItemV>) -> ParseState
    decreases items.len(),
{
    if items.len() == 0 {
        st
    } else {
        fold_items(fold_item(st, items[0]), items.drop_first())
    }
}

/// Collects the values of the keyed entries in order, accumulating every
/// error of every entry.
pub open spec fn collect_values<X>(entries: Seq<(Seq<char>, Result<X, Seq<Seq<char>>>)>) -> Result<
    Seq<X>,
    Seq<Seq<char>>,
>
    decreases entries.len(),
{
    if entries.len() == 0 {
        Result::Ok(Seq::<X>::empty())
    } else {
        let tail = collect_values(entries.drop_first());
        match entries[0].1 {
            Result::Ok(v) => match tail {
                Result::Ok(vs) => Result::Ok(seq![v] + vs),
                Result::Err(msgs) => Result::Err(msgs),
            },
            Result::Err(ms) => match tail {
                Result::Ok(_) => Result::Err(ms),
                Result::Err(msgs) => Result::Err(ms + msgs),
            },
        }
    }
}

/// The first enumeration named `join__Graph` among the definitions.
pub open spec fn find_registry_enum(defs: Seq<DefinitionV>) -> Option<
    crate::blueprint::EnumTypeDefinitionV,
>
    decreases defs.len(),
{
    if defs.len() == 0 {
        Option::None
    } else {
        match defs[0] {
            DefinitionV::Enum(e) => if e.name == "join__Graph"@ {
                Option::Some(e)
            } else {
                find_registry_enum(defs.drop_first())
            },
            _ => find_registry_enum(defs.drop_first()),
        }
    }
}

/// The registry read off the enumeration's values: every `join__graph`
/// record of every value, in order.
pub open spec fn registry_values(evs: Seq<EnumValueDefinitionV>) -> Result<
    Seq<JoinGraphV>,
    Seq<Seq<char>>,
>
    decreases evs.len(),
{
    if evs.len() == 0 {
        Result::Ok(Seq::<JoinGraphV>::empty())
    } else {
        let head = extract_joins(evs[0].directives, "join__graph"@, |j: JsonV| join_graph_of(j));
        let tail = registry_values(evs.drop_first());
        match head {
            Result::Ok(v) => match tail {
                Result::Ok(vs) => Result::Ok(v + vs),
                Result::Err(msgs) => Result::Err(msgs),
            },
            Result::Err(ms) => match tail {
                Result::Ok(_) => Result::Err(ms),
                Result::Err(msgs) => Result::Err(ms + msgs),
            },
        }
    }
}

/// The subgraph registry of the collected definitions.
pub open spec fn join_graphs_result(
    defs: Result<Seq<DefinitionV>, Seq<Seq<char>>>,
) -> Result<Seq<JoinGraphV>, Seq<Seq<char>>> {
    match defs {
        Result::Err(m) => Result::Err(m),
        Result::Ok(ds) => match find_registry_enum(ds) {
            Option::None => Result::Err(seq![missing_registry_message()]),
            Option::Some(e) => registry_values(e.enum_values),
        },
    }
}

/// The error messages of a result, or none.
pub open spec fn errs_of<X>(r: Result<X, Seq<Seq<char>>>) -> Seq<Seq<char>> {
    match r {
        Result::Ok(_) => Seq::<Seq<char>>::empty(),
        Result::Err(m) => m,
    }
}

/// What parsing a whole document yields: the blueprint, or every error of
/// the schema, the definitions, the directive definitions and the
/// registry, in that order. A failed definition list is reported again
/// through the registry, which depends on it.
pub open spec fn parse_model(doc: crate::sdl::DocumentV) -> Result<BlueprintV, Seq<Seq<char>>> {
    let st = fold_items(init_state(), doc.definitions);
    let defs = collect_values(st.defs);
    let dirs = collect_values(st.dirs);
    let jg = join_graphs_result(defs);
    if st.schema is Ok && defs is Ok && dirs is Ok && jg is Ok {
        Result::Ok(
            BlueprintV {
                definitions: defs->Ok_0,
                schema: st.schema->Ok_0,
                directives: dirs->Ok_0,
                join_graphs: jg->Ok_0,
            },
        )
    } else {
        Result::Err(errs_of(st.schema) + errs_of(defs) + errs_of(dirs) + errs_of(jg))
    }
}


/// One extraction step: what one directive contributes.
pub open spec fn extract_one<X>(
    d: DirectiveV,
    name: Seq<char>,
    parser: spec_fn(JsonV) -> Option<X>,
) -> Result<Seq<X>, Seq<Seq<char>>> {
    if d.name == name {
        match parser(d.arguments) {
            Option::Some(v) => Result::Ok(seq![v]),
            Option::None => Result::Err(seq![malformed_message(name)]),
        }
    } else {
        Result::Ok(Seq::<X>::empty())
    }
}

/// Joins two accumulating extraction results: values concatenate when
/// both succeed, and otherwise every message of both sides is kept.
pub open spec fn acc_join<X>(
    a: Result<Seq<X>, Seq<Seq<char>>>,
    b: Result<Seq<X>, Seq<Seq<char>>>,
) -> Result<Seq<X>, Seq<Seq<char>>> {
    match (a, b) {
        (Result::Ok(va), Result::Ok(vb)) => Result::Ok(va + vb),
        (Result::Ok(_), Result::Err(mb)) => Result::Err(mb),
        (Result::Err(ma), Result::Ok(_)) => Result::Err(ma),
        (Result::Err(ma), Result::Err(mb)) => Result::Err(ma + mb),
    }
}

proof fn lemma_extract_push<X>(
    ds: Seq<DirectiveV>,
    x: DirectiveV,
    name: Seq<char>,
    parser: spec_fn(JsonV) -> Option<X>,
)
    ensures
        extract_joins(ds.push(x), name, parser) == acc_join(
            extract_joins(ds, name, parser),
            extract_one(x, name, parser),
        ),
    decreases ds.len(),
{
    if ds.len() == 0 {
        assert(ds.push(x).drop_first() =~= ds);
        assert(ds.push(x)[0] == x);
        match acc_join(extract_joins(ds, name, parser), extract_one(x, name, parser)) {
            Result::Ok(v) => {
                assert(extract_joins(ds.push(x), name, parser) matches Result::Ok(w) && w =~= v);
            },
            Result::Err(m) => {
                assert(extract_joins(ds.push(x), name, parser) matches Result::Err(w) && w =~= m);
            },
        }
    } else {
        assert(ds.push(x).drop_first() =~= ds.drop_first().push(x));
        lemma_extract_push(ds.drop_first(), x, name, parser);
        assert(ds.push(x)[0] == ds[0]);
        match acc_join(extract_joins(ds, name, parser), extract_one(x, name, parser)) {
            Result::Ok(v) => {
                assert(extract_joins(ds.push(x), name, parser) matches Result::Ok(w) && w =~= v);
            },
            Result::Err(m) => {
                assert(extract_joins(ds.push(x), name, parser) matches Result::Err(w) && w =~= m);
            },
        }
    }
}

/// Reads the string argument under `key`, telling a missing key from a
/// value of the wrong shape.
fn json_get_str(args: &Json, key: &str) -> (r: Result<Option<String>, ()>)
    ensures
        match json_str_field(args@, key@) {
            Option::Some(o) => r matches Ok(ro) && opt_str_view(ro) == o,
            Option::None => r is Err,
        },
{
    match args {
        Json::Obj(_) => match args.get_key(key) {
            Some(v) => match v {
                Json::Str(s) => Ok(Some(s.clone())),
                _ => Err(()),
            },
            None => Ok(None),
        },
        _ => Err(()),
    }
}

/// The view of an optional owned string.
pub open spec fn opt_str_view(o: Option<String>) -> Option<Seq<char>> {
    match o {
        Option::Some(s) => Option::Some(s@),
        Option::None => Option::None,
    }
}

/// Reads the boolean argument under `key`.
fn json_get_bool(args: &Json, key: &str) -> (r: Result<Option<bool>, ()>)
    ensures
        match json_bool_field(args@, key@) {
            Option::Some(o) => r matches Ok(ro) && ro == o,
            Option::None => r is Err,
        },
{
    match args {
        Json::Obj(_) => match args.get_key(key) {
            Some(v) => match v {
                Json::Bool(b) => Ok(Some(*b)),
                _ => Err(()),
            },
            None => Ok(None),
        },
        _ => Err(()),
    }
}

/// Reads a `join__type` record out of directive arguments.
fn read_join_type(args: &Json) -> (r: Option<JoinType>)
    ensures
        match join_type_of(args@) {
            Option::Some(v) => r matches Some(jt) && jt@ == v,
            Option::None => r is None,
        },
{
    let graph = match json_get_str(args, "graph") {
        Ok(Some(g)) => g,
        _ => {
            return None;
        },
    };
    let key = match json_get_str(args, "key") {
        Ok(k) => k,
        _ => {
            return None;
        },
    };
    let extension = match json_get_bool(args, "extension") {
        Ok(b) => b,
        _ => {
            return None;
        },
    };
    let resolvable = match json_get_bool(args, "resolvable") {
        Ok(b) => b,
        _ => {
            return None;
        },
    };
    let iio = match json_get_bool(args, "isInterfaceObject") {
        Ok(b) => b,
        _ => {
            return None;
        },
    };
    Some(
        JoinType {
            graph: Graph::new(graph.as_str()),
            key,
            extension: extension == Some(true),
            resolvable: resolvable != Some(false),
            is_interface_object: iio == Some(true),
        },
    )
}

/// Reads a `join__field` record out of directive arguments.
fn read_join_field(args: &Json) -> (r: Option<JoinField>)
    ensures
        match join_field_of(args@) {
            Option::Some(v) => r matches Some(jf) && jf@ == v,
            Option::None => r is None,
        },
{
    let graph = match json_get_str(args, "graph") {
        Ok(g) => g,
        _ => {
            return None;
        },
    };
    let requires_arg = match json_get_str(args, "requires") {
        Ok(v) => v,
        _ => {
            return None;
        },
    };
    let provides = match json_get_str(args, "provides") {
        Ok(v) => v,
        _ => {
            return None;
        },
    };
    let type_of = match json_get_str(args, "type") {
        Ok(v) => v,
        _ => {
            return None;
        },
    };
    let external = match json_get_bool(args, "external") {
        Ok(v) => v,
        _ => {
            return None;
        },
    };
    let override_of = match json_get_str(args, "override") {
        Ok(v) => v,
        _ => {
            return None;
        },
    };
    let used_overridden = match json_get_bool(args, "usedOverridden") {
        Ok(v) => v,
        _ => {
            return None;
        },
    };
    Some(
        JoinField {
            graph: match graph {
                Some(g) => Some(Graph::new(g.as_str())),
                None => None,
            },
            requires: requires_arg,
            provides,
            type_of,
            external,
            override_of,
            used_overridden,
        },
    )
}

/// Reads a `join__implements` record out of directive arguments.
fn read_join_implements(args: &Json) -> (r: Option<JoinImplements>)
    ensures
        match join_implements_of(args@) {
            Option::Some(v) => r matches Some(ji) && ji@ == v,
            Option::None => r is None,
        },
{
    let graph = match json_get_str(args, "graph") {
        Ok(Some(g)) => g,
        _ => {
            return None;
        },
    };
    let interface = match json_get_str(args, "interface") {
        Ok(Some(i)) => i,
        _ => {
            return None;
        },
    };
    Some(JoinImplements { graph: Graph::new(graph.as_str()), interface })
}

/// Reads a `join__unionMember` record out of directive arguments.
fn read_join_union(args: &Json) -> (r: Option<JoinUnion>)
    ensures
        match join_union_of(args@) {
            Option::Some(v) => r matches Some(ju) && ju@ == v,
            Option::None => r is None,
        },
{
    let graph = match json_get_str(args, "graph") {
        Ok(Some(g)) => g,
        _ => {
            return None;
        },
    };
    let member = match json_get_str(args, "member") {
        Ok(Some(m)) => m,
        _ => {
            return None;
        },
    };
    Some(JoinUnion { graph: Graph::new(graph.as_str()), member })
}

/// Reads a `join__enumValue` record out of directive arguments.
fn read_join_enum(args: &Json) -> (r: Option<JoinEnum>)
    ensures
        match join_enum_of(args@) {
            Option::Some(v) => r matches Some(je) && je@ == v,
            Option::None => r is None,
        },
{
    let graph = match json_get_str(args, "graph") {
        Ok(Some(g)) => g,
        _ => {
            return None;
        },
    };
    Some(JoinEnum { graph: Graph::new(graph.as_str()) })
}

/// Reads a `join__graph` record out of directive arguments.
fn read_join_graph(args: &Json) -> (r: Option<JoinGraph>)
    ensures
        match join_graph_of(args@) {
            Option::Some(v) => r matches Some(jg) && jg@ == v,
            Option::None => r is None,
        },
{
    let name = match json_get_str(args, "name") {
        Ok(Some(n)) => n,
        _ => {
            return None;
        },
    };
    let url = match json_get_str(args, "url") {
        Ok(Some(u)) => u,
        _ => {
            return None;
        },
    };
    Some(JoinGraph { name: Graph::new(name.as_str()), url })
}


/// Extracts every `join__type` record from the directives, accumulating a
/// malformed-arguments error for each one that does not fit.
#[verifier::loop_isolation(false)]
fn extract_join_types(ds: &Vec<Directive>) -> (r: Result<Vec<JoinType>, ValidationError<String>>)
    ensures
        match extract_joins(
            ds@.map_values(|d: Directive| d@),
            "join__type"@,
            |j: JsonV| join_type_of(j),
        ) {
            Result::Ok(vs) => r matches Ok(out) && out@.map_values(|x: JoinType| x@) == vs,
            Result::Err(msgs) => r matches Err(e) && message_causes(e@, msgs),
        },
{
    let ghost dsv = ds@.map_values(|d: Directive| d@);
    let ghost parser = |j: JsonV| join_type_of(j);
    let wanted = String::from_str("join__type");
    let n = ds.len();
    let mut out: Vec<JoinType> = Vec::new();
    let mut errs: ValidationError<String> = ValidationError::empty();
    let mut failed = false;
    let mut i: usize = 0;
    proof {
        assert(dsv.take(0) =~= Seq::<DirectiveV>::empty());
        assert(out@.map_values(|x: JoinType| x@) =~= Seq::<JoinTypeV>::empty());
    }
    while i < n
        invariant
            i <= n,
            n == ds@.len(),
            dsv == ds@.map_values(|d: Directive| d@),
            dsv.len() == n,
            wanted@ == "join__type"@,
            !failed ==> errs@ == Seq::<CauseV<String>>::empty(),
            !failed ==> extract_joins(dsv.take(i as int), "join__type"@, parser) == Result::<
                Seq<JoinTypeV>,
                Seq<Seq<char>>,
            >::Ok(out@.map_values(|x: JoinType| x@)),
            failed ==> (extract_joins(dsv.take(i as int), "join__type"@, parser) matches Result::Err(
                msgs,
            ) && message_causes(errs@, msgs)),
        decreases n - i,
    {
        proof {
            assert(dsv[i as int] == ds@[i as int]@);
            assert(dsv.take(i as int).push(dsv[i as int]) =~= dsv.take(i + 1));
            lemma_extract_push(dsv.take(i as int), dsv[i as int], "join__type"@, parser);
        }
        let ghost old_errs = errs@;
        if ds[i].name == wanted {
            match read_join_type(&ds[i].arguments) {
                Some(v) => {
                    if !failed {
                        let ghost before = out@.map_values(|x: JoinType| x@);
                        out.push(v);
                        proof {
                            assert(out@.map_values(|x: JoinType| x@) =~= before.push(
                                out@[out@.len() - 1]@,
                            ));
                            assert(before + seq![out@[out@.len() - 1]@] =~= out@.map_values(
                                |x: JoinType| x@,
                            ));
                        }
                    }
                },
                None => {
                    let msg = String::from_str("malformed arguments for `").concat(
                        "join__type",
                    ).concat("` directive");
                    failed = true;
                    errs = errs.append(msg);
                },
            }
        }
        proof {
            if failed {
                let msgs = extract_joins(dsv.take(i + 1), "join__type"@, parser)->Err_0;
                assert forall|k: int| 0 <= k < errs@.len() implies (#[trigger] errs@[k]).trace.len()
                    == 0 && errs@[k].message@ == msgs[k] by {
                    if k < old_errs.len() {
                        assert(errs@[k] == old_errs[k]);
                    }
                }
            }
        }
        i = i + 1;
    }
    proof {
        assert(dsv.take(n as int) =~= dsv);
    }
    if failed {
        Err(errs)
    } else {
        Ok(out)
    }
}

/// Extracts every `join__field` record from the directives, accumulating a
/// malformed-arguments error for each one that does not fit.
#[verifier::loop_isolation(false)]
fn extract_join_fields(ds: &Vec<Directive>) -> (r: Result<Vec<JoinField>, ValidationError<String>>)
    ensures
        match extract_joins(
            ds@.map_values(|d: Directive| d@),
            "join__field"@,
            |j: JsonV| join_field_of(j),
        ) {
            Result::Ok(vs) => r matches Ok(out) && out@.map_values(|x: JoinField| x@) == vs,
            Result::Err(msgs) => r matches Err(e) && message_causes(e@, msgs),
        },
{
    let ghost dsv = ds@.map_values(|d: Directive| d@);
    let ghost parser = |j: JsonV| join_field_of(j);
    let wanted = String::from_str("join__field");
    let n = ds.len();
    let mut out: Vec<JoinField> = Vec::new();
    let mut errs: ValidationError<String> = ValidationError::empty();
    let mut failed = false;
    let mut i: usize = 0;
    proof {
        assert(dsv.take(0) =~= Seq::<DirectiveV>::empty());
        assert(out@.map_values(|x: JoinField| x@) =~= Seq::<JoinFieldV>::empty());
    }
    while i < n
        invariant
            i <= n,
            n == ds@.len(),
            dsv == ds@.map_values(|d: Directive| d@),
            dsv.len() == n,
            wanted@ == "join__field"@,
            !failed ==> errs@ == Seq::<CauseV<String>>::empty(),
            !failed ==> extract_joins(dsv.take(i as int), "join__field"@, parser) == Result::<
                Seq<JoinFieldV>,
                Seq<Seq<char>>,
            >::Ok(out@.map_values(|x: JoinField| x@)),
            failed ==> (extract_joins(dsv.take(i as int), "join__field"@, parser) matches Result::Err(
                msgs,
            ) && message_causes(errs@, msgs)),
        decreases n - i,
    {
        proof {
            assert(dsv[i as int] == ds@[i as int]@);
            assert(dsv.take(i as int).push(dsv[i as int]) =~= dsv.take(i + 1));
            lemma_extract_push(dsv.take(i as int), dsv[i as int], "join__field"@, parser);
        }
        let ghost old_errs = errs@;
        if ds[i].name == wanted {
            match read_join_field(&ds[i].arguments) {
                Some(v) => {
                    if !failed {
                        let ghost before = out@.map_values(|x: JoinField| x@);
                        out.push(v);
                        proof {
                            assert(out@.map_values(|x: JoinField| x@) =~= before.push(
                                out@[out@.len() - 1]@,
                            ));
                            assert(before + seq![out@[out@.len() - 1]@] =~= out@.map_values(
                                |x: JoinField| x@,
                            ));
                        }
                    }
                },
                None => {
                    let msg = String::from_str("malformed arguments for `").concat(
                        "join__field",
                    ).concat("` directive");
                    failed = true;
                    errs = errs.append(msg);
                },
            }
        }
        proof {
            if failed {
                let msgs = extract_joins(dsv.take(i + 1), "join__field"@, parser)->Err_0;
                assert forall|k: int| 0 <= k < errs@.len() implies (#[trigger] errs@[k]).trace.len()
                    == 0 && errs@[k].message@ == msgs[k] by {
                    if k < old_errs.len() {
                        assert(errs@[k] == old_errs[k]);
                    }
                }
            }
        }
        i = i + 1;
    }
    proof {
        assert(dsv.take(n as int) =~= dsv);
    }
    if failed {
        Err(errs)
    } else {
        Ok(out)
    }
}

/// Extracts every `join__implements` record from the directives, accumulating a
/// malformed-arguments error for each one that does not fit.
#[verifier::loop_isolation(false)]
fn extract_join_implements(ds: &Vec<Directive>) -> (r: Result<Vec<JoinImplements>, ValidationError<String>>)
    ensures
        match extract_joins(
            ds@.map_values(|d: Directive| d@),
            "join__implements"@,
            |j: JsonV| join_implements_of(j),
        ) {
            Result::Ok(vs) => r matches Ok(out) && out@.map_values(|x: JoinImplements| x@) == vs,
            Result::Err(msgs) => r matches Err(e) && message_causes(e@, msgs),
        },
{
    let ghost dsv = ds@.map_values(|d: Directive| d@);
    let ghost parser = |j: JsonV| join_implements_of(j);
    let wanted = String::from_str("join__implements");
    let n = ds.len();
    let mut out: Vec<JoinImplements> = Vec::new();
    let mut errs: ValidationError<String> = ValidationError::empty();
    let mut failed = false;
    let mut i: usize = 0;
    proof {
        assert(dsv.take(0) =~= Seq::<DirectiveV>::empty());
        assert(out@.map_values(|x: JoinImplements| x@) =~= Seq::<JoinImplementsV>::empty());
    }
    while i < n
        invariant
            i <= n,
            n == ds@.len(),
            dsv == ds@.map_values(|d: Directive| d@),
            dsv.len() == n,
            wanted@ == "join__implements"@,
            !failed ==> errs@ == Seq::<CauseV<String>>::empty(),
            !failed ==> extract_joins(dsv.take(i as int), "join__implements"@, parser) == Result::<
                Seq<JoinImplementsV>,
                Seq<Seq<char>>,
            >::Ok(out@.map_values(|x: JoinImplements| x@)),
            failed ==> (extract_joins(dsv.take(i as int), "join__implements"@, parser) matches Result::Err(
                msgs,
            ) && message_causes(errs@, msgs)),
        decreases n - i,
    {
        proof {
            assert(dsv[i as int] == ds@[i as int]@);
            assert(dsv.take(i as int).push(dsv[i as int]) =~= dsv.take(i + 1));
            lemma_extract_push(dsv.take(i as int), dsv[i as int], "join__implements"@, parser);
        }
        let ghost old_errs = errs@;
        if ds[i].name == wanted {
            match read_join_implements(&ds[i].arguments) {
                Some(v) => {
                    if !failed {
                        let ghost before = out@.map_values(|x: JoinImplements| x@);
                        out.push(v);
                        proof {
                            assert(out@.map_values(|x: JoinImplements| x@) =~= before.push(
                                out@[out@.len() - 1]@,
                            ));
                            assert(before + seq![out@[out@.len() - 1]@] =~= out@.map_values(
                                |x: JoinImplements| x@,
                            ));
                        }
                    }
                },
                None => {
                    let msg = String::from_str("malformed arguments for `").concat(
                        "join__implements",
                    ).concat("` directive");
                    failed = true;
                    errs = errs.append(msg);
                },
            }
        }
        proof {
            if failed {
                let msgs = extract_joins(dsv.take(i + 1), "join__implements"@, parser)->Err_0;
                assert forall|k: int| 0 <= k < errs@.len() implies (#[trigger] errs@[k]).trace.len()
                    == 0 && errs@[k].message@ == msgs[k] by {
                    if k < old_errs.len() {
                        assert(errs@[k] == old_errs[k]);
                    }
                }
            }
        }
        i = i + 1;
    }
    proof {
        assert(dsv.take(n as int) =~= dsv);
    }
    if failed {
        Err(errs)
    } else {
        Ok(out)
    }
}

/// Extracts every `join__unionMember` record from the directives, accumulating a
/// malformed-arguments error for each one that does not fit.
#[verifier::loop_isolation(false)]
fn extract_join_unions(ds: &Vec<Directive>) -> (r: Result<Vec<JoinUnion>, ValidationError<String>>)
    ensures
        match extract_joins(
            ds@.map_values(|d: Directive| d@),
            "join__unionMember"@,
            |j: JsonV| join_union_of(j),
        ) {
            Result::Ok(vs) => r matches Ok(out) && out@.map_values(|x: JoinUnion| x@) == vs,
            Result::Err(msgs) => r matches Err(e) && message_causes(e@, msgs),
        },
{
    let ghost dsv = ds@.map_values(|d: Directive| d@);
    let ghost parser = |j: JsonV| join_union_of(j);
    let wanted = String::from_str("join__unionMember");
    let n = ds.len();
    let mut out: Vec<JoinUnion> = Vec::new();
    let mut errs: ValidationError<String> = ValidationError::empty();
    let mut failed = false;
    let mut i: usize = 0;
    proof {
        assert(dsv.take(0) =~= Seq::<DirectiveV>::empty());
        assert(out@.map_values(|x: JoinUnion| x@) =~= Seq::<JoinUnionV>::empty());
    }
    while i < n
        invariant
            i <= n,
            n == ds@.len(),
            dsv == ds@.map_values(|d: Directive| d@),
            dsv.len() == n,
            wanted@ == "join__unionMember"@,
            !failed ==> errs@ == Seq::<CauseV<String>>::empty(),
            !failed ==> extract_joins(dsv.take(i as int), "join__unionMember"@, parser) == Result::<
                Seq<JoinUnionV>,
                Seq<Seq<char>>,
            >::Ok(out@.map_values(|x: JoinUnion| x@)),
            failed ==> (extract_joins(dsv.take(i as int), "join__unionMember"@, parser) matches Result::Err(
                msgs,
            ) && message_causes(errs@, msgs)),
        decreases n - i,
    {
        proof {
            assert(dsv[i as int] == ds@[i as int]@);
            assert(dsv.take(i as int).push(dsv[i as int]) =~= dsv.take(i + 1));
            lemma_extract_push(dsv.take(i as int), dsv[i as int], "join__unionMember"@, parser);
        }
        let ghost old_errs = errs@;
        if ds[i].name == wanted {
            match read_join_union(&ds[i].arguments) {
                Some(v) => {
                    if !failed {
                        let ghost before = out@.map_values(|x: JoinUnion| x@);
                        out.push(v);
                        proof {
                            assert(out@.map_values(|x: JoinUnion| x@) =~= before.push(
                                out@[out@.len() - 1]@,
                            ));
                            assert(before + seq![out@[out@.len() - 1]@] =~= out@.map_values(
                                |x: JoinUnion| x@,
                            ));
                        }
                    }
                },
                None => {
                    let msg = String::from_str("malformed arguments for `").concat(
                        "join__unionMember",
                    ).concat("` directive");
                    failed = true;
                    errs = errs.append(msg);
                },
            }
        }
        proof {
            if failed {
                let msgs = extract_joins(dsv.take(i + 1), "join__unionMember"@, parser)->Err_0;
                assert forall|k: int| 0 <= k < errs@.len() implies (#[trigger] errs@[k]).trace.len()
                    == 0 && errs@[k].message@ == msgs[k] by {
                    if k < old_errs.len() {
                        assert(errs@[k] == old_errs[k]);
                    }
                }
            }
        }
        i = i + 1;
    }
    proof {
        assert(dsv.take(n as int) =~= dsv);
    }
    if failed {
        Err(errs)
    } else {
        Ok(out)
    }
}

/// Extracts every `join__enumValue` record from the directives, accumulating a
/// malformed-arguments error for each one that does not fit.
#[verifier::loop_isolation(false)]
fn extract_join_enums(ds: &Vec<Directive>) -> (r: Result<Vec<JoinEnum>, ValidationError<String>>)
    ensures
        match extract_joins(
            ds@.map_values(|d: Directive| d@),
            "join__enumValue"@,
            |j: JsonV| join_enum_of(j),
        ) {
            Result::Ok(vs) => r matches Ok(out) && out@.map_values(|x: JoinEnum| x@) == vs,
            Result::Err(msgs) => r matches Err(e) && message_causes(e@, msgs),
        },
{
    let ghost dsv = ds@.map_values(|d: Directive| d@);
    let ghost parser = |j: JsonV| join_enum_of(j);
    let wanted = String::from_str("join__enumValue");
    let n = ds.len();
    let mut out: Vec<JoinEnum> = Vec::new();
    let mut errs: ValidationError<String> = ValidationError::empty();
    let mut failed = false;
    let mut i: usize = 0;
    proof {
        assert(dsv.take(0) =~= Seq::<DirectiveV>::empty());
        assert(out@.map_values(|x: JoinEnum| x@) =~= Seq::<Seq<char>>::empty());
    }
    while i < n
        invariant
            i <= n,
            n == ds@.len(),
            dsv == ds@.map_values(|d: Directive| d@),
            dsv.len() == n,
            wanted@ == "join__enumValue"@,
            !failed ==> errs@ == Seq::<CauseV<String>>::empty(),
            !failed ==> extract_joins(dsv.take(i as int), "join__enumValue"@, parser) == Result::<
                Seq<Seq<char>>,
                Seq<Seq<char>>,
            >::Ok(out@.map_values(|x: JoinEnum| x@)),
            failed ==> (extract_joins(dsv.take(i as int), "join__enumValue"@, parser) matches Result::Err(
                msgs,
            ) && message_causes(errs@, msgs)),
        decreases n - i,
    {
        proof {
            assert(dsv[i as int] == ds@[i as int]@);
            assert(dsv.take(i as int).push(dsv[i as int]) =~= dsv.take(i + 1));
            lemma_extract_push(dsv.take(i as int), dsv[i as int], "join__enumValue"@, parser);
        }
        let ghost old_errs = errs@;
        if ds[i].name == wanted {
            match read_join_enum(&ds[i].arguments) {
                Some(v) => {
                    if !failed {
                        let ghost before = out@.map_values(|x: JoinEnum| x@);
                        out.push(v);
                        proof {
                            assert(out@.map_values(|x: JoinEnum| x@) =~= before.push(
                                out@[out@.len() - 1]@,
                            ));
                            assert(before + seq![out@[out@.len() - 1]@] =~= out@.map_values(
                                |x: JoinEnum| x@,
                            ));
                        }
                    }
                },
                None => {
                    let msg = String::from_str("malformed arguments for `").concat(
                        "join__enumValue",
                    ).concat("` directive");
                    failed = true;
                    errs = errs.append(msg);
                },
            }
        }
        proof {
            if failed {
                let msgs = extract_joins(dsv.take(i + 1), "join__enumValue"@, parser)->Err_0;
                assert forall|k: int| 0 <= k < errs@.len() implies (#[trigger] errs@[k]).trace.len()
                    == 0 && errs@[k].message@ == msgs[k] by {
                    if k < old_errs.len() {
                        assert(errs@[k] == old_errs[k]);
                    }
                }
            }
        }
        i = i + 1;
    }
    proof {
        assert(dsv.take(n as int) =~= dsv);
    }
    if failed {
        Err(errs)
    } else {
        Ok(out)
    }
}

/// Extracts every `join__graph` record from the directives, accumulating a
/// malformed-arguments error for each one that does not fit.
#[verifier::loop_isolation(false)]
fn extract_join_graphs(ds: &Vec<Directive>) -> (r: Result<Vec<JoinGraph>, ValidationError<String>>)
    ensures
        match extract_joins(
            ds@.map_values(|d: Directive| d@),
            "join__graph"@,
            |j: JsonV| join_graph_of(j),
        ) {
            Result::Ok(vs) => r matches Ok(out) && out@.map_values(|x: JoinGraph| x@) == vs,
            Result::Err(msgs) => r matches Err(e) && message_causes(e@, msgs),
        },
{
    let ghost dsv = ds@.map_values(|d: Directive| d@);
    let ghost parser = |j: JsonV| join_graph_of(j);
    let wanted = String::from_str("join__graph");
    let n = ds.len();
    let mut out: Vec<JoinGraph> = Vec::new();
    let mut errs: ValidationError<String> = ValidationError::empty();
    let mut failed = false;
    let mut i: usize = 0;
    proof {
        assert(dsv.take(0) =~= Seq::<DirectiveV>::empty());
        assert(out@.map_values(|x: JoinGraph| x@) =~= Seq::<JoinGraphV>::empty());
    }
    while i < n
        invariant
            i <= n,
            n == ds@.len(),
            dsv == ds@.map_values(|d: Directive| d@),
            dsv.len() == n,
            wanted@ == "join__graph"@,
            !failed ==> errs@ == Seq::<CauseV<String>>::empty(),
            !failed ==> extract_joins(dsv.take(i as int), "join__graph"@, parser) == Result::<
                Seq<JoinGraphV>,
                Seq<Seq<char>>,
            >::Ok(out@.map_values(|x: JoinGraph| x@)),
            failed ==> (extract_joins(dsv.take(i as int), "join__graph"@, parser) matches Result::Err(
                msgs,
            ) && message_causes(errs@, msgs)),
        decreases n - i,
    {
        proof {
            assert(dsv[i as int] == ds@[i as int]@);
            assert(dsv.take(i as int).push(dsv[i as int]) =~= dsv.take(i + 1));
            lemma_extract_push(dsv.take(i as int), dsv[i as int], "join__graph"@, parser);
        }
        let ghost old_errs = errs@;
        if ds[i].name == wanted {
            match read_join_graph(&ds[i].arguments) {
                Some(v) => {
                    if !failed {
                        let ghost before = out@.map_values(|x: JoinGraph| x@);
                        out.push(v);
                        proof {
                            assert(out@.map_values(|x: JoinGraph| x@) =~= before.push(
                                out@[out@.len() - 1]@,
                            ));
                            assert(before + seq![out@[out@.len() - 1]@] =~= out@.map_values(
                                |x: JoinGraph| x@,
                            ));
                        }
                    }
                },
                None => {
                    let msg = String::from_str("malformed arguments for `").concat(
                        "join__graph",
                    ).concat("` directive");
                    failed = true;
                    errs = errs.append(msg);
                },
            }
        }
        proof {
            if failed {
                let msgs = extract_joins(dsv.take(i + 1), "join__graph"@, parser)->Err_0;
                assert forall|k: int| 0 <= k < errs@.len() implies (#[trigger] errs@[k]).trace.len()
                    == 0 && errs@[k].message@ == msgs[k] by {
                    if k < old_errs.len() {
                        assert(errs@[k] == old_errs[k]);
                    }
                }
            }
        }
        i = i + 1;
    }
    proof {
        assert(dsv.take(n as int) =~= dsv);
    }
    if failed {
        Err(errs)
    } else {
        Ok(out)
    }
}


/// A singleton or failed accumulation.
pub open spec fn lift_one<X>(r: Result<X, Seq<Seq<char>>>) -> Result<Seq<X>, Seq<Seq<char>>> {
    match r {
        Result::Ok(v) => Result::Ok(seq![v]),
        Result::Err(m) => Result::Err(m),
    }
}

/// Inserts `value` under `key` in an argument object being built:
/// replaces the first entry of that key, or appends.
#[verifier::loop_isolation(false)]
fn obj_insert(entries: &mut Vec<(String, Json)>, key: String, value: Json)
    ensures
        crate::json::entries_view(final(entries)@) == crate::lens::obj_set(
            crate::json::entries_view(old(entries)@),
            key@,
            value@,
        ),
{
    let ghost ev = crate::json::entries_view(entries@);
    let ghost kv = key@;
    let ghost vv = value@;
    let n = entries.len();
    let mut i: usize = 0;
    proof {
        crate::json::lemma_entries_view(entries@);
        assert(ev.skip(0) =~= ev);
        assert(ev.take(0) + crate::lens::obj_set(ev, kv, vv) =~= crate::lens::obj_set(
            ev,
            kv,
            vv,
        ));
    }
    while i < n
        invariant
            i <= n,
            n == entries@.len(),
            ev == crate::json::entries_view(entries@),
            kv == key@,
            forall|j: int| 0 <= j < i ==> (#[trigger] entries@[j]).0@ != kv,
            crate::lens::obj_set(ev, kv, vv) == ev.take(i as int) + crate::lens::obj_set(
                ev.skip(i as int),
                kv,
                vv,
            ),
        decreases n - i,
    {
        proof {
            crate::json::lemma_entries_view(entries@);
            assert(ev[i as int] == (entries@[i as int].0@, entries@[i as int].1@));
            assert(ev.skip(i as int)[0] == ev[i as int]);
        }
        if entries[i].0 == key {
            let ghost before = ev;
            entries[i] = (key, value);
            proof {
                crate::json::lemma_entries_view(entries@);
                assert(crate::json::entries_view(entries@) =~= before.update(
                    i as int,
                    (kv, vv),
                ));
                assert(crate::lens::obj_set(before.skip(i as int), kv, vv) == seq![(kv, vv)]
                    + before.skip(i as int).drop_first());
                assert(before.take(i as int) + (seq![(kv, vv)] + before.skip(
                    i as int,
                ).drop_first()) =~= before.update(i as int, (kv, vv)));
            }
            return ;
        }
        proof {
            assert(ev.skip(i as int).drop_first() =~= ev.skip(i + 1));
            assert(ev.take(i as int).push(ev[i as int]) =~= ev.take(i + 1));
            assert(ev.take(i as int) + (seq![ev[i as int]] + crate::lens::obj_set(
                ev.skip(i + 1),
                kv,
                vv,
            )) =~= ev.take(i + 1) + crate::lens::obj_set(ev.skip(i + 1), kv, vv));
        }
        i = i + 1;
    }
    proof {
        assert(ev.skip(n as int) =~= Seq::<(Seq<char>, JsonV)>::empty());
    }
    let ghost oldvec = entries@;
    entries.push((key, value));
    proof {
        crate::json::lemma_entries_view(oldvec);
        crate::json::lemma_entries_view(entries@);
        assert(crate::json::entries_view(entries@) =~= ev.take(n as int) + seq![(kv, vv)]);
    }
}

/// Parses a directive's arguments into one JSON object, accumulating the
/// conversion message of every argument with no JSON form.
#[verifier::loop_isolation(false)]
fn parse_arguments_exec(arguments: Vec<(String, crate::sdl::ArgValue)>) -> (r: Result<
    Json,
    ValidationError<String>,
>)
    ensures
        match parse_arguments_v(
            arguments@.map_values(|kv: (String, crate::sdl::ArgValue)| (kv.0@, kv.1@)),
        ) {
            Result::Ok(j) => r matches Ok(rj) && rj@ == j,
            Result::Err(msgs) => r matches Err(e) && message_causes(e@, msgs),
        },
{
    let ghost argsv = arguments@.map_values(
        |kv: (String, crate::sdl::ArgValue)| (kv.0@, kv.1@),
    );
    let n = arguments.len();
    let mut rest = arguments;
    let mut out: Vec<(String, Json)> = Vec::new();
    let mut errs: ValidationError<String> = ValidationError::empty();
    let mut failed = false;
    let mut i: usize = 0;
    proof {
        assert(argsv.skip(0) =~= argsv);
        assert(crate::json::entries_view(out@) =~= Seq::<(Seq<char>, JsonV)>::empty());
        assert(errs@ =~= Seq::<CauseV<String>>::empty());
    }
    while rest.len() > 0
        invariant
            rest@.len() <= n,
            n == argsv.len(),
            argsv.len() - rest@.len() >= 0,
            forall|j: int|
                0 <= j < rest@.len() ==> (#[trigger] rest@[j]).0@ == argsv[argsv.len()
                    - rest@.len() + j].0 && rest@[j].1@ == argsv[argsv.len() - rest@.len()
                    + j].1,
            args_errors(argsv) == errs@.map_values(|c: CauseV<String>| c.message@) + args_errors(
                argsv.skip(argsv.len() - rest@.len()),
            ),
            forall|k: int| 0 <= k < errs@.len() ==> (#[trigger] errs@[k]).trace.len() == 0,
            failed == (errs@.len() > 0),
            !failed ==> args_object(Seq::<(Seq<char>, JsonV)>::empty(), argsv) == args_object(
                crate::json::entries_view(out@),
                argsv.skip(argsv.len() - rest@.len()),
            ),
        decreases rest@.len(),
    {
        let ghost done = argsv.len() - rest@.len();
        proof {
            assert(argsv.skip(done)[0] == argsv[done]);
            assert(argsv.skip(done).drop_first() =~= argsv.skip(done + 1));
        }
        let (name, arg) = rest.remove(0);
        proof {
            assert(name@ == argsv[done].0);
            assert(arg@ == argsv[done].1);
        }
        match arg.value {
            Some(v) => {
                if !failed {
                    obj_insert(&mut out, name, v);
                }
            },
            None => {
                let msg = String::from_str("Could not convert `ConstValue` to `Value` @").concat(
                    arg.position.as_str(),
                );
                let ghost before = errs@;
                failed = true;
                errs = errs.append(msg);
                proof {
                    assert(errs@.map_values(|c: CauseV<String>| c.message@) =~= before.map_values(
                        |c: CauseV<String>| c.message@,
                    ).push(convert_message(argsv[done].1.position)));
                }
            },
        }
        proof {
            if !failed {
                assert(errs@.map_values(|c: CauseV<String>| c.message@) =~= Seq::<
                    Seq<char>,
                >::empty());
            }
        }
    }
    proof {
        assert(argsv.skip(0) =~= argsv);
        assert(argsv.skip(argsv.len() as int) =~= Seq::<(Seq<char>, crate::sdl::ArgValueV)>::empty());
        assert(args_errors(argsv) =~= errs@.map_values(|c: CauseV<String>| c.message@));
    }
    if failed {
        proof {
            assert(message_causes(errs@, args_errors(argsv)));
        }
        Err(errs)
    } else {
        let r = Json::Obj(out);
        proof {
            assert(args_errors(argsv).len() == 0);
        }
        Ok(r)
    }
}

/// Parses one applied directive.
fn parse_directive_exec(d: crate::sdl::DirectiveNode) -> (r: Result<
    Directive,
    ValidationError<String>,
>)
    ensures
        match parse_directive_v(d@) {
            Result::Ok(dv) => r matches Ok(rd) && rd@ == dv,
            Result::Err(msgs) => r matches Err(e) && message_causes(e@, msgs),
        },
{
    let crate::sdl::DirectiveNode { name, arguments } = d;
    match parse_arguments_exec(arguments) {
        Ok(args) => Ok(Directive { name, arguments: args }),
        Err(e) => Err(e),
    }
}


proof fn lemma_parse_directives_push(items: Seq<crate::sdl::DirectiveNodeV>, x: crate::sdl::DirectiveNodeV)
    ensures
        parse_directives_v(items.push(x)) == acc_join(parse_directives_v(items), lift_one(parse_directive_v(x))),
    decreases items.len(),
{
    if items.len() == 0 {
        assert(items.push(x).drop_first() =~= items);
        assert(items.push(x)[0] == x);
        match acc_join(parse_directives_v(items), lift_one(parse_directive_v(x))) {
            Result::Ok(v) => {
                assert(parse_directives_v(items.push(x)) matches Result::Ok(w) && w =~= v);
            },
            Result::Err(m) => {
                assert(parse_directives_v(items.push(x)) matches Result::Err(w) && w =~= m);
            },
        }
    } else {
        assert(items.push(x).drop_first() =~= items.drop_first().push(x));
        lemma_parse_directives_push(items.drop_first(), x);
        assert(items.push(x)[0] == items[0]);
        match acc_join(parse_directives_v(items), lift_one(parse_directive_v(x))) {
            Result::Ok(v) => {
                assert(parse_directives_v(items.push(x)) matches Result::Ok(w) && w =~= v);
            },
            Result::Err(m) => {
                assert(parse_directives_v(items.push(x)) matches Result::Err(w) && w =~= m);
            },
        }
    }
}

/// Parses each item in order, accumulating every error.
#[verifier::loop_isolation(false)]
fn parse_directives_exec(items: Vec<crate::sdl::DirectiveNode>) -> (r: Result<Vec<Directive>, ValidationError<String>>)
    ensures
        match parse_directives_v(items@.map_values(|n: crate::sdl::DirectiveNode| n@)) {
            Result::Ok(vs) => r matches Ok(out) && out@.map_values(|v: Directive| v@) == vs,
            Result::Err(msgs) => r matches Err(e) && message_causes(e@, msgs),
        },
{
    let ghost itemsv = items@.map_values(|n: crate::sdl::DirectiveNode| n@);
    let n = items.len();
    let mut rest = items;
    let mut out: Vec<Directive> = Vec::new();
    let mut errs: ValidationError<String> = ValidationError::empty();
    let mut failed = false;
    proof {
        assert(itemsv.take(0) =~= Seq::<crate::sdl::DirectiveNodeV>::empty());
        assert(out@.map_values(|v: Directive| v@) =~= Seq::<DirectiveV>::empty());
        assert(errs@ =~= Seq::<CauseV<String>>::empty());
    }
    while rest.len() > 0
        invariant
            rest@.len() <= n,
            n == itemsv.len(),
            forall|j: int|
                0 <= j < rest@.len() ==> (#[trigger] rest@[j])@ == itemsv[itemsv.len()
                    - rest@.len() + j],
            !failed ==> errs@ == Seq::<CauseV<String>>::empty(),
            !failed ==> parse_directives_v(itemsv.take(itemsv.len() - rest@.len())) == Result::<
                Seq<DirectiveV>,
                Seq<Seq<char>>,
            >::Ok(out@.map_values(|v: Directive| v@)),
            failed ==> (parse_directives_v(itemsv.take(itemsv.len() - rest@.len())) matches Result::Err(msgs)
                && message_causes(errs@, msgs)),
        decreases rest@.len(),
    {
        let ghost done = itemsv.len() - rest@.len();
        proof {
            assert(itemsv.take(done).push(itemsv[done]) =~= itemsv.take(done + 1));
            lemma_parse_directives_push(itemsv.take(done), itemsv[done]);
        }
        let x = rest.remove(0);
        proof {
            assert(x@ == itemsv[done]);
        }
        let ghost old_errs = errs@;
        match parse_directive_exec(x) {
            Ok(v) => {
                if !failed {
                    let ghost before = out@.map_values(|w: Directive| w@);
                    out.push(v);
                    proof {
                        assert(out@.map_values(|w: Directive| w@) =~= before.push(
                            out@[out@.len() - 1]@,
                        ));
                        assert(before + seq![out@[out@.len() - 1]@] =~= out@.map_values(
                            |w: Directive| w@,
                        ));
                    }
                }
            },
            Err(e) => {
                let ghost ev = e@;
                let was_failed = failed;
                failed = true;
                errs = errs.combine(e);
                proof {
                    if !was_failed {
                        assert(errs@ =~= ev);
                    }
                }
            },
        }
        proof {
            if failed {
                let msgs = parse_directives_v(itemsv.take(done + 1))->Err_0;
                assert forall|k: int| 0 <= k < errs@.len() implies (#[trigger] errs@[k]).trace.len()
                    == 0 && errs@[k].message@ == msgs[k] by {
                    if k < old_errs.len() {
                        assert(errs@[k] == old_errs[k]);
                    }
                }
            }
        }
    }
    proof {
        assert(itemsv.take(itemsv.len() as int) =~= itemsv);
    }
    if failed {
        Err(errs)
    } else {
        Ok(out)
    }
}

proof fn lemma_parse_input_fields_push(items: Seq<crate::sdl::InputValueNodeV>, x: crate::sdl::InputValueNodeV)
    ensures
        parse_input_fields_v(items.push(x)) == acc_join(parse_input_fields_v(items), lift_one(parse_input_field_v(x))),
    decreases items.len(),
{
    if items.len() == 0 {
        assert(items.push(x).drop_first() =~= items);
        assert(items.push(x)[0] == x);
        match acc_join(parse_input_fields_v(items), lift_one(parse_input_field_v(x))) {
            Result::Ok(v) => {
                assert(parse_input_fields_v(items.push(x)) matches Result::Ok(w) && w =~= v);
            },
            Result::Err(m) => {
                assert(parse_input_fields_v(items.push(x)) matches Result::Err(w) && w =~= m);
            },
        }
    } else {
        assert(items.push(x).drop_first() =~= items.drop_first().push(x));
        lemma_parse_input_fields_push(items.drop_first(), x);
        assert(items.push(x)[0] == items[0]);
        match acc_join(parse_input_fields_v(items), lift_one(parse_input_field_v(x))) {
            Result::Ok(v) => {
                assert(parse_input_fields_v(items.push(x)) matches Result::Ok(w) && w =~= v);
            },
            Result::Err(m) => {
                assert(parse_input_fields_v(items.push(x)) matches Result::Err(w) && w =~= m);
            },
        }
    }
}

/// Parses each item in order, accumulating every error.
#[verifier::loop_isolation(false)]
fn parse_input_fields_exec(items: Vec<crate::sdl::InputValueNode>) -> (r: Result<Vec<InputFieldDefinition>, ValidationError<String>>)
    ensures
        match parse_input_fields_v(items@.map_values(|n: crate::sdl::InputValueNode| n@)) {
            Result::Ok(vs) => r matches Ok(out) && out@.map_values(|v: InputFieldDefinition| v@) == vs,
            Result::Err(msgs) => r matches Err(e) && message_causes(e@, msgs),
        },
{
    let ghost itemsv = items@.map_values(|n: crate::sdl::InputValueNode| n@);
    let n = items.len();
    let mut rest = items;
    let mut out: Vec<InputFieldDefinition> = Vec::new();
    let mut errs: ValidationError<String> = ValidationError::empty();
    let mut failed = false;
    proof {
        assert(itemsv.take(0) =~= Seq::<crate::sdl::InputValueNodeV>::empty());
        assert(out@.map_values(|v: InputFieldDefinition| v@) =~= Seq::<InputFieldDefinitionV>::empty());
        assert(errs@ =~= Seq::<CauseV<String>>::empty());
    }
    while rest.len() > 0
        invariant
            rest@.len() <= n,
            n == itemsv.len(),
            forall|j: int|
                0 <= j < rest@.len() ==> (#[trigger] rest@[j])@ == itemsv[itemsv.len()
                    - rest@.len() + j],
            !failed ==> errs@ == Seq::<CauseV<String>>::empty(),
            !failed ==> parse_input_fields_v(itemsv.take(itemsv.len() - rest@.len())) == Result::<
                Seq<InputFieldDefinitionV>,
                Seq<Seq<char>>,
            >::Ok(out@.map_values(|v: InputFieldDefinition| v@)),
            failed ==> (parse_input_fields_v(itemsv.take(itemsv.len() - rest@.len())) matches Result::Err(msgs)
                && message_causes(errs@, msgs)),
        decreases rest@.len(),
    {
        let ghost done = itemsv.len() - rest@.len();
        proof {
            assert(itemsv.take(done).push(itemsv[done]) =~= itemsv.take(done + 1));
            lemma_parse_input_fields_push(itemsv.take(done), itemsv[done]);
        }
        let x = rest.remove(0);
        proof {
            assert(x@ == itemsv[done]);
        }
        let ghost old_errs = errs@;
        match parse_input_field_exec(x) {
            Ok(v) => {
                if !failed {
                    let ghost before = out@.map_values(|w: InputFieldDefinition| w@);
                    out.push(v);
                    proof {
                        assert(out@.map_values(|w: InputFieldDefinition| w@) =~= before.push(
                            out@[out@.len() - 1]@,
                        ));
                        assert(before + seq![out@[out@.len() - 1]@] =~= out@.map_values(
                            |w: InputFieldDefinition| w@,
                        ));
                    }
                }
            },
            Err(e) => {
                let ghost ev = e@;
                let was_failed = failed;
                failed = true;
                errs = errs.combine(e);
                proof {
                    if !was_failed {
                        assert(errs@ =~= ev);
                    }
                }
            },
        }
        proof {
            if failed {
                let msgs = parse_input_fields_v(itemsv.take(done + 1))->Err_0;
                assert forall|k: int| 0 <= k < errs@.len() implies (#[trigger] errs@[k]).trace.len()
                    == 0 && errs@[k].message@ == msgs[k] by {
                    if k < old_errs.len() {
                        assert(errs@[k] == old_errs[k]);
                    }
                }
            }
        }
    }
    proof {
        assert(itemsv.take(itemsv.len() as int) =~= itemsv);
    }
    if failed {
        Err(errs)
    } else {
        Ok(out)
    }
}

proof fn lemma_parse_fields_push(items: Seq<crate::sdl::FieldNodeV>, x: crate::sdl::FieldNodeV)
    ensures
        parse_fields_v(items.push(x)) == acc_join(parse_fields_v(items), lift_one(parse_field_v(x))),
    decreases items.len(),
{
    if items.len() == 0 {
        assert(items.push(x).drop_first() =~= items);
        assert(items.push(x)[0] == x);
        match acc_join(parse_fields_v(items), lift_one(parse_field_v(x))) {
            Result::Ok(v) => {
                assert(parse_fields_v(items.push(x)) matches Result::Ok(w) && w =~= v);
            },
            Result::Err(m) => {
                assert(parse_fields_v(items.push(x)) matches Result::Err(w) && w =~= m);
            },
        }
    } else {
        assert(items.push(x).drop_first() =~= items.drop_first().push(x));
        lemma_parse_fields_push(items.drop_first(), x);
        assert(items.push(x)[0] == items[0]);
        match acc_join(parse_fields_v(items), lift_one(parse_field_v(x))) {
            Result::Ok(v) => {
                assert(parse_fields_v(items.push(x)) matches Result::Ok(w) && w =~= v);
            },
            Result::Err(m) => {
                assert(parse_fields_v(items.push(x)) matches Result::Err(w) && w =~= m);
            },
        }
    }
}

/// Parses each item in order, accumulating every error.
#[verifier::loop_isolation(false)]
fn parse_fields_exec(items: Vec<crate::sdl::FieldNode>) -> (r: Result<Vec<FieldDefinition>, ValidationError<String>>)
    ensures
        match parse_fields_v(items@.map_values(|n: crate::sdl::FieldNode| n@)) {
            Result::Ok(vs) => r matches Ok(out) && out@.map_values(|v: FieldDefinition| v@) == vs,
            Result::Err(msgs) => r matches Err(e) && message_causes(e@, msgs),
        },
{
    let ghost itemsv = items@.map_values(|n: crate::sdl::FieldNode| n@);
    let n = items.len();
    let mut rest = items;
    let mut out: Vec<FieldDefinition> = Vec::new();
    let mut errs: ValidationError<String> = ValidationError::empty();
    let mut failed = false;
    proof {
        assert(itemsv.take(0) =~= Seq::<crate::sdl::FieldNodeV>::empty());
        assert(out@.map_values(|v: FieldDefinition| v@) =~= Seq::<FieldDefinitionV>::empty());
        assert(errs@ =~= Seq::<CauseV<String>>::empty());
    }
    while rest.len() > 0
        invariant
            rest@.len() <= n,
            n == itemsv.len(),
            forall|j: int|
                0 <= j < rest@.len() ==> (#[trigger] rest@[j])@ == itemsv[itemsv.len()
                    - rest@.len() + j],
            !failed ==> errs@ == Seq::<CauseV<String>>::empty(),
            !failed ==> parse_fields_v(itemsv.take(itemsv.len() - rest@.len())) == Result::<
                Seq<FieldDefinitionV>,
                Seq<Seq<char>>,
            >::Ok(out@.map_values(|v: FieldDefinition| v@)),
            failed ==> (parse_fields_v(itemsv.take(itemsv.len() - rest@.len())) matches Result::Err(msgs)
                && message_causes(errs@, msgs)),
        decreases rest@.len(),
    {
        let ghost done = itemsv.len() - rest@.len();
        proof {
            assert(itemsv.take(done).push(itemsv[done]) =~= itemsv.take(done + 1));
            lemma_parse_fields_push(itemsv.take(done), itemsv[done]);
        }
        let x = rest.remove(0);
        proof {
            assert(x@ == itemsv[done]);
        }
        let ghost old_errs = errs@;
        match parse_field_exec(x) {
            Ok(v) => {
                if !failed {
                    let ghost before = out@.map_values(|w: FieldDefinition| w@);
                    out.push(v);
                    proof {
                        assert(out@.map_values(|w: FieldDefinition| w@) =~= before.push(
                            out@[out@.len() - 1]@,
                        ));
                        assert(before + seq![out@[out@.len() - 1]@] =~= out@.map_values(
                            |w: FieldDefinition| w@,
                        ));
                    }
                }
            },
            Err(e) => {
                let ghost ev = e@;
                let was_failed = failed;
                failed = true;
                errs = errs.combine(e);
                proof {
                    if !was_failed {
                        assert(errs@ =~= ev);
                    }
                }
            },
        }
        proof {
            if failed {
                let msgs = parse_fields_v(itemsv.take(done + 1))->Err_0;
                assert forall|k: int| 0 <= k < errs@.len() implies (#[trigger] errs@[k]).trace.len()
                    == 0 && errs@[k].message@ == msgs[k] by {
                    if k < old_errs.len() {
                        assert(errs@[k] == old_errs[k]);
                    }
                }
            }
        }
    }
    proof {
        assert(itemsv.take(itemsv.len() as int) =~= itemsv);
    }
    if failed {
        Err(errs)
    } else {
        Ok(out)
    }
}

proof fn lemma_parse_enum_values_push(items: Seq<crate::sdl::EnumValueNodeV>, x: crate::sdl::EnumValueNodeV)
    ensures
        parse_enum_values_v(items.push(x)) == acc_join(parse_enum_values_v(items), lift_one(parse_enum_value_v(x))),
    decreases items.len(),
{
    if items.len() == 0 {
        assert(items.push(x).drop_first() =~= items);
        assert(items.push(x)[0] == x);
        match acc_join(parse_enum_values_v(items), lift_one(parse_enum_value_v(x))) {
            Result::Ok(v) => {
                assert(parse_enum_values_v(items.push(x)) matches Result::Ok(w) && w =~= v);
            },
            Result::Err(m) => {
                assert(parse_enum_values_v(items.push(x)) matches Result::Err(w) && w =~= m);
            },
        }
    } else {
        assert(items.push(x).drop_first() =~= items.drop_first().push(x));
        lemma_parse_enum_values_push(items.drop_first(), x);
        assert(items.push(x)[0] == items[0]);
        match acc_join(parse_enum_values_v(items), lift_one(parse_enum_value_v(x))) {
            Result::Ok(v) => {
                assert(parse_enum_values_v(items.push(x)) matches Result::Ok(w) && w =~= v);
            },
            Result::Err(m) => {
                assert(parse_enum_values_v(items.push(x)) matches Result::Err(w) && w =~= m);
            },
        }
    }
}

/// Parses each item in order, accumulating every error.
#[verifier::loop_isolation(false)]
fn parse_enum_values_exec(items: Vec<crate::sdl::EnumValueNode>) -> (r: Result<Vec<EnumValueDefinition>, ValidationError<String>>)
    ensures
        match parse_enum_values_v(items@.map_values(|n: crate::sdl::EnumValueNode| n@)) {
            Result::Ok(vs) => r matches Ok(out) && out@.map_values(|v: EnumValueDefinition| v@) == vs,
            Result::Err(msgs) => r matches Err(e) && message_causes(e@, msgs),
        },
{
    let ghost itemsv = items@.map_values(|n: crate::sdl::EnumValueNode| n@);
    let n = items.len();
    let mut rest = items;
    let mut out: Vec<EnumValueDefinition> = Vec::new();
    let mut errs: ValidationError<String> = ValidationError::empty();
    let mut failed = false;
    proof {
        assert(itemsv.take(0) =~= Seq::<crate::sdl::EnumValueNodeV>::empty());
        assert(out@.map_values(|v: EnumValueDefinition| v@) =~= Seq::<EnumValueDefinitionV>::empty());
        assert(errs@ =~= Seq::<CauseV<String>>::empty());
    }
    while rest.len() > 0
        invariant
            rest@.len() <= n,
            n == itemsv.len(),
            forall|j: int|
                0 <= j < rest@.len() ==> (#[trigger] rest@[j])@ == itemsv[itemsv.len()
                    - rest@.len() + j],
            !failed ==> errs@ == Seq::<CauseV<String>>::empty(),
            !failed ==> parse_enum_values_v(itemsv.take(itemsv.len() - rest@.len())) == Result::<
                Seq<EnumValueDefinitionV>,
                Seq<Seq<char>>,
            >::Ok(out@.map_values(|v: EnumValueDefinition| v@)),
            failed ==> (parse_enum_values_v(itemsv.take(itemsv.len() - rest@.len())) matches Result::Err(msgs)
                && message_causes(errs@, msgs)),
        decreases rest@.len(),
    {
        let ghost done = itemsv.len() - rest@.len();
        proof {
            assert(itemsv.take(done).push(itemsv[done]) =~= itemsv.take(done + 1));
            lemma_parse_enum_values_push(itemsv.take(done), itemsv[done]);
        }
        let x = rest.remove(0);
        proof {
            assert(x@ == itemsv[done]);
        }
        let ghost old_errs = errs@;
        match parse_enum_value_exec(x) {
            Ok(v) => {
                if !failed {
                    let ghost before = out@.map_values(|w: EnumValueDefinition| w@);
                    out.push(v);
                    proof {
                        assert(out@.map_values(|w: EnumValueDefinition| w@) =~= before.push(
                            out@[out@.len() - 1]@,
                        ));
                        assert(before + seq![out@[out@.len() - 1]@] =~= out@.map_values(
                            |w: EnumValueDefinition| w@,
                        ));
                    }
                }
            },
            Err(e) => {
                let ghost ev = e@;
                let was_failed = failed;
                failed = true;
                errs = errs.combine(e);
                proof {
                    if !was_failed {
                        assert(errs@ =~= ev);
                    }
                }
            },
        }
        proof {
            if failed {
                let msgs = parse_enum_values_v(itemsv.take(done + 1))->Err_0;
                assert forall|k: int| 0 <= k < errs@.len() implies (#[trigger] errs@[k]).trace.len()
                    == 0 && errs@[k].message@ == msgs[k] by {
                    if k < old_errs.len() {
                        assert(errs@[k] == old_errs[k]);
                    }
                }
            }
        }
    }
    proof {
        assert(itemsv.take(itemsv.len() as int) =~= itemsv);
    }
    if failed {
        Err(errs)
    } else {
        Ok(out)
    }
}


proof fn lemma_message_causes_concat(
    c1: Seq<CauseV<String>>,
    m1: Seq<Seq<char>>,
    c2: Seq<CauseV<String>>,
    m2: Seq<Seq<char>>,
)
    requires
        message_causes(c1, m1),
        message_causes(c2, m2),
    ensures
        message_causes(c1 + c2, m1 + m2),
{
    assert forall|k: int| 0 <= k < (c1 + c2).len() implies ((#[trigger] (c1 + c2)[k]).trace.len()
        == 0 && (c1 + c2)[k].message@ == (m1 + m2)[k]) by {
        if k < c1.len() {
            assert((c1 + c2)[k] == c1[k]);
        } else {
            assert((c1 + c2)[k] == c2[k - c1.len()]);
        }
    }
}

/// The blueprint type of a type usage.
fn map_type_exec(t: crate::sdl::TypeRefNode) -> (r: Type)
    ensures
        r@ == map_type_v(t@),
    decreases t,
{
    match t {
        crate::sdl::TypeRefNode::Named { name, nullable } => Type::Named {
            name,
            required: !nullable,
        },
        crate::sdl::TypeRefNode::List { inner, nullable } => Type::List {
            of_type: Box::new(map_type_exec(*inner)),
            non_null: !nullable,
        },
    }
}

/// Parses one input value definition.
fn parse_input_field_exec(iv: crate::sdl::InputValueNode) -> (r: Result<
    InputFieldDefinition,
    ValidationError<String>,
>)
    ensures
        match parse_input_field_v(iv@) {
            Result::Ok(v) => r matches Ok(rv) && rv@ == v,
            Result::Err(msgs) => r matches Err(e) && message_causes(e@, msgs),
        },
{
    let ghost ivv = iv@;
    let crate::sdl::InputValueNode { name, description, ty, default_value, directives } = iv;
    let dirs_r = parse_directives_exec(directives);
    let dv_r: Result<Option<Json>, ValidationError<String>> = match default_value {
        Some(a) => match a.value {
            Some(v) => Ok(Some(v)),
            None => {
                let msg = String::from_str("Could not convert `ConstValue` to `Value` @").concat(
                    a.position.as_str(),
                );
                Err(ValidationError::new(msg))
            },
        },
        None => Ok(None),
    };
    match (dirs_r, dv_r) {
        (Ok(ds), Ok(dv)) => match extract_join_fields(&ds) {
            Ok(join_fields) => {
                let r = InputFieldDefinition {
                    name,
                    of_type: map_type_exec(ty),
                    default_value: dv,
                    description,
                    join_fields,
                };
                proof {
                    assert(r@ =~= parse_input_field_v(ivv)->Ok_0);
                }
                Ok(r)
            },
            Err(e) => Err(e),
        },
        (Ok(_), Err(e2)) => Err(e2),
        (Err(e1), Ok(_)) => Err(e1),
        (Err(e1), Err(e2)) => {
            proof {
                let m1 = errs_of(parse_directives_v(ivv.directives));
                let m2 = (match ivv.default_value {
                    Option::Some(a) => seq![convert_message(a.position)],
                    Option::None => Seq::<Seq<char>>::empty(),
                });
                lemma_message_causes_concat(e1@, m1, e2@, m2);
            }
            Err(e1.combine(e2))
        },
    }
}

/// Parses one output field definition.
fn parse_field_exec(f: crate::sdl::FieldNode) -> (r: Result<
    FieldDefinition,
    ValidationError<String>,
>)
    ensures
        match parse_field_v(f@) {
            Result::Ok(v) => r matches Ok(rv) && rv@ == v,
            Result::Err(msgs) => r matches Err(e) && message_causes(e@, msgs),
        },
{
    let ghost fv = f@;
    let crate::sdl::FieldNode { name, description, ty, arguments, directives } = f;
    let args_r = parse_input_fields_exec(arguments);
    let dirs_r = parse_directives_exec(directives);
    match (args_r, dirs_r) {
        (Ok(args), Ok(ds)) => match extract_join_fields(&ds) {
            Ok(join_fields) => {
                let r = FieldDefinition {
                    name,
                    args,
                    of_type: map_type_exec(ty),
                    directives: ds,
                    description,
                    join_fields,
                };
                proof {
                    assert(r@ =~= parse_field_v(fv)->Ok_0);
                }
                Ok(r)
            },
            Err(e) => Err(e),
        },
        (Ok(_), Err(e2)) => Err(e2),
        (Err(e1), Ok(_)) => Err(e1),
        (Err(e1), Err(e2)) => {
            proof {
                lemma_message_causes_concat(
                    e1@,
                    errs_of(parse_input_fields_v(fv.arguments)),
                    e2@,
                    errs_of(parse_directives_v(fv.directives)),
                );
            }
            Err(e1.combine(e2))
        },
    }
}

/// Parses one enum value definition.
fn parse_enum_value_exec(ev: crate::sdl::EnumValueNode) -> (r: Result<
    EnumValueDefinition,
    ValidationError<String>,
>)
    ensures
        match parse_enum_value_v(ev@) {
            Result::Ok(v) => r matches Ok(rv) && rv@ == v,
            Result::Err(msgs) => r matches Err(e) && message_causes(e@, msgs),
        },
{
    let ghost evv = ev@;
    let crate::sdl::EnumValueNode { name, description, directives } = ev;
    match parse_directives_exec(directives) {
        Ok(ds) => match extract_join_enums(&ds) {
            Ok(join_enums) => {
                let r = EnumValueDefinition { description, name, directives: ds, join_enums };
                proof {
                    assert(r@ =~= parse_enum_value_v(evv)->Ok_0);
                }
                Ok(r)
            },
            Err(e) => Err(e),
        },
        Err(e) => Err(e),
    }
}

/// Parses one schema definition.
fn parse_schema_exec(sn: crate::sdl::SchemaNode) -> (r: Result<
    SchemaDefinition,
    ValidationError<String>,
>)
    ensures
        match parse_schema_v(sn@) {
            Result::Ok(v) => r matches Ok(rv) && rv@ == v,
            Result::Err(msgs) => r matches Err(e) && message_causes(e@, msgs),
        },
{
    let ghost snv = sn@;
    let crate::sdl::SchemaNode { query, mutation, subscription, directives } = sn;
    match parse_directives_exec(directives) {
        Ok(ds) => {
            let r = SchemaDefinition { query, mutation, subscription, directives: ds };
            proof {
                assert(r@ =~= parse_schema_v(snv)->Ok_0);
            }
            Ok(r)
        },
        Err(e) => Err(e),
    }
}

/// Parses one directive definition.
fn parse_directive_definition_exec(d: crate::sdl::DirectiveDefNode) -> (r: Result<
    DirectiveDefinition,
    ValidationError<String>,
>)
    ensures
        match parse_directive_definition_v(d@) {
            Result::Ok(v) => r matches Ok(rv) && rv@ == v,
            Result::Err(msgs) => r matches Err(e) && message_causes(e@, msgs),
        },
{
    let ghost dv = d@;
    let crate::sdl::DirectiveDefNode {
        name,
        description,
        arguments,
        repeatable,
        locations,
        position,
    } = d;
    match parse_input_fields_exec(arguments) {
        Ok(args) => {
            let r = DirectiveDefinition {
                name,
                description,
                arguments: args,
                repeatable,
                locations,
            };
            proof {
                assert(r@ =~= parse_directive_definition_v(dv)->Ok_0);
            }
            Ok(r)
        },
        Err(e) => Err(e),
    }
}

/// Parses one type definition, by kind.
fn parse_type_exec(t: crate::sdl::TypeNode) -> (r: Result<Definition, ValidationError<String>>)
    ensures
        match parse_type_v(t@) {
            Result::Ok(v) => r matches Ok(rv) && rv@ == v,
            Result::Err(msgs) => r matches Err(e) && message_causes(e@, msgs),
        },
{
    let ghost tv = t@;
    let crate::sdl::TypeNode { name, description, directives, kind, position } = t;
    let dirs_r = parse_directives_exec(directives);
    match kind {
        crate::sdl::TypeKindNode::Scalar => match dirs_r {
            Ok(ds) => match extract_join_types(&ds) {
                Ok(join_types) => {
                    let r = Definition::Scalar(
                        ScalarTypeDefinition { name, directives: ds, description, join_types },
                    );
                    proof {
                        assert(r@ =~= parse_type_v(tv)->Ok_0);
                    }
                    Ok(r)
                },
                Err(e) => Err(e),
            },
            Err(e) => Err(e),
        },
        crate::sdl::TypeKindNode::Object { implements, fields } => {
            let fs_r = parse_fields_exec(fields);
            match (dirs_r, fs_r) {
                (Ok(ds), Ok(flds)) => {
                    match (extract_join_types(&ds), extract_join_implements(&ds)) {
                        (Ok(join_types), Ok(join_implements)) => {
                            let r = Definition::Object(
                                ObjectTypeDefinition {
                                    name,
                                    fields: flds,
                                    description,
                                    implements,
                                    join_types,
                                    join_implements,
                                },
                            );
                            proof {
                                assert(r@ =~= parse_type_v(tv)->Ok_0);
                            }
                            Ok(r)
                        },
                        (Err(e1), Ok(_)) => Err(e1),
                        (Ok(_), Err(e2)) => Err(e2),
                        (Err(e1), Err(e2)) => {
                            proof {
                                let ds_v = parse_directives_v(tv.directives)->Ok_0;
                                lemma_message_causes_concat(
                                    e1@,
                                    errs_of(
                                        extract_joins(
                                            ds_v,
                                            "join__type"@,
                                            |j: JsonV| join_type_of(j),
                                        ),
                                    ),
                                    e2@,
                                    errs_of(
                                        extract_joins(
                                            ds_v,
                                            "join__implements"@,
                                            |j: JsonV| join_implements_of(j),
                                        ),
                                    ),
                                );
                            }
                            Err(e1.combine(e2))
                        },
                    }
                },
                (Ok(_), Err(e2)) => Err(e2),
                (Err(e1), Ok(_)) => Err(e1),
                (Err(e1), Err(e2)) => {
                    proof {
                        lemma_message_causes_concat(
                            e1@,
                            errs_of(parse_directives_v(tv.directives)),
                            e2@,
                            errs_of(parse_fields_v(tv.kind->Object_fields)),
                        );
                    }
                    Err(e1.combine(e2))
                },
            }
        },
        crate::sdl::TypeKindNode::Interface { fields } => {
            let fs_r = parse_fields_exec(fields);
            match (dirs_r, fs_r) {
                (Ok(ds), Ok(flds)) => {
                    match (extract_join_types(&ds), extract_join_implements(&ds)) {
                        (Ok(join_types), Ok(join_implements)) => {
                            let r = Definition::Interface(
                                InterfaceTypeDefinition {
                                    name,
                                    fields: flds,
                                    description,
                                    join_types,
                                    join_implements,
                                },
                            );
                            proof {
                                assert(r@ =~= parse_type_v(tv)->Ok_0);
                            }
                            Ok(r)
                        },
                        (Err(e1), Ok(_)) => Err(e1),
                        (Ok(_), Err(e2)) => Err(e2),
                        (Err(e1), Err(e2)) => {
                            proof {
                                let ds_v = parse_directives_v(tv.directives)->Ok_0;
                                lemma_message_causes_concat(
                                    e1@,
                                    errs_of(
                                        extract_joins(
                                            ds_v,
                                            "join__type"@,
                                            |j: JsonV| join_type_of(j),
                                        ),
                                    ),
                                    e2@,
                                    errs_of(
                                        extract_joins(
                                            ds_v,
                                            "join__implements"@,
                                            |j: JsonV| join_implements_of(j),
                                        ),
                                    ),
                                );
                            }
                            Err(e1.combine(e2))
                        },
                    }
                },
                (Ok(_), Err(e2)) => Err(e2),
                (Err(e1), Ok(_)) => Err(e1),
                (Err(e1), Err(e2)) => {
                    proof {
                        lemma_message_causes_concat(
                            e1@,
                            errs_of(parse_directives_v(tv.directives)),
                            e2@,
                            errs_of(parse_fields_v(tv.kind->Interface_fields)),
                        );
                    }
                    Err(e1.combine(e2))
                },
            }
        },
        crate::sdl::TypeKindNode::Union { members } => match dirs_r {
            Ok(ds) => match (extract_join_types(&ds), extract_join_unions(&ds)) {
                (Ok(join_types), Ok(join_unions)) => {
                    let r = Definition::Union(
                        UnionTypeDefinition {
                            name,
                            directives: ds,
                            description,
                            types: members,
                            join_types,
                            join_unions,
                        },
                    );
                    proof {
                        assert(r@ =~= parse_type_v(tv)->Ok_0);
                    }
                    Ok(r)
                },
                (Err(e1), Ok(_)) => Err(e1),
                (Ok(_), Err(e2)) => Err(e2),
                (Err(e1), Err(e2)) => {
                    proof {
                        let ds_v = parse_directives_v(tv.directives)->Ok_0;
                        lemma_message_causes_concat(
                            e1@,
                            errs_of(
                                extract_joins(ds_v, "join__type"@, |j: JsonV| join_type_of(j)),
                            ),
                            e2@,
                            errs_of(
                                extract_joins(
                                    ds_v,
                                    "join__unionMember"@,
                                    |j: JsonV| join_union_of(j),
                                ),
                            ),
                        );
                    }
                    Err(e1.combine(e2))
                },
            },
            Err(e) => Err(e),
        },
        crate::sdl::TypeKindNode::Enum { values } => {
            let evs_r = parse_enum_values_exec(values);
            match (dirs_r, evs_r) {
                (Ok(ds), Ok(enum_values)) => match extract_join_types(&ds) {
                    Ok(join_types) => {
                        let r = Definition::Enum(
                            EnumTypeDefinition {
                                name,
                                directives: ds,
                                description,
                                enum_values,
                                join_types,
                            },
                        );
                        proof {
                            assert(r@ =~= parse_type_v(tv)->Ok_0);
                        }
                        Ok(r)
                    },
                    Err(e) => Err(e),
                },
                (Ok(_), Err(e2)) => Err(e2),
                (Err(e1), Ok(_)) => Err(e1),
                (Err(e1), Err(e2)) => {
                    proof {
                        lemma_message_causes_concat(
                            e1@,
                            errs_of(parse_directives_v(tv.directives)),
                            e2@,
                            errs_of(parse_enum_values_v(tv.kind->Enum_values)),
                        );
                    }
                    Err(e1.combine(e2))
                },
            }
        },
        crate::sdl::TypeKindNode::InputObject { fields } => {
            let fs_r = parse_input_fields_exec(fields);
            match (dirs_r, fs_r) {
                (Ok(ds), Ok(flds)) => match extract_join_types(&ds) {
                    Ok(join_types) => {
                        let r = Definition::InputObject(
                            InputObjectTypeDefinition {
                                name,
                                fields: flds,
                                description,
                                join_types,
                            },
                        );
                        proof {
                            assert(r@ =~= parse_type_v(tv)->Ok_0);
                        }
                        Ok(r)
                    },
                    Err(e) => Err(e),
                },
                (Ok(_), Err(e2)) => Err(e2),
                (Err(e1), Ok(_)) => Err(e1),
                (Err(e1), Err(e2)) => {
                    proof {
                        lemma_message_causes_concat(
                            e1@,
                            errs_of(parse_directives_v(tv.directives)),
                            e2@,
                            errs_of(parse_input_fields_v(tv.kind->InputObject_fields)),
                        );
                    }
                    Err(e1.combine(e2))
                },
            }
        },
    }
}


proof fn lemma_fold_items_push(st: ParseState, items: Seq<crate::sdl::SchemaItemV>, x: crate::sdl::SchemaItemV)
    ensures
        fold_items(st, items.push(x)) == fold_item(fold_items(st, items), x),
    decreases items.len(),
{
    if items.len() == 0 {
        assert(items.push(x).drop_first() =~= items);
        assert(items.push(x)[0] == x);
        assert(fold_items(fold_item(st, x), items) == fold_item(st, x));
    } else {
        assert(items.push(x).drop_first() =~= items.drop_first().push(x));
        assert(items.push(x)[0] == items[0]);
        lemma_fold_items_push(fold_item(st, items[0]), items.drop_first(), x);
    }
}

proof fn lemma_collect_values_push<X>(
    entries: Seq<(Seq<char>, Result<X, Seq<Seq<char>>>)>,
    k: Seq<char>,
    r: Result<X, Seq<Seq<char>>>,
)
    ensures
        collect_values(entries.push((k, r))) == acc_join(collect_values(entries), lift_one(r)),
    decreases entries.len(),
{
    if entries.len() == 0 {
        assert(entries.push((k, r)).drop_first() =~= entries);
        match acc_join(collect_values(entries), lift_one(r)) {
            Result::Ok(v) => {
                assert(collect_values(entries.push((k, r))) matches Result::Ok(w) && w =~= v);
            },
            Result::Err(m) => {
                assert(collect_values(entries.push((k, r))) matches Result::Err(w) && w =~= m);
            },
        }
    } else {
        assert(entries.push((k, r)).drop_first() =~= entries.drop_first().push((k, r)));
        lemma_collect_values_push(entries.drop_first(), k, r);
        assert(entries.push((k, r))[0] == entries[0]);
        match acc_join(collect_values(entries), lift_one(r)) {
            Result::Ok(v) => {
                assert(collect_values(entries.push((k, r))) matches Result::Ok(w) && w =~= v);
            },
            Result::Err(m) => {
                assert(collect_values(entries.push((k, r))) matches Result::Err(w) && w =~= m);
            },
        }
    }
}

proof fn lemma_registry_values_push(
    evs: Seq<EnumValueDefinitionV>,
    x: EnumValueDefinitionV,
)
    ensures
        registry_values(evs.push(x)) == acc_join(
            registry_values(evs),
            extract_joins(x.directives, "join__graph"@, |j: JsonV| join_graph_of(j)),
        ),
    decreases evs.len(),
{
    if evs.len() == 0 {
        assert(evs.push(x).drop_first() =~= evs);
        assert(evs.push(x)[0] == x);
        match acc_join(
            registry_values(evs),
            extract_joins(x.directives, "join__graph"@, |j: JsonV| join_graph_of(j)),
        ) {
            Result::Ok(v) => {
                assert(registry_values(evs.push(x)) matches Result::Ok(w) && w =~= v);
            },
            Result::Err(m) => {
                assert(registry_values(evs.push(x)) matches Result::Err(w) && w =~= m);
            },
        }
    } else {
        assert(evs.push(x).drop_first() =~= evs.drop_first().push(x));
        lemma_registry_values_push(evs.drop_first(), x);
        assert(evs.push(x)[0] == evs[0]);
        match acc_join(
            registry_values(evs),
            extract_joins(x.directives, "join__graph"@, |j: JsonV| join_graph_of(j)),
        ) {
            Result::Ok(v) => {
                assert(registry_values(evs.push(x)) matches Result::Ok(w) && w =~= v);
            },
            Result::Err(m) => {
                assert(registry_values(evs.push(x)) matches Result::Err(w) && w =~= m);
            },
        }
    }
}

/// Whether an executable schema result stands for the modelled one.
pub open spec fn rep_schema(
    r: Result<SchemaDefinition, ValidationError<String>>,
    m: Result<SchemaDefinitionV, Seq<Seq<char>>>,
) -> bool {
    match m {
        Result::Ok(v) => r matches Ok(x) && x@ == v,
        Result::Err(msgs) => r matches Err(e) && message_causes(e@, msgs),
    }
}

/// Whether an executable definition entry stands for the modelled one.
pub open spec fn rep_def(
    r: Result<Definition, ValidationError<String>>,
    m: Result<DefinitionV, Seq<Seq<char>>>,
) -> bool {
    match m {
        Result::Ok(v) => r matches Ok(x) && x@ == v,
        Result::Err(msgs) => r matches Err(e) && message_causes(e@, msgs),
    }
}

/// Whether an executable directive entry stands for the modelled one.
pub open spec fn rep_dir(
    r: Result<DirectiveDefinition, ValidationError<String>>,
    m: Result<DirectiveDefinitionV, Seq<Seq<char>>>,
) -> bool {
    match m {
        Result::Ok(v) => r matches Ok(x) && x@ == v,
        Result::Err(msgs) => r matches Err(e) && message_causes(e@, msgs),
    }
}

/// Whether the executable keyed entries stand for the modelled ones.
pub open spec fn rep_defs(
    r: Seq<(String, Result<Definition, ValidationError<String>>)>,
    m: Seq<(Seq<char>, Result<DefinitionV, Seq<Seq<char>>>)>,
) -> bool {
    &&& r.len() == m.len()
    &&& forall|i: int|
        0 <= i < r.len() ==> (#[trigger] r[i]).0@ == m[i].0 && rep_def(r[i].1, m[i].1)
}

/// Whether the executable keyed directive entries stand for the modelled
/// ones.
pub open spec fn rep_dirs(
    r: Seq<(String, Result<DirectiveDefinition, ValidationError<String>>)>,
    m: Seq<(Seq<char>, Result<DirectiveDefinitionV, Seq<Seq<char>>>)>,
) -> bool {
    &&& r.len() == m.len()
    &&& forall|i: int|
        0 <= i < r.len() ==> (#[trigger] r[i]).0@ == m[i].0 && rep_dir(r[i].1, m[i].1)
}


proof fn lemma_assoc_replace_at<X>(entries: Seq<(Seq<char>, X)>, key: Seq<char>, v: X, i: int)
    requires
        0 <= i < entries.len(),
        entries[i].0 == key,
        forall|j: int| 0 <= j < i ==> (#[trigger] entries[j]).0 != key,
    ensures
        assoc_replace(entries, key, v) == entries.update(i, (key, v)),
    decreases i,
{
    if i == 0 {
        assert(assoc_replace(entries, key, v) =~= entries.update(0, (key, v)));
    } else {
        assert(entries.drop_first()[i - 1].0 == key);
        assert(forall|j: int| 0 <= j < i - 1 ==> (#[trigger] entries.drop_first()[j]).0 != key);
        lemma_assoc_replace_at(entries.drop_first(), key, v, i - 1);
        assert(assoc_replace(entries, key, v) =~= entries.update(i, (key, v)));
    }
}

/// Collects the parsed definitions in entry order, accumulating every
/// error of every entry.
#[verifier::loop_isolation(false)]
fn collect_defs_exec(
    entries: Vec<(String, Result<Definition, ValidationError<String>>)>,
    Ghost(m): Ghost<Seq<(Seq<char>, Result<DefinitionV, Seq<Seq<char>>>)>>,
) -> (r: Result<Vec<Definition>, ValidationError<String>>)
    requires
        rep_defs(entries@, m),
    ensures
        match collect_values(m) {
            Result::Ok(vs) => r matches Ok(out) && out@.map_values(|d: Definition| d@) == vs,
            Result::Err(msgs) => r matches Err(e) && message_causes(e@, msgs),
        },
{
    let n = entries.len();
    let mut rest = entries;
    let mut out: Vec<Definition> = Vec::new();
    let mut errs: ValidationError<String> = ValidationError::empty();
    let mut failed = false;
    proof {
        assert(m.take(0) =~= Seq::<(Seq<char>, Result<DefinitionV, Seq<Seq<char>>>)>::empty());
        assert(out@.map_values(|d: Definition| d@) =~= Seq::<DefinitionV>::empty());
        assert(errs@ =~= Seq::<CauseV<String>>::empty());
    }
    while rest.len() > 0
        invariant
            rest@.len() <= n,
            n == m.len(),
            forall|j: int|
                0 <= j < rest@.len() ==> (#[trigger] rest@[j]).0@ == m[m.len() - rest@.len()
                    + j].0 && rep_def(rest@[j].1, m[m.len() - rest@.len() + j].1),
            !failed ==> errs@ == Seq::<CauseV<String>>::empty(),
            !failed ==> collect_values(m.take(m.len() - rest@.len())) == Result::<
                Seq<DefinitionV>,
                Seq<Seq<char>>,
            >::Ok(out@.map_values(|d: Definition| d@)),
            failed ==> (collect_values(m.take(m.len() - rest@.len())) matches Result::Err(msgs)
                && message_causes(errs@, msgs)),
        decreases rest@.len(),
    {
        let ghost done = m.len() - rest@.len();
        proof {
            assert(m.take(done).push(m[done]) =~= m.take(done + 1));
            lemma_collect_values_push(m.take(done), m[done].0, m[done].1);
        }
        let (_, entry) = rest.remove(0);
        let ghost old_errs = errs@;
        match entry {
            Ok(v) => {
                if !failed {
                    let ghost before = out@.map_values(|d: Definition| d@);
                    out.push(v);
                    proof {
                        assert(out@.map_values(|d: Definition| d@) =~= before.push(
                            out@[out@.len() - 1]@,
                        ));
                        assert(before + seq![out@[out@.len() - 1]@] =~= out@.map_values(
                            |d: Definition| d@,
                        ));
                    }
                }
            },
            Err(e) => {
                let ghost ev = e@;
                let was_failed = failed;
                failed = true;
                errs = errs.combine(e);
                proof {
                    if !was_failed {
                        assert(errs@ =~= ev);
                    }
                }
            },
        }
        proof {
            if failed {
                let msgs = collect_values(m.take(done + 1))->Err_0;
                assert forall|k: int| 0 <= k < errs@.len() implies (#[trigger] errs@[k]).trace.len()
                    == 0 && errs@[k].message@ == msgs[k] by {
                    if k < old_errs.len() {
                        assert(errs@[k] == old_errs[k]);
                    }
                }
            }
        }
    }
    proof {
        assert(m.take(m.len() as int) =~= m);
    }
    if failed {
        Err(errs)
    } else {
        Ok(out)
    }
}

/// Collects the parsed directive definitions in entry order, accumulating
/// every error of every entry.
#[verifier::loop_isolation(false)]
fn collect_dirs_exec(
    entries: Vec<(String, Result<DirectiveDefinition, ValidationError<String>>)>,
    Ghost(m): Ghost<Seq<(Seq<char>, Result<DirectiveDefinitionV, Seq<Seq<char>>>)>>,
) -> (r: Result<Vec<DirectiveDefinition>, ValidationError<String>>)
    requires
        rep_dirs(entries@, m),
    ensures
        match collect_values(m) {
            Result::Ok(vs) => r matches Ok(out) && out@.map_values(
                |d: DirectiveDefinition| d@,
            ) == vs,
            Result::Err(msgs) => r matches Err(e) && message_causes(e@, msgs),
        },
{
    let n = entries.len();
    let mut rest = entries;
    let mut out: Vec<DirectiveDefinition> = Vec::new();
    let mut errs: ValidationError<String> = ValidationError::empty();
    let mut failed = false;
    proof {
        assert(m.take(0) =~= Seq::<
            (Seq<char>, Result<DirectiveDefinitionV, Seq<Seq<char>>>),
        >::empty());
        assert(out@.map_values(|d: DirectiveDefinition| d@) =~= Seq::<
            DirectiveDefinitionV,
        >::empty());
        assert(errs@ =~= Seq::<CauseV<String>>::empty());
    }
    while rest.len() > 0
        invariant
            rest@.len() <= n,
            n == m.len(),
            forall|j: int|
                0 <= j < rest@.len() ==> (#[trigger] rest@[j]).0@ == m[m.len() - rest@.len()
                    + j].0 && rep_dir(rest@[j].1, m[m.len() - rest@.len() + j].1),
            !failed ==> errs@ == Seq::<CauseV<String>>::empty(),
            !failed ==> collect_values(m.take(m.len() - rest@.len())) == Result::<
                Seq<DirectiveDefinitionV>,
                Seq<Seq<char>>,
            >::Ok(out@.map_values(|d: DirectiveDefinition| d@)),
            failed ==> (collect_values(m.take(m.len() - rest@.len())) matches Result::Err(msgs)
                && message_causes(errs@, msgs)),
        decreases rest@.len(),
    {
        let ghost done = m.len() - rest@.len();
        proof {
            assert(m.take(done).push(m[done]) =~= m.take(done + 1));
            lemma_collect_values_push(m.take(done), m[done].0, m[done].1);
        }
        let (_, entry) = rest.remove(0);
        let ghost old_errs = errs@;
        match entry {
            Ok(v) => {
                if !failed {
                    let ghost before = out@.map_values(|d: DirectiveDefinition| d@);
                    out.push(v);
                    proof {
                        assert(out@.map_values(|d: DirectiveDefinition| d@) =~= before.push(
                            out@[out@.len() - 1]@,
                        ));
                        assert(before + seq![out@[out@.len() - 1]@] =~= out@.map_values(
                            |d: DirectiveDefinition| d@,
                        ));
                    }
                }
            },
            Err(e) => {
                let ghost ev = e@;
                let was_failed = failed;
                failed = true;
                errs = errs.combine(e);
                proof {
                    if !was_failed {
                        assert(errs@ =~= ev);
                    }
                }
            },
        }
        proof {
            if failed {
                let msgs = collect_values(m.take(done + 1))->Err_0;
                assert forall|k: int| 0 <= k < errs@.len() implies (#[trigger] errs@[k]).trace.len()
                    == 0 && errs@[k].message@ == msgs[k] by {
                    if k < old_errs.len() {
                        assert(errs@[k] == old_errs[k]);
                    }
                }
            }
        }
    }
    proof {
        assert(m.take(m.len() as int) =~= m);
    }
    if failed {
        Err(errs)
    } else {
        Ok(out)
    }
}


/// Reads the registry out of the `join__Graph` enumeration's values.
#[verifier::loop_isolation(false)]
fn registry_values_exec(evs: &Vec<EnumValueDefinition>) -> (r: Result<
    Vec<JoinGraph>,
    ValidationError<String>,
>)
    ensures
        match registry_values(evs@.map_values(|e: EnumValueDefinition| e@)) {
            Result::Ok(vs) => r matches Ok(out) && out@.map_values(|g: JoinGraph| g@) == vs,
            Result::Err(msgs) => r matches Err(e) && message_causes(e@, msgs),
        },
{
    let ghost evsv = evs@.map_values(|e: EnumValueDefinition| e@);
    let n = evs.len();
    let mut out: Vec<JoinGraph> = Vec::new();
    let mut errs: ValidationError<String> = ValidationError::empty();
    let mut failed = false;
    let mut i: usize = 0;
    proof {
        assert(evsv.take(0) =~= Seq::<EnumValueDefinitionV>::empty());
        assert(out@.map_values(|g: JoinGraph| g@) =~= Seq::<JoinGraphV>::empty());
        assert(errs@ =~= Seq::<CauseV<String>>::empty());
    }
    while i < n
        invariant
            i <= n,
            n == evsv.len(),
            evsv == evs@.map_values(|e: EnumValueDefinition| e@),
            !failed ==> errs@ == Seq::<CauseV<String>>::empty(),
            !failed ==> registry_values(evsv.take(i as int)) == Result::<
                Seq<JoinGraphV>,
                Seq<Seq<char>>,
            >::Ok(out@.map_values(|g: JoinGraph| g@)),
            failed ==> (registry_values(evsv.take(i as int)) matches Result::Err(msgs)
                && message_causes(errs@, msgs)),
        decreases n - i,
    {
        proof {
            assert(evsv[i as int] == evs@[i as int]@);
            assert(evsv.take(i as int).push(evsv[i as int]) =~= evsv.take(i + 1));
            lemma_registry_values_push(evsv.take(i as int), evsv[i as int]);
        }
        let ghost old_errs = errs@;
        match extract_join_graphs(&evs[i].directives) {
            Ok(part) => {
                if !failed {
                    let ghost before = out@.map_values(|g: JoinGraph| g@);
                    let ghost partv = part@.map_values(|g: JoinGraph| g@);
                    let mut part = part;
                    while part.len() > 0
                        invariant
                            out@.map_values(|g: JoinGraph| g@) + part@.map_values(
                                |g: JoinGraph| g@,
                            ) =~= before + partv,
                        decreases part@.len(),
                    {
                        let g = part.remove(0);
                        let ghost outb = out@.map_values(|g2: JoinGraph| g2@);
                        let ghost partb = part@.map_values(|g2: JoinGraph| g2@);
                        out.push(g);
                        proof {
                            assert(out@.map_values(|g2: JoinGraph| g2@) =~= outb.push(
                                out@[out@.len() - 1]@,
                            ));
                            assert(out@.map_values(|g2: JoinGraph| g2@) + part@.map_values(
                                |g2: JoinGraph| g2@,
                            ) =~= before + partv);
                        }
                    }
                    proof {
                        assert(part@.map_values(|g2: JoinGraph| g2@) =~= Seq::<
                            JoinGraphV,
                        >::empty());
                        assert(out@.map_values(|g2: JoinGraph| g2@) =~= before + partv);
                    }
                }
            },
            Err(e) => {
                let ghost ev = e@;
                let was_failed = failed;
                failed = true;
                errs = errs.combine(e);
                proof {
                    if !was_failed {
                        assert(errs@ =~= ev);
                    }
                }
            },
        }
        proof {
            if failed {
                let msgs = registry_values(evsv.take(i + 1))->Err_0;
                assert forall|k: int| 0 <= k < errs@.len() implies (#[trigger] errs@[k]).trace.len()
                    == 0 && errs@[k].message@ == msgs[k] by {
                    if k < old_errs.len() {
                        assert(errs@[k] == old_errs[k]);
                    }
                }
            }
        }
        i = i + 1;
    }
    proof {
        assert(evsv.take(n as int) =~= evsv);
    }
    if failed {
        Err(errs)
    } else {
        Ok(out)
    }
}

/// Builds a blueprint from a parsed document: one pass collecting the
/// schema, the types and the directive definitions — duplicates reported
/// by name — then the `join__Graph` registry, accumulating every error.
#[verifier::loop_isolation(false)]
#[verifier::rlimit(60)]
pub fn parse(doc: crate::sdl::Document) -> (r: Valid<Blueprint, String>)
    ensures
        match parse_model(doc@) {
            Result::Ok(bv) => r@ matches Ok(b) && b@ == bv,
            Result::Err(msgs) => r@ matches Err(cs) && message_causes(cs, msgs),
        },
{
    let ghost itemsv = doc@.definitions;
    let mut rest = doc.definitions;
    let mut schema_acc: Result<SchemaDefinition, ValidationError<String>> = Ok(
        SchemaDefinition { query: None, mutation: None, subscription: None, directives: Vec::new() },
    );
    let mut defs: Vec<(String, Result<Definition, ValidationError<String>>)> = Vec::new();
    let mut dirs: Vec<(String, Result<DirectiveDefinition, ValidationError<String>>)> = Vec::new();
    proof {
        assert(itemsv.take(0) =~= Seq::<crate::sdl::SchemaItemV>::empty());
        assert(rep_schema(schema_acc, init_state().schema)) by {
            match schema_acc {
                Ok(ref s) => {
                    assert(s@ =~= init_state().schema->Ok_0);
                },
                Err(_) => {},
            }
        }
        assert(rep_defs(defs@, init_state().defs));
        assert(rep_dirs(dirs@, init_state().dirs));
    }
    while rest.len() > 0
        invariant
            rest@.len() <= itemsv.len(),
            forall|j: int|
                0 <= j < rest@.len() ==> (#[trigger] rest@[j])@ == itemsv[itemsv.len()
                    - rest@.len() + j],
            rep_schema(
                schema_acc,
                fold_items(init_state(), itemsv.take(itemsv.len() - rest@.len())).schema,
            ),
            rep_defs(defs@, fold_items(init_state(), itemsv.take(itemsv.len() - rest@.len())).defs),
            rep_dirs(dirs@, fold_items(init_state(), itemsv.take(itemsv.len() - rest@.len())).dirs),
        decreases rest@.len(),
    {
        let ghost done = itemsv.len() - rest@.len();
        let ghost st = fold_items(init_state(), itemsv.take(done));
        proof {
            assert(itemsv.take(done).push(itemsv[done]) =~= itemsv.take(done + 1));
            lemma_fold_items_push(init_state(), itemsv.take(done), itemsv[done]);
        }
        let item = rest.remove(0);
        proof {
            assert(item@ == itemsv[done]);
        }
        match item {
            crate::sdl::SchemaItem::Schema(sn) => {
                let ghost snv = sn@;
                let parsed = parse_schema_exec(sn);
                let prev = schema_acc;
                schema_acc = match (prev, parsed) {
                    (Ok(a), Ok(mut b)) => {
                        let merged_query = match a.query {
                            None => b.query,
                            Some(q) => Some(q),
                        };
                        let merged_mutation = match a.mutation {
                            None => b.mutation,
                            Some(m2) => Some(m2),
                        };
                        let merged_subscription = match a.subscription {
                            None => b.subscription,
                            Some(s2) => Some(s2),
                        };
                        let mut merged_directives = a.directives;
                        let ghost adv = merged_directives@.map_values(|d: Directive| d@);
                        let ghost bdv = b.directives@.map_values(|d: Directive| d@);
                        merged_directives.append(&mut b.directives);
                        proof {
                            assert(merged_directives@.map_values(|d: Directive| d@) =~= adv
                                + bdv);
                        }
                        let merged = SchemaDefinition {
                            query: merged_query,
                            mutation: merged_mutation,
                            subscription: merged_subscription,
                            directives: merged_directives,
                        };
                        proof {
                            assert(merged@ =~= merge_schema(st.schema, snv)->Ok_0);
                        }
                        Ok(merged)
                    },
                    (Err(e), Ok(_)) => Err(e),
                    (Ok(_), Err(e)) => Err(e),
                    (Err(e1), Err(e2)) => {
                        proof {
                            lemma_message_causes_concat(
                                e1@,
                                errs_of(st.schema),
                                e2@,
                                errs_of(parse_schema_v(snv)),
                            );
                        }
                        Err(e1.combine(e2))
                    },
                };
            },
            crate::sdl::SchemaItem::Type(tn) => {
                let ghost tnv = tn@;
                let wanted = tn.name.clone();
                let m = defs.len();
                let mut k: usize = 0;
                let mut found: Option<usize> = None;
                proof {
                    assert(st.defs.skip(0) =~= st.defs);
                }
                while found.is_none() && k < m
                    invariant
                        k <= m,
                        m == defs@.len(),
                        st.defs.len() == m,
                        wanted@ == tnv.name,
                        rep_defs(defs@, st.defs),
                        found is None ==> forall|j: int|
                            0 <= j < k ==> (#[trigger] st.defs[j]).0 != tnv.name,
                        found is None ==> assoc_lookup(st.defs, tnv.name) == assoc_lookup(
                            st.defs.skip(k as int),
                            tnv.name,
                        ),
                        found matches Some(at) ==> at < m && st.defs[at as int].0 == tnv.name
                            && (forall|j: int|
                            0 <= j < at ==> (#[trigger] st.defs[j]).0 != tnv.name)
                            && assoc_lookup(st.defs, tnv.name) == Option::Some(
                            st.defs[at as int].1,
                        ),
                    decreases m - k, (if found is None { 1int } else { 0int }),
                {
                    proof {
                        assert(st.defs.skip(k as int)[0] == st.defs[k as int]);
                        assert(st.defs.skip(k as int).drop_first() =~= st.defs.skip(k + 1));
                    }
                    if defs[k].0 == wanted {
                        found = Some(k);
                    } else {
                        k = k + 1;
                    }
                }
                match found {
                    Some(at) => {
                        let msg = String::from_str("The type `").concat(tn.name.as_str()).concat(
                            "` has been already defined, ",
                        ).concat(tn.position.as_str());
                        let ghost defs_before = defs@;
                        let (old_key, old_val) = defs.remove(at);
                        let new_val: Result<Definition, ValidationError<String>> = match old_val {
                            Ok(_) => Err(ValidationError::new(msg)),
                            Err(e) => Err(e.append(msg)),
                        };
                        defs.insert(at, (old_key, new_val));
                        proof {
                            lemma_assoc_replace_at(
                                st.defs,
                                tnv.name,
                                dup_def_entry(st.defs[at as int].1, tnv.name, tnv.position),
                                at as int,
                            );
                            assert(defs@ =~= defs_before.update(
                                at as int,
                                (defs@[at as int].0, defs@[at as int].1),
                            ));
                        }
                    },
                    None => {
                        proof {
                            assert(st.defs.skip(m as int) =~= Seq::<
                                (Seq<char>, Result<DefinitionV, Seq<Seq<char>>>),
                            >::empty());
                        }
                        let key = tn.name.clone();
                        let parsed = parse_type_exec(tn);
                        let ghost defs_before = defs@;
                        defs.push((key, parsed));
                        proof {
                            assert(defs@ =~= defs_before.push(
                                (defs@[defs@.len() - 1].0, defs@[defs@.len() - 1].1),
                            ));
                        }
                    },
                }
            },
            crate::sdl::SchemaItem::Directive(dn) => {
                let ghost dnv = dn@;
                let wanted = dn.name.clone();
                let m = dirs.len();
                let mut k: usize = 0;
                let mut found: Option<usize> = None;
                proof {
                    assert(st.dirs.skip(0) =~= st.dirs);
                }
                while found.is_none() && k < m
                    invariant
                        k <= m,
                        m == dirs@.len(),
                        st.dirs.len() == m,
                        wanted@ == dnv.name,
                        rep_dirs(dirs@, st.dirs),
                        found is None ==> forall|j: int|
                            0 <= j < k ==> (#[trigger] st.dirs[j]).0 != dnv.name,
                        found is None ==> assoc_lookup(st.dirs, dnv.name) == assoc_lookup(
                            st.dirs.skip(k as int),
                            dnv.name,
                        ),
                        found matches Some(at) ==> at < m && st.dirs[at as int].0 == dnv.name
                            && (forall|j: int|
                            0 <= j < at ==> (#[trigger] st.dirs[j]).0 != dnv.name)
                            && assoc_lookup(st.dirs, dnv.name) == Option::Some(
                            st.dirs[at as int].1,
                        ),
                    decreases m - k, (if found is None { 1int } else { 0int }),
                {
                    proof {
                        assert(st.dirs.skip(k as int)[0] == st.dirs[k as int]);
                        assert(st.dirs.skip(k as int).drop_first() =~= st.dirs.skip(k + 1));
                    }
                    if dirs[k].0 == wanted {
                        found = Some(k);
                    } else {
                        k = k + 1;
                    }
                }
                match found {
                    Some(at) => {
                        let msg = String::from_str("The directive `").concat(
                            dn.name.as_str(),
                        ).concat("` has been defined twice,").concat(dn.position.as_str());
                        let ghost dirs_before = dirs@;
                        let (old_key, old_val) = dirs.remove(at);
                        let new_val: Result<DirectiveDefinition, ValidationError<String>> =
                            match old_val {
                            Ok(_) => Err(ValidationError::new(msg)),
                            Err(e) => Err(e.append(msg)),
                        };
                        dirs.insert(at, (old_key, new_val));
                        proof {
                            lemma_assoc_replace_at(
                                st.dirs,
                                dnv.name,
                                dup_dir_entry(st.dirs[at as int].1, dnv.name, dnv.position),
                                at as int,
                            );
                            assert(dirs@ =~= dirs_before.update(
                                at as int,
                                (dirs@[at as int].0, dirs@[at as int].1),
                            ));
                        }
                    },
                    None => {
                        proof {
                            assert(st.dirs.skip(m as int) =~= Seq::<
                                (Seq<char>, Result<DirectiveDefinitionV, Seq<Seq<char>>>),
                            >::empty());
                        }
                        let key = dn.name.clone();
                        let parsed = parse_directive_definition_exec(dn);
                        let ghost dirs_before = dirs@;
                        dirs.push((key, parsed));
                        proof {
                            assert(dirs@ =~= dirs_before.push(
                                (dirs@[dirs@.len() - 1].0, dirs@[dirs@.len() - 1].1),
                            ));
                        }
                    },
                }
            },
        }
    }
    proof {
        assert(itemsv.take(itemsv.len() as int) =~= itemsv);
    }
    let ghost st = fold_items(init_state(), itemsv);

    let defs_r = collect_defs_exec(defs, Ghost(st.defs));
    let dirs_r = collect_dirs_exec(dirs, Ghost(st.dirs));

    // the registry, from the first enumeration named `join__Graph`
    let jg_r: Result<Vec<JoinGraph>, ValidationError<String>> = match &defs_r {
        Ok(ds) => {
            let ghost dsv = ds@.map_values(|d: Definition| d@);
            let wanted = String::from_str("join__Graph");
            let n = ds.len();
            let mut k: usize = 0;
            let mut found: Option<usize> = None;
            proof {
                assert(dsv.skip(0) =~= dsv);
            }
            while found.is_none() && k < n
                invariant
                    k <= n,
                    n == ds@.len(),
                    dsv == ds@.map_values(|d: Definition| d@),
                    wanted@ == "join__Graph"@,
                    found is None ==> find_registry_enum(dsv) == find_registry_enum(
                        dsv.skip(k as int),
                    ),
                    found matches Some(at) ==> at < n && dsv[at as int] is Enum
                        && find_registry_enum(dsv) == Option::Some(dsv[at as int]->Enum_0),
                decreases n - k, (if found is None { 1int } else { 0int }),
            {
                proof {
                    assert(dsv[k as int] == ds@[k as int]@);
                    assert(dsv.skip(k as int)[0] == dsv[k as int]);
                    assert(dsv.skip(k as int).drop_first() =~= dsv.skip(k + 1));
                }
                let is_registry = match &ds[k] {
                    Definition::Enum(e) => e.name == wanted,
                    _ => false,
                };
                if is_registry {
                    found = Some(k);
                } else {
                    k = k + 1;
                }
            }
            match found {
                Some(at) => {
                    match &ds[at] {
                        Definition::Enum(e) => registry_values_exec(&e.enum_values),
                        _ => Err(ValidationError::new(
                            String::from_str("The `join__Graph` enumeration is missing"),
                        )),
                    }
                },
                None => {
                    proof {
                        assert(dsv.skip(n as int) =~= Seq::<DefinitionV>::empty());
                    }
                    Err(ValidationError::new(
                        String::from_str("The `join__Graph` enumeration is missing"),
                    ))
                },
            }
        },
        Err(e) => Err(e.duplicate()),
    };

    match (schema_acc, defs_r, dirs_r, jg_r) {
        (Ok(schema), Ok(definitions), Ok(directive_defs), Ok(join_graphs)) => {
            let b = Blueprint { definitions, schema, directives: directive_defs, join_graphs };
            proof {
                assert(b@ =~= parse_model(doc@)->Ok_0);
            }
            Valid::succeed(b)
        },
        (s_r, d_r, di_r, j_r) => {
            let ghost sm = errs_of(st.schema);
            let ghost dm = errs_of(collect_values(st.defs));
            let ghost dim = errs_of(collect_values(st.dirs));
            let ghost jm = errs_of(join_graphs_result(collect_values(st.defs)));
            let mut errs = ValidationError::empty();
            let ghost mut spart = Seq::<CauseV<String>>::empty();
            match s_r {
                Ok(_) => {},
                Err(e) => {
                    proof {
                        spart = e@;
                    }
                    errs = errs.combine(e);
                },
            }
            proof {
                assert(errs@ =~= spart);
                assert(message_causes(spart, sm));
            }
            let ghost e1 = errs@;
            let ghost mut dpart = Seq::<CauseV<String>>::empty();
            match d_r {
                Ok(_) => {},
                Err(e) => {
                    proof {
                        dpart = e@;
                    }
                    errs = errs.combine(e);
                },
            }
            proof {
                assert(errs@ =~= e1 + dpart);
                assert(message_causes(dpart, dm));
                lemma_message_causes_concat(e1, sm, dpart, dm);
            }
            let ghost e2 = errs@;
            let ghost mut dipart = Seq::<CauseV<String>>::empty();
            match di_r {
                Ok(_) => {},
                Err(e) => {
                    proof {
                        dipart = e@;
                    }
                    errs = errs.combine(e);
                },
            }
            proof {
                assert(errs@ =~= e2 + dipart);
                assert(message_causes(dipart, dim));
                lemma_message_causes_concat(e2, sm + dm, dipart, dim);
            }
            let ghost e3 = errs@;
            let ghost mut jpart = Seq::<CauseV<String>>::empty();
            match j_r {
                Ok(_) => {},
                Err(e) => {
                    proof {
                        jpart = e@;
                    }
                    errs = errs.combine(e);
                },
            }
            proof {
                assert(errs@ =~= e3 + jpart);
                assert(message_causes(jpart, jm));
                lemma_message_causes_concat(e3, sm + dm + dim, jpart, jm);
                assert(sm + dm + dim + jm =~= parse_model(doc@)->Err_0);
                assert((sm + dm) + dim =~= sm + dm + dim);
                assert(((sm + dm) + dim) + jm =~= sm + dm + dim + jm);
            }
            Valid::from_validation_err(errs)
        },
    }
}


/// The join round-trip: every record an extraction yields is read
/// verbatim from a raw directive of the given name — its graph, like all
/// its content, is exactly what some `join__*` directive's arguments
/// carry. Together with the exact contract of [`parse`], which builds the
/// registry from exactly the `join__graph` records of the `join__Graph`
/// enumeration, this ties every parsed join record back to the document.
pub proof fn lemma_join_extraction_roundtrip<X>(
    ds: Seq<DirectiveV>,
    name: Seq<char>,
    parser: spec_fn(JsonV) -> Option<X>,
)
    ensures
        extract_joins(ds, name, parser) matches Result::Ok(vs) ==> records_extracted(
            vs,
            ds,
            name,
            parser,
        ),
    decreases ds.len(),
{
    if ds.len() > 0 {
        lemma_join_extraction_roundtrip(ds.drop_first(), name, parser);
        if extract_joins(ds, name, parser) is Ok {
            let vs = extract_joins(ds, name, parser)->Ok_0;
            let rest = extract_joins(ds.drop_first(), name, parser)->Ok_0;
            assert(records_extracted(rest, ds.drop_first(), name, parser));
            assert forall|i: int| 0 <= i < vs.len() implies #[trigger] record_from(
                vs[i],
                ds,
                name,
                parser,
            ) by {
                if ds[0].name == name && i == 0 {
                    assert(vs[0] == parser(ds[0].arguments)->0);
                    assert(ds[0].name == name && parser(ds[0].arguments) == Option::Some(
                        vs[0],
                    ));
                } else {
                    let k = if ds[0].name == name {
                        i - 1
                    } else {
                        i
                    };
                    assert(vs[i] == rest[k]);
                    assert(record_from(rest[k], ds.drop_first(), name, parser));
                    let j = choose|j: int|
                        0 <= j < ds.drop_first().len() && (#[trigger] ds.drop_first()[j]).name
                            == name && parser(ds.drop_first()[j].arguments) == Option::Some(
                            rest[k],
                        );
                    assert(ds[j + 1] == ds.drop_first()[j]);
                }
            }
        }
    }
}

impl Blueprint {
    /// Builds the blueprint from a document known to be well formed: no
    /// duplicate names, a registry present, every argument convertible
    /// and every join directive fitting its record.
    pub fn parse_doc(doc: crate::sdl::Document) -> (r: Blueprint)
        requires
            parse_model(doc@) is Ok,
        ensures
            r@ == parse_model(doc@)->Ok_0,
    {
        match parse(doc).to_result() {
            Ok(b) => b,
            Err(_) => vstd::pervasive::unreached(),
        }
    }
}


/// Whether `record` is read verbatim from some directive of the given
/// name among `ds`.
pub open spec fn record_from<X>(
    record: X,
    ds: Seq<DirectiveV>,
    name: Seq<char>,
    parser: spec_fn(JsonV) -> Option<X>,
) -> bool {
    exists|j: int|
        0 <= j < ds.len() && (#[trigger] ds[j]).name == name && parser(ds[j].arguments)
            == Option::Some(record)
}

/// Every record was read verbatim from a directive of the given name
/// among `ds`.
pub open spec fn records_extracted<X>(
    records: Seq<X>,
    ds: Seq<DirectiveV>,
    name: Seq<char>,
    parser: spec_fn(JsonV) -> Option<X>,
) -> bool {
    forall|i: int|
        0 <= i < records.len() ==> #[trigger] record_from(records[i], ds, name, parser)
}

proof fn lemma_extraction_records<X>(
    ds: Seq<DirectiveV>,
    name: Seq<char>,
    parser: spec_fn(JsonV) -> Option<X>,
)
    ensures
        extract_joins(ds, name, parser) matches Result::Ok(vs) ==> records_extracted(
            vs,
            ds,
            name,
            parser,
        ),
{
    lemma_join_extraction_roundtrip(ds, name, parser);
}

/// Every field's metadata was read verbatim from the field's own stored
/// directives.
pub open spec fn fields_join_roundtrip(fs: Seq<FieldDefinitionV>) -> bool {
    forall|k: int| #![trigger fs[k]]
        0 <= k < fs.len() ==> records_extracted(
            fs[k].join_fields,
            fs[k].directives,
            "join__field"@,
            |j: JsonV| join_field_of(j),
        )
}

proof fn lemma_parse_fields_roundtrip(fs: Seq<crate::sdl::FieldNodeV>)
    ensures
        parse_fields_v(fs) matches Result::Ok(out) ==> fields_join_roundtrip(out),
    decreases fs.len(),
{
    if fs.len() > 0 {
        lemma_parse_fields_roundtrip(fs.drop_first());
        if parse_fields_v(fs) is Ok {
            let out = parse_fields_v(fs)->Ok_0;
            let head = parse_field_v(fs[0])->Ok_0;
            let rest = parse_fields_v(fs.drop_first())->Ok_0;
            assert(out == seq![head] + rest);
            let ds = parse_directives_v(fs[0].directives)->Ok_0;
            lemma_extraction_records(ds, "join__field"@, |j: JsonV| join_field_of(j));
            assert(head.directives == ds);
            assert forall|k: int| #![trigger out[k]]
                0 <= k < out.len() implies records_extracted(
                    out[k].join_fields,
                    out[k].directives,
                    "join__field"@,
                    |j: JsonV| join_field_of(j),
                ) by {
                if k > 0 {
                    assert(out[k] == rest[k - 1]);
                    assert(records_extracted(
                        rest[k - 1].join_fields,
                        rest[k - 1].directives,
                        "join__field"@,
                        |j: JsonV| join_field_of(j),
                    ));
                }
            }
        }
    }
}

/// Every enum value's registry records were read verbatim from the
/// value's own stored directives.
pub open spec fn enum_values_join_roundtrip(evs: Seq<EnumValueDefinitionV>) -> bool {
    forall|k: int| #![trigger evs[k]]
        0 <= k < evs.len() ==> records_extracted(
            evs[k].join_enums,
            evs[k].directives,
            "join__enumValue"@,
            |j: JsonV| join_enum_of(j),
        )
}

proof fn lemma_parse_enum_values_roundtrip(evs: Seq<crate::sdl::EnumValueNodeV>)
    ensures
        parse_enum_values_v(evs) matches Result::Ok(out) ==> enum_values_join_roundtrip(out),
    decreases evs.len(),
{
    if evs.len() > 0 {
        lemma_parse_enum_values_roundtrip(evs.drop_first());
        if parse_enum_values_v(evs) is Ok {
            let out = parse_enum_values_v(evs)->Ok_0;
            let head = parse_enum_value_v(evs[0])->Ok_0;
            let rest = parse_enum_values_v(evs.drop_first())->Ok_0;
            assert(out == seq![head] + rest);
            let ds = parse_directives_v(evs[0].directives)->Ok_0;
            lemma_extraction_records(ds, "join__enumValue"@, |j: JsonV| join_enum_of(j));
            assert(head.directives == ds);
            assert forall|k: int| #![trigger out[k]]
                0 <= k < out.len() implies records_extracted(
                    out[k].join_enums,
                    out[k].directives,
                    "join__enumValue"@,
                    |j: JsonV| join_enum_of(j),
                ) by {
                if k > 0 {
                    assert(out[k] == rest[k - 1]);
                    assert(records_extracted(
                        rest[k - 1].join_enums,
                        rest[k - 1].directives,
                        "join__enumValue"@,
                        |j: JsonV| join_enum_of(j),
                    ));
                }
            }
        }
    }
}

/// Blueprint round-trip on join: every join record of a parsed type
/// definition is read verbatim from one of the definition's own
/// directives — its graph is exactly what the directive's arguments
/// carry. So whenever every `join__*` directive of a document names only
/// graphs that its `join__Graph` enumeration registers, every record of
/// the parsed blueprint refers to a registered graph.
pub proof fn lemma_parse_type_join_roundtrip(tn: crate::sdl::TypeNodeV)
    ensures
        parse_type_v(tn) matches Result::Ok(d) ==> {
            let ds = parse_directives_v(tn.directives)->Ok_0;
            match d {
                DefinitionV::Scalar(t) => records_extracted(
                    t.join_types,
                    ds,
                    "join__type"@,
                    |j: JsonV| join_type_of(j),
                ),
                DefinitionV::Object(t) => records_extracted(
                    t.join_types,
                    ds,
                    "join__type"@,
                    |j: JsonV| join_type_of(j),
                ) && records_extracted(
                    t.join_implements,
                    ds,
                    "join__implements"@,
                    |j: JsonV| join_implements_of(j),
                ) && fields_join_roundtrip(t.fields),
                DefinitionV::Interface(t) => records_extracted(
                    t.join_types,
                    ds,
                    "join__type"@,
                    |j: JsonV| join_type_of(j),
                ) && records_extracted(
                    t.join_implements,
                    ds,
                    "join__implements"@,
                    |j: JsonV| join_implements_of(j),
                ) && fields_join_roundtrip(t.fields),
                DefinitionV::Union(t) => records_extracted(
                    t.join_types,
                    ds,
                    "join__type"@,
                    |j: JsonV| join_type_of(j),
                ) && records_extracted(
                    t.join_unions,
                    ds,
                    "join__unionMember"@,
                    |j: JsonV| join_union_of(j),
                ),
                DefinitionV::Enum(t) => records_extracted(
                    t.join_types,
                    ds,
                    "join__type"@,
                    |j: JsonV| join_type_of(j),
                ) && enum_values_join_roundtrip(t.enum_values),
                DefinitionV::InputObject(t) => records_extracted(
                    t.join_types,
                    ds,
                    "join__type"@,
                    |j: JsonV| join_type_of(j),
                ),
            }
        },
{
    if parse_type_v(tn) is Ok {
        let ds = parse_directives_v(tn.directives)->Ok_0;
        lemma_extraction_records(ds, "join__type"@, |j: JsonV| join_type_of(j));
        lemma_extraction_records(ds, "join__implements"@, |j: JsonV| join_implements_of(j));
        lemma_extraction_records(ds, "join__unionMember"@, |j: JsonV| join_union_of(j));
        match tn.kind {
            crate::sdl::TypeKindNodeV::Object { implements, fields } => {
                lemma_parse_fields_roundtrip(fields);
            },
            crate::sdl::TypeKindNodeV::Interface { fields } => {
                lemma_parse_fields_roundtrip(fields);
            },
            crate::sdl::TypeKindNodeV::Enum { values } => {
                lemma_parse_enum_values_roundtrip(values);
            },
            _ => {},
        }
    }
}

} // verus!
