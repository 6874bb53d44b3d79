//! The typed, join-aware intermediate representation of a supergraph.
//!
//! A blueprint holds the schema's type definitions together with the
//! federation metadata parsed out of the `join__*` directives: which
//! subgraph serves which type and field, keyed on what, and under which
//! name each subgraph is registered.

use vstd::prelude::*;

use crate::json::Json;
use crate::json::JsonV;

verus! {

/// The name of a subgraph.
pub struct Graph(String);

impl View for Graph {
    type V = Seq<char>;

    closed spec fn view(&self) -> Seq<char> {
        self.0@
    }
}

impl Graph {
    /// A subgraph name.
    pub fn new(name: &str) -> (r: Graph)
        ensures
            r@ == name@,
    {
        Graph(String::from_str(name))
    }

    /// The name as a string slice.
    pub fn as_str(&self) -> (r: &str)
        ensures
            r@ == self@,
    {
        self.0.as_str()
    }

    /// A fresh subgraph name equal to this one.
    pub fn duplicate(&self) -> (r: Graph)
        ensures
            r@ == self@,
    {
        Graph(self.0.clone())
    }

    /// Whether the two names are the same.
    pub fn same_as(&self, other: &Graph) -> (r: bool)
        ensures
            r == (self@ == other@),
    {
        self.0 == other.0
    }
}

/// A subgraph registration: its name paired with the address it serves.
pub struct JoinGraph {
    pub name: Graph,
    pub url: String,
}

/// The view of a [`JoinGraph`].
#[verifier::ext_equal]
pub struct JoinGraphV {
    pub name: Seq<char>,
    pub url: Seq<char>,
}

impl View for JoinGraph {
    type V = JoinGraphV;

    open spec fn view(&self) -> JoinGraphV {
        JoinGraphV { name: self.name@, url: self.url@ }
    }
}

/// Presence of a type in a subgraph, keyed on a field path.
pub struct JoinType {
    pub graph: Graph,
    pub key: Option<String>,
    pub extension: bool,
    pub resolvable: bool,
    pub is_interface_object: bool,
}

/// The view of a [`JoinType`].
#[verifier::ext_equal]
pub struct JoinTypeV {
    pub graph: Seq<char>,
    pub key: Option<Seq<char>>,
    pub extension: bool,
    pub resolvable: bool,
    pub is_interface_object: bool,
}

impl View for JoinType {
    type V = JoinTypeV;

    open spec fn view(&self) -> JoinTypeV {
        JoinTypeV {
            graph: self.graph@,
            key: match self.key {
                Option::Some(ref k) => Option::Some(k@),
                Option::None => Option::None,
            },
            extension: self.extension,
            resolvable: self.resolvable,
            is_interface_object: self.is_interface_object,
        }
    }
}

/// Presence of an enum value in a subgraph.
pub struct JoinEnum {
    pub graph: Graph,
}

impl View for JoinEnum {
    type V = Seq<char>;

    open spec fn view(&self) -> Seq<char> {
        self.graph@
    }
}

/// Per-field ownership and federation hints.
pub struct JoinField {
    pub graph: Option<Graph>,
    pub requires: Option<String>,
    pub provides: Option<String>,
    pub type_of: Option<String>,
    pub external: Option<bool>,
    pub override_of: Option<String>,
    pub used_overridden: Option<bool>,
}

/// The view of a [`JoinField`].
#[verifier::ext_equal]
pub struct JoinFieldV {
    pub graph: Option<Seq<char>>,
    pub requires: Option<Seq<char>>,
    pub provides: Option<Seq<char>>,
    pub type_of: Option<Seq<char>>,
    pub external: Option<bool>,
    pub override_of: Option<Seq<char>>,
    pub used_overridden: Option<bool>,
}

/// The view of an optional string.
pub open spec fn opt_view(o: Option<String>) -> Option<Seq<char>> {
    match o {
        Option::Some(s) => Option::Some(s@),
        Option::None => Option::None,
    }
}

impl View for JoinField {
    type V = JoinFieldV;

    open spec fn view(&self) -> JoinFieldV {
        JoinFieldV {
            graph: match self.graph {
                Option::Some(ref g) => Option::Some(g@),
                Option::None => Option::None,
            },
            requires: opt_view(self.requires),
            provides: opt_view(self.provides),
            type_of: opt_view(self.type_of),
            external: self.external,
            override_of: opt_view(self.override_of),
            used_overridden: self.used_overridden,
        }
    }
}

impl JoinField {
    /// Ownership of a field by `graph` with no further hints.
    pub fn new(graph: Graph) -> (r: JoinField)
        ensures
            r@ == (JoinFieldV {
                graph: Option::Some(graph@),
                requires: Option::None,
                provides: Option::None,
                type_of: Option::None,
                external: Option::None,
                override_of: Option::None,
                used_overridden: Option::None,
            }),
    {
        JoinField {
            graph: Some(graph),
            requires: None,
            provides: None,
            type_of: None,
            external: None,
            override_of: None,
            used_overridden: None,
        }
    }
}

/// Interface membership of a type in a subgraph.
pub struct JoinImplements {
    pub graph: Graph,
    pub interface: String,
}

/// The view of a [`JoinImplements`].
#[verifier::ext_equal]
pub struct JoinImplementsV {
    pub graph: Seq<char>,
    pub interface: Seq<char>,
}

impl View for JoinImplements {
    type V = JoinImplementsV;

    open spec fn view(&self) -> JoinImplementsV {
        JoinImplementsV { graph: self.graph@, interface: self.interface@ }
    }
}

/// Union membership of a type in a subgraph.
pub struct JoinUnion {
    pub graph: Graph,
    pub member: String,
}

/// The view of a [`JoinUnion`].
#[verifier::ext_equal]
pub struct JoinUnionV {
    pub graph: Seq<char>,
    pub member: Seq<char>,
}

impl View for JoinUnion {
    type V = JoinUnionV;

    open spec fn view(&self) -> JoinUnionV {
        JoinUnionV { graph: self.graph@, member: self.member@ }
    }
}

/// A GraphQL type usage with its wrapping modifiers.
pub enum Type {
    Named { name: String, required: bool },
    List { of_type: Box<Type>, non_null: bool },
}

/// The view of a [`Type`].
#[verifier::ext_equal]
pub enum TypeV {
    Named { name: Seq<char>, required: bool },
    List { of_type: Box<TypeV>, non_null: bool },
}

impl View for Type {
    type V = TypeV;

    open spec fn view(&self) -> TypeV
        decreases self,
    {
        match self {
            Type::Named { name, required } => TypeV::Named { name: name@, required: *required },
            Type::List { of_type, non_null } => TypeV::List {
                of_type: Box::new((&**of_type)@),
                non_null: *non_null,
            },
        }
    }
}

/// The base type name under all list wrappers.
pub open spec fn base_type_name(t: TypeV) -> Seq<char>
    decreases t,
{
    match t {
        TypeV::Named { name, .. } => name,
        TypeV::List { of_type, .. } => base_type_name(*of_type),
    }
}

impl Type {
    /// The base type name under all list wrappers.
    pub fn as_type_str(&self) -> (r: &str)
        ensures
            r@ == base_type_name(self@),
        decreases self,
    {
        match self {
            Type::Named { name, .. } => name.as_str(),
            Type::List { of_type, .. } => of_type.as_type_str(),
        }
    }
}

/// A raw directive as it stands on a schema element: its name and its
/// arguments as one JSON object.
pub struct Directive {
    pub name: String,
    pub arguments: Json,
}

/// The view of a [`Directive`].
#[verifier::ext_equal]
pub struct DirectiveV {
    pub name: Seq<char>,
    pub arguments: JsonV,
}

impl View for Directive {
    type V = DirectiveV;

    open spec fn view(&self) -> DirectiveV {
        DirectiveV { name: self.name@, arguments: self.arguments@ }
    }
}

/// An input field or argument definition.
pub struct InputFieldDefinition {
    pub name: String,
    pub of_type: Type,
    pub default_value: Option<Json>,
    pub description: Option<String>,
    pub join_fields: Vec<JoinField>,
}

/// The view of an [`InputFieldDefinition`].
#[verifier::ext_equal]
pub struct InputFieldDefinitionV {
    pub name: Seq<char>,
    pub of_type: TypeV,
    pub default_value: Option<JsonV>,
    pub description: Option<Seq<char>>,
    pub join_fields: Seq<JoinFieldV>,
}

impl View for InputFieldDefinition {
    type V = InputFieldDefinitionV;

    open spec fn view(&self) -> InputFieldDefinitionV {
        InputFieldDefinitionV {
            name: self.name@,
            of_type: self.of_type@,
            default_value: match self.default_value {
                Option::Some(ref v) => Option::Some(v@),
                Option::None => Option::None,
            },
            description: opt_view(self.description),
            join_fields: self.join_fields@.map_values(|jf: JoinField| jf@),
        }
    }
}

/// An output field definition.
pub struct FieldDefinition {
    pub name: String,
    pub args: Vec<InputFieldDefinition>,
    pub of_type: Type,
    pub directives: Vec<Directive>,
    pub description: Option<String>,
    pub join_fields: Vec<JoinField>,
}

/// The view of a [`FieldDefinition`].
#[verifier::ext_equal]
pub struct FieldDefinitionV {
    pub name: Seq<char>,
    pub args: Seq<InputFieldDefinitionV>,
    pub of_type: TypeV,
    pub directives: Seq<DirectiveV>,
    pub description: Option<Seq<char>>,
    pub join_fields: Seq<JoinFieldV>,
}

impl View for FieldDefinition {
    type V = FieldDefinitionV;

    open spec fn view(&self) -> FieldDefinitionV {
        FieldDefinitionV {
            name: self.name@,
            args: self.args@.map_values(|a: InputFieldDefinition| a@),
            of_type: self.of_type@,
            directives: self.directives@.map_values(|d: Directive| d@),
            description: opt_view(self.description),
            join_fields: self.join_fields@.map_values(|jf: JoinField| jf@),
        }
    }
}

/// An object type definition.
pub struct ObjectTypeDefinition {
    pub name: String,
    pub fields: Vec<FieldDefinition>,
    pub description: Option<String>,
    pub implements: Vec<String>,
    pub join_types: Vec<JoinType>,
    pub join_implements: Vec<JoinImplements>,
}

/// The view of an [`ObjectTypeDefinition`].
#[verifier::ext_equal]
pub struct ObjectTypeDefinitionV {
    pub name: Seq<char>,
    pub fields: Seq<FieldDefinitionV>,
    pub description: Option<Seq<char>>,
    pub implements: Seq<Seq<char>>,
    pub join_types: Seq<JoinTypeV>,
    pub join_implements: Seq<JoinImplementsV>,
}

impl View for ObjectTypeDefinition {
    type V = ObjectTypeDefinitionV;

    open spec fn view(&self) -> ObjectTypeDefinitionV {
        ObjectTypeDefinitionV {
            name: self.name@,
            fields: self.fields@.map_values(|f: FieldDefinition| f@),
            description: opt_view(self.description),
            implements: self.implements.deep_view(),
            join_types: self.join_types@.map_values(|jt: JoinType| jt@),
            join_implements: self.join_implements@.map_values(|ji: JoinImplements| ji@),
        }
    }
}

/// An interface type definition.
pub struct InterfaceTypeDefinition {
    pub name: String,
    pub fields: Vec<FieldDefinition>,
    pub description: Option<String>,
    pub join_types: Vec<JoinType>,
    pub join_implements: Vec<JoinImplements>,
}

/// The view of an [`InterfaceTypeDefinition`].
#[verifier::ext_equal]
pub struct InterfaceTypeDefinitionV {
    pub name: Seq<char>,
    pub fields: Seq<FieldDefinitionV>,
    pub description: Option<Seq<char>>,
    pub join_types: Seq<JoinTypeV>,
    pub join_implements: Seq<JoinImplementsV>,
}

impl View for InterfaceTypeDefinition {
    type V = InterfaceTypeDefinitionV;

    open spec fn view(&self) -> InterfaceTypeDefinitionV {
        InterfaceTypeDefinitionV {
            name: self.name@,
            fields: self.fields@.map_values(|f: FieldDefinition| f@),
            description: opt_view(self.description),
            join_types: self.join_types@.map_values(|jt: JoinType| jt@),
            join_implements: self.join_implements@.map_values(|ji: JoinImplements| ji@),
        }
    }
}

/// An input object type definition.
pub struct InputObjectTypeDefinition {
    pub name: String,
    pub fields: Vec<InputFieldDefinition>,
    pub description: Option<String>,
    pub join_types: Vec<JoinType>,
}

/// The view of an [`InputObjectTypeDefinition`].
#[verifier::ext_equal]
pub struct InputObjectTypeDefinitionV {
    pub name: Seq<char>,
    pub fields: Seq<InputFieldDefinitionV>,
    pub description: Option<Seq<char>>,
    pub join_types: Seq<JoinTypeV>,
}

impl View for InputObjectTypeDefinition {
    type V = InputObjectTypeDefinitionV;

    open spec fn view(&self) -> InputObjectTypeDefinitionV {
        InputObjectTypeDefinitionV {
            name: self.name@,
            fields: self.fields@.map_values(|f: InputFieldDefinition| f@),
            description: opt_view(self.description),
            join_types: self.join_types@.map_values(|jt: JoinType| jt@),
        }
    }
}

/// A scalar type definition.
pub struct ScalarTypeDefinition {
    pub name: String,
    pub directives: Vec<Directive>,
    pub description: Option<String>,
    pub join_types: Vec<JoinType>,
}

/// The view of a [`ScalarTypeDefinition`].
#[verifier::ext_equal]
pub struct ScalarTypeDefinitionV {
    pub name: Seq<char>,
    pub directives: Seq<DirectiveV>,
    pub description: Option<Seq<char>>,
    pub join_types: Seq<JoinTypeV>,
}

impl View for ScalarTypeDefinition {
    type V = ScalarTypeDefinitionV;

    open spec fn view(&self) -> ScalarTypeDefinitionV {
        ScalarTypeDefinitionV {
            name: self.name@,
            directives: self.directives@.map_values(|d: Directive| d@),
            description: opt_view(self.description),
            join_types: self.join_types@.map_values(|jt: JoinType| jt@),
        }
    }
}

/// One value of an enum type definition.
pub struct EnumValueDefinition {
    pub description: Option<String>,
    pub name: String,
    pub directives: Vec<Directive>,
    pub join_enums: Vec<JoinEnum>,
}

/// The view of an [`EnumValueDefinition`].
#[verifier::ext_equal]
pub struct EnumValueDefinitionV {
    pub description: Option<Seq<char>>,
    pub name: Seq<char>,
    pub directives: Seq<DirectiveV>,
    pub join_enums: Seq<Seq<char>>,
}

impl View for EnumValueDefinition {
    type V = EnumValueDefinitionV;

    open spec fn view(&self) -> EnumValueDefinitionV {
        EnumValueDefinitionV {
            description: opt_view(self.description),
            name: self.name@,
            directives: self.directives@.map_values(|d: Directive| d@),
            join_enums: self.join_enums@.map_values(|je: JoinEnum| je@),
        }
    }
}

/// An enum type definition.
pub struct EnumTypeDefinition {
    pub name: String,
    pub directives: Vec<Directive>,
    pub description: Option<String>,
    pub enum_values: Vec<EnumValueDefinition>,
    pub join_types: Vec<JoinType>,
}

/// The view of an [`EnumTypeDefinition`].
#[verifier::ext_equal]
pub struct EnumTypeDefinitionV {
    pub name: Seq<char>,
    pub directives: Seq<DirectiveV>,
    pub description: Option<Seq<char>>,
    pub enum_values: Seq<EnumValueDefinitionV>,
    pub join_types: Seq<JoinTypeV>,
}

impl View for EnumTypeDefinition {
    type V = EnumTypeDefinitionV;

    open spec fn view(&self) -> EnumTypeDefinitionV {
        EnumTypeDefinitionV {
            name: self.name@,
            directives: self.directives@.map_values(|d: Directive| d@),
            description: opt_view(self.description),
            enum_values: self.enum_values@.map_values(|v: EnumValueDefinition| v@),
            join_types: self.join_types@.map_values(|jt: JoinType| jt@),
        }
    }
}

/// A union type definition.
pub struct UnionTypeDefinition {
    pub name: String,
    pub directives: Vec<Directive>,
    pub description: Option<String>,
    pub types: Vec<String>,
    pub join_types: Vec<JoinType>,
    pub join_unions: Vec<JoinUnion>,
}

/// The view of a [`UnionTypeDefinition`].
#[verifier::ext_equal]
pub struct UnionTypeDefinitionV {
    pub name: Seq<char>,
    pub directives: Seq<DirectiveV>,
    pub description: Option<Seq<char>>,
    pub types: Seq<Seq<char>>,
    pub join_types: Seq<JoinTypeV>,
    pub join_unions: Seq<JoinUnionV>,
}

impl View for UnionTypeDefinition {
    type V = UnionTypeDefinitionV;

    open spec fn view(&self) -> UnionTypeDefinitionV {
        UnionTypeDefinitionV {
            name: self.name@,
            directives: self.directives@.map_values(|d: Directive| d@),
            description: opt_view(self.description),
            types: self.types.deep_view(),
            join_types: self.join_types@.map_values(|jt: JoinType| jt@),
            join_unions: self.join_unions@.map_values(|ju: JoinUnion| ju@),
        }
    }
}

/// A schema type definition of any kind.
pub enum Definition {
    Interface(InterfaceTypeDefinition),
    Object(ObjectTypeDefinition),
    InputObject(InputObjectTypeDefinition),
    Scalar(ScalarTypeDefinition),
    Enum(EnumTypeDefinition),
    Union(UnionTypeDefinition),
}

/// The view of a [`Definition`].
#[verifier::ext_equal]
pub enum DefinitionV {
    Interface(InterfaceTypeDefinitionV),
    Object(ObjectTypeDefinitionV),
    InputObject(InputObjectTypeDefinitionV),
    Scalar(ScalarTypeDefinitionV),
    Enum(EnumTypeDefinitionV),
    Union(UnionTypeDefinitionV),
}

impl View for Definition {
    type V = DefinitionV;

    open spec fn view(&self) -> DefinitionV {
        match self {
            Definition::Interface(d) => DefinitionV::Interface(d@),
            Definition::Object(d) => DefinitionV::Object(d@),
            Definition::InputObject(d) => DefinitionV::InputObject(d@),
            Definition::Scalar(d) => DefinitionV::Scalar(d@),
            Definition::Enum(d) => DefinitionV::Enum(d@),
            Definition::Union(d) => DefinitionV::Union(d@),
        }
    }
}

/// The name of a definition of any kind.
pub open spec fn definition_name(d: DefinitionV) -> Seq<char> {
    match d {
        DefinitionV::Interface(t) => t.name,
        DefinitionV::Object(t) => t.name,
        DefinitionV::InputObject(t) => t.name,
        DefinitionV::Scalar(t) => t.name,
        DefinitionV::Enum(t) => t.name,
        DefinitionV::Union(t) => t.name,
    }
}

impl Definition {
    /// The name of this definition.
    pub fn name(&self) -> (r: &String)
        ensures
            r@ == definition_name(self@),
    {
        match self {
            Definition::Interface(d) => &d.name,
            Definition::Object(d) => &d.name,
            Definition::InputObject(d) => &d.name,
            Definition::Scalar(d) => &d.name,
            Definition::Enum(d) => &d.name,
            Definition::Union(d) => &d.name,
        }
    }
}

/// The schema's root operation bindings and directives.
pub struct SchemaDefinition {
    pub query: Option<String>,
    pub mutation: Option<String>,
    pub subscription: Option<String>,
    pub directives: Vec<Directive>,
}

/// The view of a [`SchemaDefinition`].
#[verifier::ext_equal]
pub struct SchemaDefinitionV {
    pub query: Option<Seq<char>>,
    pub mutation: Option<Seq<char>>,
    pub subscription: Option<Seq<char>>,
    pub directives: Seq<DirectiveV>,
}

impl View for SchemaDefinition {
    type V = SchemaDefinitionV;

    open spec fn view(&self) -> SchemaDefinitionV {
        SchemaDefinitionV {
            query: opt_view(self.query),
            mutation: opt_view(self.mutation),
            subscription: opt_view(self.subscription),
            directives: self.directives@.map_values(|d: Directive| d@),
        }
    }
}

/// A directive definition: its arguments and the locations it may stand on.
pub struct DirectiveDefinition {
    pub name: String,
    pub description: Option<String>,
    pub arguments: Vec<InputFieldDefinition>,
    pub repeatable: bool,
    pub locations: Vec<String>,
}

/// The view of a [`DirectiveDefinition`].
#[verifier::ext_equal]
pub struct DirectiveDefinitionV {
    pub name: Seq<char>,
    pub description: Option<Seq<char>>,
    pub arguments: Seq<InputFieldDefinitionV>,
    pub repeatable: bool,
    pub locations: Seq<Seq<char>>,
}

impl View for DirectiveDefinition {
    type V = DirectiveDefinitionV;

    open spec fn view(&self) -> DirectiveDefinitionV {
        DirectiveDefinitionV {
            name: self.name@,
            description: opt_view(self.description),
            arguments: self.arguments@.map_values(|a: InputFieldDefinition| a@),
            repeatable: self.repeatable,
            locations: self.locations.deep_view(),
        }
    }
}

/// The blueprint: every definition of the supergraph with its federation
/// metadata and the subgraph registry.
pub struct Blueprint {
    pub definitions: Vec<Definition>,
    pub schema: SchemaDefinition,
    pub directives: Vec<DirectiveDefinition>,
    pub join_graphs: Vec<JoinGraph>,
}

/// The view of a [`Blueprint`].
#[verifier::ext_equal]
pub struct BlueprintV {
    pub definitions: Seq<DefinitionV>,
    pub schema: SchemaDefinitionV,
    pub directives: Seq<DirectiveDefinitionV>,
    pub join_graphs: Seq<JoinGraphV>,
}

impl View for Blueprint {
    type V = BlueprintV;

    open spec fn view(&self) -> BlueprintV {
        BlueprintV {
            definitions: self.definitions@.map_values(|d: Definition| d@),
            schema: self.schema@,
            directives: self.directives@.map_values(|d: DirectiveDefinition| d@),
            join_graphs: self.join_graphs@.map_values(|g: JoinGraph| g@),
        }
    }
}


impl JoinField {
    /// A fresh entry with the same content.
    pub fn duplicate(&self) -> (r: JoinField)
        ensures
            r@ == self@,
    {
        JoinField {
            graph: match &self.graph {
                Some(g) => Some(g.duplicate()),
                None => None,
            },
            requires: clone_opt(&self.requires),
            provides: clone_opt(&self.provides),
            type_of: clone_opt(&self.type_of),
            external: match self.external {
                Some(b) => Some(b),
                None => None,
            },
            override_of: clone_opt(&self.override_of),
            used_overridden: match self.used_overridden {
                Some(b) => Some(b),
                None => None,
            },
        }
    }
}

/// A fresh copy of an optional string.
fn clone_opt(o: &Option<String>) -> (r: Option<String>)
    ensures
        opt_view(r) == opt_view(*o),
{
    match o {
        Some(s) => Some(s.clone()),
        None => None,
    }
}

/// A fresh copy of a field's metadata entries.
pub fn duplicate_join_fields(v: &Vec<JoinField>) -> (r: Vec<JoinField>)
    ensures
        r@.map_values(|jf: JoinField| jf@) == v@.map_values(|jf: JoinField| jf@),
{
    let n = v.len();
    let mut out: Vec<JoinField> = Vec::new();
    let mut i: usize = 0;
    while i < n
        invariant
            i <= n,
            n == v@.len(),
            out@.len() == i,
            forall|j: int| 0 <= j < i ==> (#[trigger] out@[j])@ == v@[j]@,
        decreases n - i,
    {
        out.push(v[i].duplicate());
        i = i + 1;
    }
    proof {
        assert(out@.map_values(|jf: JoinField| jf@) =~= v@.map_values(|jf: JoinField| jf@));
    }
    out
}

} // verus!
