//! A parsed SDL document, as plain data.
//!
//! The blueprint builder works over this mirror of a schema document: each
//! definition with its name, directives and fields, directive arguments
//! already carried as JSON values, and source positions carried as
//! rendered strings for error messages. Whatever parses the SDL text
//! hands the builder a [`Document`].

use vstd::prelude::*;

use crate::blueprint::opt_view;
use crate::json::Json;
use crate::json::JsonV;

verus! {

/// One directive argument value: the JSON form of the value, or nothing
/// when the value has no JSON form, with the position it was written at.
pub struct ArgValue {
    pub value: Option<Json>,
    pub position: String,
}

/// The view of an [`ArgValue`].
#[verifier::ext_equal]
pub struct ArgValueV {
    pub value: Option<JsonV>,
    pub position: Seq<char>,
}

impl View for ArgValue {
    type V = ArgValueV;

    open spec fn view(&self) -> ArgValueV {
        ArgValueV {
            value: match self.value {
                Option::Some(ref j) => Option::Some(j@),
                Option::None => Option::None,
            },
            position: self.position@,
        }
    }
}

/// A directive applied to a schema element.
pub struct DirectiveNode {
    pub name: String,
    pub arguments: Vec<(String, ArgValue)>,
}

/// The view of a [`DirectiveNode`].
#[verifier::ext_equal]
pub struct DirectiveNodeV {
    pub name: Seq<char>,
    pub arguments: Seq<(Seq<char>, ArgValueV)>,
}

impl View for DirectiveNode {
    type V = DirectiveNodeV;

    open spec fn view(&self) -> DirectiveNodeV {
        DirectiveNodeV {
            name: self.name@,
            arguments: self.arguments@.map_values(|kv: (String, ArgValue)| (kv.0@, kv.1@)),
        }
    }
}

/// A type usage with its wrapping modifiers.
pub enum TypeRefNode {
    Named { name: String, nullable: bool },
    List { inner: Box<TypeRefNode>, nullable: bool },
}

/// The view of a [`TypeRefNode`].
#[verifier::ext_equal]
pub enum TypeRefNodeV {
    Named { name: Seq<char>, nullable: bool },
    List { inner: Box<TypeRefNodeV>, nullable: bool },
}

impl View for TypeRefNode {
    type V = TypeRefNodeV;

    open spec fn view(&self) -> TypeRefNodeV
        decreases self,
    {
        match self {
            TypeRefNode::Named { name, nullable } => TypeRefNodeV::Named {
                name: name@,
                nullable: *nullable,
            },
            TypeRefNode::List { inner, nullable } => TypeRefNodeV::List {
                inner: Box::new((&**inner)@),
                nullable: *nullable,
            },
        }
    }
}

/// An input value definition: an argument or an input-object field.
pub struct InputValueNode {
    pub name: String,
    pub description: Option<String>,
    pub ty: TypeRefNode,
    pub default_value: Option<ArgValue>,
    pub directives: Vec<DirectiveNode>,
}

/// The view of an [`InputValueNode`].
#[verifier::ext_equal]
pub struct InputValueNodeV {
    pub name: Seq<char>,
    pub description: Option<Seq<char>>,
    pub ty: TypeRefNodeV,
    pub default_value: Option<ArgValueV>,
    pub directives: Seq<DirectiveNodeV>,
}

impl View for InputValueNode {
    type V = InputValueNodeV;

    open spec fn view(&self) -> InputValueNodeV {
        InputValueNodeV {
            name: self.name@,
            description: opt_view(self.description),
            ty: self.ty@,
            default_value: match self.default_value {
                Option::Some(ref a) => Option::Some(a@),
                Option::None => Option::None,
            },
            directives: self.directives@.map_values(|d: DirectiveNode| d@),
        }
    }
}

/// An output field definition.
pub struct FieldNode {
    pub name: String,
    pub description: Option<String>,
    pub ty: TypeRefNode,
    pub arguments: Vec<InputValueNode>,
    pub directives: Vec<DirectiveNode>,
}

/// The view of a [`FieldNode`].
#[verifier::ext_equal]
pub struct FieldNodeV {
    pub name: Seq<char>,
    pub description: Option<Seq<char>>,
    pub ty: TypeRefNodeV,
    pub arguments: Seq<InputValueNodeV>,
    pub directives: Seq<DirectiveNodeV>,
}

impl View for FieldNode {
    type V = FieldNodeV;

    open spec fn view(&self) -> FieldNodeV {
        FieldNodeV {
            name: self.name@,
            description: opt_view(self.description),
            ty: self.ty@,
            arguments: self.arguments@.map_values(|a: InputValueNode| a@),
            directives: self.directives@.map_values(|d: DirectiveNode| d@),
        }
    }
}

/// One enum value with its directives.
pub struct EnumValueNode {
    pub name: String,
    pub description: Option<String>,
    pub directives: Vec<DirectiveNode>,
}

/// The view of an [`EnumValueNode`].
#[verifier::ext_equal]
pub struct EnumValueNodeV {
    pub name: Seq<char>,
    pub description: Option<Seq<char>>,
    pub directives: Seq<DirectiveNodeV>,
}

impl View for EnumValueNode {
    type V = EnumValueNodeV;

    open spec fn view(&self) -> EnumValueNodeV {
        EnumValueNodeV {
            name: self.name@,
            description: opt_view(self.description),
            directives: self.directives@.map_values(|d: DirectiveNode| d@),
        }
    }
}

/// The kind-specific part of a type definition.
pub enum TypeKindNode {
    Scalar,
    Object { implements: Vec<String>, fields: Vec<FieldNode> },
    Interface { fields: Vec<FieldNode> },
    Union { members: Vec<String> },
    Enum { values: Vec<EnumValueNode> },
    InputObject { fields: Vec<InputValueNode> },
}

/// The view of a [`TypeKindNode`].
#[verifier::ext_equal]
pub enum TypeKindNodeV {
    Scalar,
    Object { implements: Seq<Seq<char>>, fields: Seq<FieldNodeV> },
    Interface { fields: Seq<FieldNodeV> },
    Union { members: Seq<Seq<char>> },
    Enum { values: Seq<EnumValueNodeV> },
    InputObject { fields: Seq<InputValueNodeV> },
}

impl View for TypeKindNode {
    type V = TypeKindNodeV;

    open spec fn view(&self) -> TypeKindNodeV {
        match self {
            TypeKindNode::Scalar => TypeKindNodeV::Scalar,
            TypeKindNode::Object { implements, fields } => TypeKindNodeV::Object {
                implements: implements.deep_view(),
                fields: fields@.map_values(|f: FieldNode| f@),
            },
            TypeKindNode::Interface { fields } => TypeKindNodeV::Interface {
                fields: fields@.map_values(|f: FieldNode| f@),
            },
            TypeKindNode::Union { members } => TypeKindNodeV::Union {
                members: members.deep_view(),
            },
            TypeKindNode::Enum { values } => TypeKindNodeV::Enum {
                values: values@.map_values(|v: EnumValueNode| v@),
            },
            TypeKindNode::InputObject { fields } => TypeKindNodeV::InputObject {
                fields: fields@.map_values(|f: InputValueNode| f@),
            },
        }
    }
}

/// One type definition of the document.
pub struct TypeNode {
    pub name: String,
    pub description: Option<String>,
    pub directives: Vec<DirectiveNode>,
    pub kind: TypeKindNode,
    pub position: String,
}

/// The view of a [`TypeNode`].
#[verifier::ext_equal]
pub struct TypeNodeV {
    pub name: Seq<char>,
    pub description: Option<Seq<char>>,
    pub directives: Seq<DirectiveNodeV>,
    pub kind: TypeKindNodeV,
    pub position: Seq<char>,
}

impl View for TypeNode {
    type V = TypeNodeV;

    open spec fn view(&self) -> TypeNodeV {
        TypeNodeV {
            name: self.name@,
            description: opt_view(self.description),
            directives: self.directives@.map_values(|d: DirectiveNode| d@),
            kind: self.kind@,
            position: self.position@,
        }
    }
}

/// A schema definition: root operation bindings and directives.
pub struct SchemaNode {
    pub query: Option<String>,
    pub mutation: Option<String>,
    pub subscription: Option<String>,
    pub directives: Vec<DirectiveNode>,
}

/// The view of a [`SchemaNode`].
#[verifier::ext_equal]
pub struct SchemaNodeV {
    pub query: Option<Seq<char>>,
    pub mutation: Option<Seq<char>>,
    pub subscription: Option<Seq<char>>,
    pub directives: Seq<DirectiveNodeV>,
}

impl View for SchemaNode {
    type V = SchemaNodeV;

    open spec fn view(&self) -> SchemaNodeV {
        SchemaNodeV {
            query: opt_view(self.query),
            mutation: opt_view(self.mutation),
            subscription: opt_view(self.subscription),
            directives: self.directives@.map_values(|d: DirectiveNode| d@),
        }
    }
}

/// A directive definition of the document.
pub struct DirectiveDefNode {
    pub name: String,
    pub description: Option<String>,
    pub arguments: Vec<InputValueNode>,
    pub repeatable: bool,
    pub locations: Vec<String>,
    pub position: String,
}

/// The view of a [`DirectiveDefNode`].
#[verifier::ext_equal]
pub struct DirectiveDefNodeV {
    pub name: Seq<char>,
    pub description: Option<Seq<char>>,
    pub arguments: Seq<InputValueNodeV>,
    pub repeatable: bool,
    pub locations: Seq<Seq<char>>,
    pub position: Seq<char>,
}

impl View for DirectiveDefNode {
    type V = DirectiveDefNodeV;

    open spec fn view(&self) -> DirectiveDefNodeV {
        DirectiveDefNodeV {
            name: self.name@,
            description: opt_view(self.description),
            arguments: self.arguments@.map_values(|a: InputValueNode| a@),
            repeatable: self.repeatable,
            locations: self.locations.deep_view(),
            position: self.position@,
        }
    }
}

/// One top-level definition of the document.
pub enum SchemaItem {
    Schema(SchemaNode),
    Type(TypeNode),
    Directive(DirectiveDefNode),
}

/// The view of a [`SchemaItem`].
#[verifier::ext_equal]
pub enum SchemaItemV {
    Schema(SchemaNodeV),
    Type(TypeNodeV),
    Directive(DirectiveDefNodeV),
}

impl View for SchemaItem {
    type V = SchemaItemV;

    open spec fn view(&self) -> SchemaItemV {
        match self {
            SchemaItem::Schema(s) => SchemaItemV::Schema(s@),
            SchemaItem::Type(t) => SchemaItemV::Type(t@),
            SchemaItem::Directive(d) => SchemaItemV::Directive(d@),
        }
    }
}

/// A whole parsed document.
pub struct Document {
    pub definitions: Vec<SchemaItem>,
}

/// The view of a [`Document`].
#[verifier::ext_equal]
pub struct DocumentV {
    pub definitions: Seq<SchemaItemV>,
}

impl View for Document {
    type V = DocumentV;

    open spec fn view(&self) -> DocumentV {
        DocumentV { definitions: self.definitions@.map_values(|d: SchemaItem| d@) }
    }
}

} // verus!
