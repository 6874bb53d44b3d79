use query_planner::blueprint::Definition;
use query_planner::json::Json;
use query_planner::parse::parse;
use query_planner::sdl::ArgValue;
use query_planner::sdl::DirectiveNode;
use query_planner::sdl::Document;
use query_planner::sdl::EnumValueNode;
use query_planner::sdl::SchemaItem;
use query_planner::sdl::SchemaNode;
use query_planner::sdl::TypeKindNode;
use query_planner::sdl::TypeNode;

fn str_arg(name: &str, value: &str) -> (String, ArgValue) {
    (
        String::from(name),
        ArgValue { value: Some(Json::Str(String::from(value))), position: String::from("2:3") },
    )
}

fn scalar(name: &str, directives: Vec<DirectiveNode>, position: &str) -> SchemaItem {
    SchemaItem::Type(TypeNode {
        name: String::from(name),
        description: None,
        directives,
        kind: TypeKindNode::Scalar,
        position: String::from(position),
    })
}

fn registry_enum() -> SchemaItem {
    SchemaItem::Type(TypeNode {
        name: String::from("join__Graph"),
        description: None,
        directives: vec![],
        kind: TypeKindNode::Enum {
            values: vec![EnumValueNode {
                name: String::from("A"),
                description: None,
                directives: vec![DirectiveNode {
                    name: String::from("join__graph"),
                    arguments: vec![str_arg("name", "a"), str_arg("url", "http://a")],
                }],
            }],
        },
        position: String::from("1:1"),
    })
}

#[test]
fn registry_is_read_from_the_enumeration() {
    let doc = Document { definitions: vec![registry_enum(), scalar("Date", vec![], "3:1")] };
    let b = parse(doc).to_result().unwrap();
    assert_eq!(b.join_graphs.len(), 1);
    assert_eq!(b.join_graphs[0].name.as_str(), "a");
    assert_eq!(b.join_graphs[0].url, String::from("http://a"));
    assert_eq!(b.definitions.len(), 2);
}

#[test]
fn missing_registry_is_fatal() {
    let doc = Document { definitions: vec![scalar("Date", vec![], "3:1")] };
    let e = parse(doc).to_result().err().unwrap();
    assert_eq!(e.as_vec().len(), 1);
    assert_eq!(
        e.as_vec()[0].message,
        String::from("The `join__Graph` enumeration is missing")
    );
}

#[test]
fn duplicate_type_reports_its_position() {
    let doc = Document {
        definitions: vec![
            registry_enum(),
            scalar("Date", vec![], "3:1"),
            scalar("Date", vec![], "9:1"),
        ],
    };
    let e = parse(doc).to_result().err().unwrap();
    // the failed definition list is reported once for itself and once
    // through the registry, which depends on it
    assert_eq!(e.as_vec().len(), 2);
    assert_eq!(
        e.as_vec()[0].message,
        String::from("The type `Date` has been already defined, 9:1")
    );
    assert_eq!(e.as_vec()[1].message, e.as_vec()[0].message);
}

#[test]
fn malformed_join_directive_is_an_error() {
    // a join__type whose graph argument is not a string does not fit
    let bad = DirectiveNode {
        name: String::from("join__type"),
        arguments: vec![(
            String::from("graph"),
            ArgValue { value: Some(Json::Num(3)), position: String::from("4:4") },
        )],
    };
    let doc = Document { definitions: vec![registry_enum(), scalar("Date", vec![bad], "3:1")] };
    let e = parse(doc).to_result().err().unwrap();
    assert_eq!(e.as_vec().len(), 2);
    assert_eq!(
        e.as_vec()[0].message,
        String::from("malformed arguments for `join__type` directive")
    );
    assert_eq!(e.as_vec()[1].message, e.as_vec()[0].message);
}

#[test]
fn unconvertible_argument_reports_its_position() {
    let bad = DirectiveNode {
        name: String::from("anything"),
        arguments: vec![(
            String::from("x"),
            ArgValue { value: None, position: String::from("7:9") },
        )],
    };
    let doc = Document { definitions: vec![registry_enum(), scalar("Date", vec![bad], "3:1")] };
    let e = parse(doc).to_result().err().unwrap();
    assert_eq!(
        e.as_vec()[0].message,
        String::from("Could not convert `ConstValue` to `Value` @7:9")
    );
}

#[test]
fn join_type_defaults_are_applied() {
    let jt = DirectiveNode {
        name: String::from("join__type"),
        arguments: vec![str_arg("graph", "a"), str_arg("key", "id")],
    };
    let doc = Document { definitions: vec![registry_enum(), scalar("Entity", vec![jt], "3:1")] };
    let b = parse(doc).to_result().unwrap();
    let def = b
        .definitions
        .iter()
        .find(|d| match d {
            Definition::Scalar(s) => s.name == String::from("Entity"),
            _ => false,
        })
        .unwrap();
    match def {
        Definition::Scalar(s) => {
            assert_eq!(s.join_types.len(), 1);
            let jt = &s.join_types[0];
            assert_eq!(jt.graph.as_str(), "a");
            assert_eq!(jt.key, Some(String::from("id")));
            assert!(!jt.extension);
            assert!(jt.resolvable);
            assert!(!jt.is_interface_object);
        },
        _ => panic!("expected the scalar definition"),
    }
}

#[test]
fn schema_roots_first_binding_wins() {
    let doc = Document {
        definitions: vec![
            SchemaItem::Schema(SchemaNode {
                query: Some(String::from("QueryA")),
                mutation: None,
                subscription: None,
                directives: vec![],
            }),
            SchemaItem::Schema(SchemaNode {
                query: Some(String::from("QueryB")),
                mutation: Some(String::from("MutationB")),
                subscription: None,
                directives: vec![],
            }),
            registry_enum(),
        ],
    };
    let b = parse(doc).to_result().unwrap();
    assert_eq!(b.schema.query, Some(String::from("QueryA")));
    assert_eq!(b.schema.mutation, Some(String::from("MutationB")));
    assert_eq!(b.schema.subscription, None);
}
