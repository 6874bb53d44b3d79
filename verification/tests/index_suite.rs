use query_planner::blueprint::Blueprint;
use query_planner::blueprint::Definition;
use query_planner::blueprint::FieldDefinition;
use query_planner::blueprint::ObjectTypeDefinition;
use query_planner::blueprint::SchemaDefinition;
use query_planner::blueprint::Type;
use query_planner::index::QueryField;

fn field_def(name: &str, ty: &str) -> FieldDefinition {
    FieldDefinition {
        name: String::from(name),
        args: vec![],
        of_type: Type::Named { name: String::from(ty), required: false },
        directives: vec![],
        description: None,
        join_fields: vec![],
    }
}

fn blueprint() -> Blueprint {
    Blueprint {
        definitions: vec![Definition::Object(ObjectTypeDefinition {
            name: String::from("Query"),
            fields: vec![field_def("me", "User"), field_def("version", "String")],
            description: None,
            implements: vec![],
            join_types: vec![],
            join_implements: vec![],
        })],
        schema: SchemaDefinition {
            query: Some(String::from("Query")),
            mutation: None,
            subscription: None,
            directives: vec![],
        },
        directives: vec![],
        join_graphs: vec![],
    }
}

#[test]
fn every_object_field_is_reachable() {
    let b = blueprint();
    let index = b.to_index();
    for fname in ["me", "version"] {
        match index.get_field("Query", fname) {
            Some(QueryField::Field((def, _))) => assert_eq!(def.name, String::from(fname)),
            _ => panic!("field lookup came back empty"),
        }
    }
    assert!(index.get_field("Query", "absent").is_none());
    assert!(index.get_field("Other", "me").is_none());
}

#[test]
fn type_and_roots_are_recorded() {
    let b = blueprint();
    let index = b.to_index();
    assert!(index.get_type("Query").is_some());
    assert!(index.get_type("Missing").is_none());
    assert!(index.get_object_type_definition("Query").is_some());
    assert_eq!(index.get_query(), Some(&String::from("Query")));
    assert!(index.get_mutation().is_none());
    assert!(index.get_subscription().is_none());
}

#[test]
fn base_type_name_unwraps_lists() {
    let t = Type::List {
        of_type: Box::new(Type::List {
            of_type: Box::new(Type::Named { name: String::from("Review"), required: true }),
            non_null: false,
        }),
        non_null: true,
    };
    assert_eq!(t.as_type_str(), "Review");
}
