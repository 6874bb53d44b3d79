use std::rc::Rc;

use query_planner::builder::OperationNode;
use query_planner::builder::SelectionNode;
use query_planner::json::Json;
use query_planner::model::Field;
use query_planner::model::QueryPlan;
use query_planner::parse::parse;
use query_planner::sdl::ArgValue;
use query_planner::sdl::DirectiveNode;
use query_planner::sdl::Document;
use query_planner::sdl::FieldNode;
use query_planner::sdl::SchemaItem;
use query_planner::sdl::SchemaNode;
use query_planner::sdl::TypeKindNode;
use query_planner::sdl::TypeNode;
use query_planner::sdl::TypeRefNode;
use query_planner::sdl::EnumValueNode;
use query_planner::transform::Transform;
use query_planner::transforms::enrich::Enrich;
use query_planner::transforms::minify::Minify;
use query_planner::transforms::preset::Preset;

fn str_arg(name: &str, value: &str) -> (String, ArgValue) {
    (
        String::from(name),
        ArgValue { value: Some(Json::Str(String::from(value))), position: String::from("1:1") },
    )
}

fn directive(name: &str, args: Vec<(String, ArgValue)>) -> DirectiveNode {
    DirectiveNode { name: String::from(name), arguments: args }
}

fn join_field_dir(graph: &str) -> DirectiveNode {
    directive("join__field", vec![str_arg("graph", graph)])
}

fn named(ty: &str) -> TypeRefNode {
    TypeRefNode::Named { name: String::from(ty), nullable: true }
}

fn field(name: &str, ty: &str, directives: Vec<DirectiveNode>) -> FieldNode {
    FieldNode {
        name: String::from(name),
        description: None,
        ty: named(ty),
        arguments: vec![],
        directives,
    }
}

fn object(name: &str, graph: &str, fields: Vec<FieldNode>) -> SchemaItem {
    SchemaItem::Type(TypeNode {
        name: String::from(name),
        description: None,
        directives: vec![directive("join__type", vec![str_arg("graph", graph)])],
        kind: TypeKindNode::Object { implements: vec![], fields },
        position: String::from("1:1"),
    })
}

fn registry(graphs: Vec<&str>) -> SchemaItem {
    SchemaItem::Type(TypeNode {
        name: String::from("join__Graph"),
        description: None,
        directives: vec![],
        kind: TypeKindNode::Enum {
            values: graphs
                .into_iter()
                .map(|g| EnumValueNode {
                    name: String::from(g).to_uppercase(),
                    description: None,
                    directives: vec![directive(
                        "join__graph",
                        vec![str_arg("name", g), str_arg("url", "http://service")],
                    )],
                })
                .collect(),
        },
        position: String::from("1:1"),
    })
}

fn schema_root() -> SchemaItem {
    SchemaItem::Schema(SchemaNode {
        query: Some(String::from("Query")),
        mutation: None,
        subscription: None,
        directives: vec![],
    })
}

fn supergraph() -> Document {
    Document {
        definitions: vec![
            schema_root(),
            registry(vec!["Product", "Reviews", "Unknown"]),
            object(
                "Query",
                "Product",
                vec![field("topProducts", "Product", vec![join_field_dir("Product")])],
            ),
            object(
                "Product",
                "Product",
                vec![
                    field("name", "String", vec![join_field_dir("Product")]),
                    field("reviews", "Review", vec![join_field_dir("Reviews")]),
                ],
            ),
            object(
                "Review",
                "Reviews",
                vec![field(
                    "body",
                    "String",
                    vec![join_field_dir("Reviews"), join_field_dir("Unknown")],
                )],
            ),
        ],
    }
}

fn sel(name: &str, children: Vec<SelectionNode>) -> SelectionNode {
    SelectionNode::Field {
        name: String::from(name),
        alias: None,
        arguments: vec![],
        directives: vec![],
        selection_set: children,
    }
}

fn operation(selections: Vec<SelectionNode>) -> OperationNode {
    OperationNode {
        name: None,
        operation_type: String::from("query"),
        variable_definitions: vec![],
        directives: vec![],
        selection_set: selections,
    }
}

fn graphs_of(f: &Field) -> Vec<String> {
    f.join_field
        .iter()
        .map(|jf| String::from(jf.graph.as_ref().unwrap().as_str()))
        .collect()
}

#[test]
fn single_operation_collapses_to_one_fetch() {
    let blueprint = parse(supergraph()).to_result().unwrap();
    let index = blueprint.to_index();
    let plan = QueryPlan::try_new(vec![operation(vec![sel("topProducts", vec![])])]).unwrap();
    let run = Preset::new(Rc::new(index)).transform(plan).to_result().unwrap();
    match run {
        QueryPlan::Fetch(fetch) => {
            // one subgraph serves the whole selection: it becomes the service
            assert_eq!(fetch.service.as_ref().unwrap().as_str(), "Product");
            let fields = &fetch.selection_set.0;
            assert_eq!(fields.len(), 1);
            assert_eq!(fields[0].name, String::from("topProducts"));
            assert_eq!(graphs_of(&fields[0]), vec![String::from("Product")]);
        },
        _ => panic!("expected the outer parallel to collapse to one fetch"),
    }
}

#[test]
fn enrich_attaches_blueprint_metadata_at_every_level() {
    let blueprint = parse(supergraph()).to_result().unwrap();
    let index = blueprint.to_index();
    let plan = QueryPlan::try_new(vec![operation(vec![sel(
        "topProducts",
        vec![sel("name", vec![]), sel("reviews", vec![sel("body", vec![])])],
    )])])
    .unwrap();
    let minified = Minify::new().transform(plan).to_result().unwrap();
    let run = Enrich::new(Rc::new(index)).transform(minified).to_result().unwrap();
    let fetch = match run {
        QueryPlan::Fetch(fetch) => fetch,
        _ => panic!("expected one fetch"),
    };
    let top = &fetch.selection_set.0[0];
    assert_eq!(graphs_of(top), vec![String::from("Product")]);
    let children = &top.selections.0;
    assert_eq!(graphs_of(&children[0]), vec![String::from("Product")]);
    assert_eq!(graphs_of(&children[1]), vec![String::from("Reviews")]);
    let body = &children[1].selections.0[0];
    assert_eq!(
        graphs_of(body),
        vec![String::from("Reviews"), String::from("Unknown")]
    );
}

#[test]
fn pipeline_prunes_to_the_cover() {
    let blueprint = parse(supergraph()).to_result().unwrap();
    let index = blueprint.to_index();
    let plan = QueryPlan::try_new(vec![operation(vec![sel(
        "topProducts",
        vec![sel("name", vec![]), sel("reviews", vec![sel("body", vec![])])],
    )])])
    .unwrap();
    let run = Preset::new(Rc::new(index)).transform(plan).to_result().unwrap();
    let fetch = match run {
        QueryPlan::Fetch(fetch) => fetch,
        _ => panic!("expected one fetch"),
    };
    // two subgraphs remain in play: no single service is chosen
    assert!(fetch.service.is_none());
    let top = &fetch.selection_set.0[0];
    let children = &top.selections.0;
    assert_eq!(graphs_of(&children[0]), vec![String::from("Product")]);
    assert_eq!(graphs_of(&children[1]), vec![String::from("Reviews")]);
    // body loses Unknown: the cover is Product and Reviews
    let body = &children[1].selections.0[0];
    assert_eq!(graphs_of(body), vec![String::from("Reviews")]);
}

#[test]
fn unknown_field_reports_one_cause() {
    let blueprint = parse(supergraph()).to_result().unwrap();
    let index = blueprint.to_index();
    let plan = QueryPlan::try_new(vec![operation(vec![sel(
        "topProducts",
        vec![sel("nope", vec![])],
    )])])
    .unwrap();
    let e = Preset::new(Rc::new(index)).transform(plan).to_result().err().unwrap();
    let causes = e.as_vec();
    assert_eq!(causes.len(), 1);
    assert_eq!(
        causes[0].message,
        String::from("field definition not found for field 'nope' in type 'Product'")
    );
    // the cause is traced through the enrich stage
    assert_eq!(causes[0].trace, vec![String::from("enrich")]);
}

#[test]
fn sibling_unknown_fields_all_report() {
    let blueprint = parse(supergraph()).to_result().unwrap();
    let index = blueprint.to_index();
    let plan = QueryPlan::try_new(vec![operation(vec![sel(
        "topProducts",
        vec![sel("nope", vec![]), sel("name", vec![]), sel("wrong", vec![])],
    )])])
    .unwrap();
    let e = Preset::new(Rc::new(index)).transform(plan).to_result().err().unwrap();
    assert_eq!(e.as_vec().len(), 2);
}

#[test]
fn missing_query_root_is_fatal() {
    let doc = Document {
        definitions: vec![
            registry(vec!["Product"]),
            object("Query", "Product", vec![field("topProducts", "String", vec![])]),
        ],
    };
    let blueprint = parse(doc).to_result().unwrap();
    let index = blueprint.to_index();
    let plan = QueryPlan::try_new(vec![operation(vec![sel("topProducts", vec![])])]).unwrap();
    let e = Preset::new(Rc::new(index)).transform(plan).to_result().err().unwrap();
    assert_eq!(
        e.as_vec()[0].message,
        String::from("Root operation for `query` is not defined")
    );
    assert_eq!(e.as_vec()[0].trace, vec![String::from("enrich")]);
}

#[test]
fn fragments_are_unsupported() {
    let r = QueryPlan::try_new(vec![operation(vec![SelectionNode::FragmentSpread])]);
    match r {
        Err(query_planner::error::Error::Plan(e)) => {
            assert_eq!(e.as_vec()[0].message, String::from("unsupported selection"));
        },
        _ => panic!("expected the build to fail"),
    }
}

#[test]
fn inherited_subgraphs_come_from_the_type_join() {
    // a field without its own metadata inherits from the container's
    // keyless type-level join entry
    let doc = Document {
        definitions: vec![
            schema_root(),
            registry(vec!["Local"]),
            object("Query", "Local", vec![field("plain", "String", vec![])]),
        ],
    };
    let blueprint = parse(doc).to_result().unwrap();
    let index = blueprint.to_index();
    let plan = QueryPlan::try_new(vec![operation(vec![sel("plain", vec![])])]).unwrap();
    let run = Preset::new(Rc::new(index)).transform(plan).to_result().unwrap();
    match run {
        QueryPlan::Fetch(fetch) => {
            assert_eq!(fetch.service.as_ref().unwrap().as_str(), "Local");
            let f = &fetch.selection_set.0[0];
            assert!(f.join_field.is_empty());
            let inherited: Vec<String> =
                f.graph.iter().map(|g| String::from(g.as_str())).collect();
            assert_eq!(inherited, vec![String::from("Local")]);
        },
        _ => panic!("expected one fetch"),
    }
}

#[test]
fn field_with_no_candidates_fails_enrichment() {
    // Query has a keyed type-level join only, and `orphan` has no
    // metadata of its own: nothing can serve it
    let doc = Document {
        definitions: vec![
            schema_root(),
            registry(vec!["Local"]),
            SchemaItem::Type(TypeNode {
                name: String::from("Query"),
                description: None,
                directives: vec![directive(
                    "join__type",
                    vec![str_arg("graph", "Local"), str_arg("key", "id")],
                )],
                kind: TypeKindNode::Object {
                    implements: vec![],
                    fields: vec![field("orphan", "String", vec![])],
                },
                position: String::from("1:1"),
            }),
        ],
    };
    let blueprint = parse(doc).to_result().unwrap();
    let index = blueprint.to_index();
    let plan = QueryPlan::try_new(vec![operation(vec![sel("orphan", vec![])])]).unwrap();
    let e = Preset::new(Rc::new(index)).transform(plan).to_result().err().unwrap();
    assert_eq!(e.as_vec().len(), 1);
    assert_eq!(
        e.as_vec()[0].message,
        String::from("no subgraph can serve field 'orphan' in type 'Query'")
    );
    assert_eq!(e.as_vec()[0].trace, vec![String::from("enrich")]);
}

#[test]
fn two_levels_on_one_subgraph_share_one_fetch() {
    let blueprint = parse(supergraph()).to_result().unwrap();
    let index = blueprint.to_index();
    let plan = QueryPlan::try_new(vec![operation(vec![sel(
        "topProducts",
        vec![sel("name", vec![])],
    )])])
    .unwrap();
    let run = Preset::new(Rc::new(index)).transform(plan).to_result().unwrap();
    match run {
        QueryPlan::Fetch(fetch) => {
            assert_eq!(fetch.service.as_ref().unwrap().as_str(), "Product");
            let top = &fetch.selection_set.0[0];
            assert_eq!(graphs_of(top), vec![String::from("Product")]);
            assert_eq!(graphs_of(&top.selections.0[0]), vec![String::from("Product")]);
        },
        _ => panic!("expected one fetch on one subgraph"),
    }
}
