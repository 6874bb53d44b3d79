use query_planner::blueprint::Graph;
use query_planner::blueprint::JoinField;
use query_planner::model::Field;
use query_planner::model::SelectionSet;
use query_planner::names::NameMap;
use query_planner::names::NameSet;
use query_planner::transform::Transform;
use query_planner::transforms::pruner::Pruner;

fn graphs_of(f: &Field) -> Vec<String> {
    f.join_field
        .iter()
        .map(|jf| String::from(jf.graph.as_ref().unwrap().as_str()))
        .collect()
}

/// The pruner narrows each field's subgraphs to the cover, preferring the
/// parent's subgraph where one is shared, and keeps every field.
#[test]
fn pruner_test() {
    let name = Field::new(String::from("name"), SelectionSet::new(vec![]))
        .join_field(vec![JoinField::new(Graph::new("Product"))]);
    let test = Field::new(String::from("test"), SelectionSet::new(vec![]))
        .join_field(vec![JoinField::new(Graph::new("Something"))]);
    let body = Field::new(String::from("body"), SelectionSet::new(vec![])).join_field(vec![
        JoinField::new(Graph::new("Reviews")),
        JoinField::new(Graph::new("Unknown")),
    ]);
    let reviews = Field::new(String::from("reviews"), SelectionSet::new(vec![body]))
        .join_field(vec![JoinField::new(Graph::new("Reviews"))]);
    let base_field = Field::new(
        String::from("topProducts"),
        SelectionSet::new(vec![name, reviews, test]),
    )
    .join_field(vec![JoinField::new(Graph::new("Product"))]);

    let pruned = Pruner::new().transform(base_field).to_result().unwrap();

    assert_eq!(pruned.name, String::from("topProducts"));
    assert_eq!(graphs_of(&pruned), vec![String::from("Product")]);
    let children = &pruned.selections.0;
    assert_eq!(children.len(), 3);
    assert_eq!(children[0].name, String::from("name"));
    assert_eq!(graphs_of(&children[0]), vec![String::from("Product")]);
    assert_eq!(children[1].name, String::from("reviews"));
    assert_eq!(graphs_of(&children[1]), vec![String::from("Reviews")]);
    let body_out = &children[1].selections.0[0];
    assert_eq!(body_out.name, String::from("body"));
    // the cover admits Reviews; Unknown is pruned away
    assert_eq!(graphs_of(body_out), vec![String::from("Reviews")]);
    // no subgraph shared with the parent: the cover-admitted one stays
    assert_eq!(children[2].name, String::from("test"));
    assert_eq!(graphs_of(&children[2]), vec![String::from("Something")]);
}

/// As above but without the extra sibling: the cover is Product and
/// Reviews only, and `body` still prunes to Reviews.
#[test]
fn sibling_fields_across_subgraphs() {
    let name = Field::new(String::from("name"), SelectionSet::new(vec![]))
        .join_field(vec![JoinField::new(Graph::new("Product"))]);
    let body = Field::new(String::from("body"), SelectionSet::new(vec![])).join_field(vec![
        JoinField::new(Graph::new("Reviews")),
        JoinField::new(Graph::new("Unknown")),
    ]);
    let reviews = Field::new(String::from("reviews"), SelectionSet::new(vec![body]))
        .join_field(vec![JoinField::new(Graph::new("Reviews"))]);
    let base_field = Field::new(
        String::from("topProducts"),
        SelectionSet::new(vec![name, reviews]),
    )
    .join_field(vec![JoinField::new(Graph::new("Product"))]);

    let pruned = Pruner::new().transform(base_field).to_result().unwrap();
    let children = &pruned.selections.0;
    let body_out = &children[1].selections.0[0];
    assert_eq!(graphs_of(body_out), vec![String::from("Reviews")]);
}

/// Sibling fields on one subgraph stay on it.
#[test]
fn sibling_fields_one_subgraph() {
    let name = Field::new(String::from("name"), SelectionSet::new(vec![]))
        .join_field(vec![JoinField::new(Graph::new("Product"))]);
    let base_field = Field::new(String::from("topProducts"), SelectionSet::new(vec![name]))
        .join_field(vec![JoinField::new(Graph::new("Product"))]);
    let pruned = Pruner::new().transform(base_field).to_result().unwrap();
    assert_eq!(graphs_of(&pruned), vec![String::from("Product")]);
    assert_eq!(graphs_of(&pruned.selections.0[0]), vec![String::from("Product")]);
}

/// A field that no subgraph can serve makes the set cover fail.
#[test]
fn field_without_candidates_fails_the_cover() {
    let bare = Field::new(String::from("bare"), SelectionSet::new(vec![]));
    let base_field = Field::new(String::from("top"), SelectionSet::new(vec![bare]))
        .join_field(vec![JoinField::new(Graph::new("G"))]);
    let e = Pruner::new().transform(base_field).to_result().err().unwrap();
    assert_eq!(e.as_vec().len(), 1);
    assert_eq!(
        e.as_vec()[0].message,
        String::from("Invalid Input: Failed to find a valid set cover")
    );
    assert_eq!(e.as_vec()[0].trace, vec![String::from("pruner")]);
}

/// The greedy set cover picks the most covering subgraph first, the
/// earliest on a tie.
#[test]
fn set_cover_picks_greedily_in_order() {
    let mut subgraphs = NameSet::new();
    subgraphs.insert(String::from("A"));
    subgraphs.insert(String::from("B"));
    let mut map = NameMap::new();
    map.add_to("f1", "A");
    map.add_to("f2", "A");
    map.add_to("f2", "B");
    map.add_to("f3", "B");
    let cover = Pruner::minimum_set_cover(subgraphs, map).to_result().unwrap();
    assert_eq!(cover.len(), 2);
    assert_eq!(cover.index(0), &String::from("A"));
    assert_eq!(cover.index(1), &String::from("B"));
}

#[test]
fn name_collections_keep_insertion_order() {
    let mut s = NameSet::new();
    s.insert(String::from("x"));
    s.insert(String::from("y"));
    s.insert(String::from("x"));
    assert_eq!(s.len(), 2);
    assert!(s.contains("x"));
    assert!(!s.contains("z"));
    let mut m = NameMap::new();
    m.add_to("k", "a");
    m.add_to("k", "a");
    m.add_to("k", "b");
    let set = m.get("k").unwrap();
    assert_eq!(set.len(), 2);
    assert!(m.get("missing").is_none());
}
