use query_planner::blueprint::Graph;
use query_planner::lens::Lens;
use query_planner::model::Fetch;
use query_planner::model::Field;
use query_planner::model::QueryPlan;
use query_planner::model::SelectionSet;
use query_planner::model::TypeName;

fn update_fetch(name: &str, base: &str, service: &str) -> Fetch {
    Fetch {
        name: Some(String::from(name)),
        type_of: TypeName::new(String::from(base)),
        arguments: vec![],
        variables: vec![],
        directives: vec![],
        selection_set: SelectionSet::new(vec![Field::new(
            String::from("id"),
            SelectionSet::new(vec![]),
        )]),
        representations: None,
        service: Some(Graph::new(service)),
    }
}

#[test]
fn test_query_plan_to_doc() {
    let fetch_a = update_fetch("updateInAOne", "updateFooInA", "SubgraphA");
    let fetch_b = update_fetch("updateInBOne", "updateFooInB", "SubgraphB");
    let plan = QueryPlan::Sequence(vec![
        QueryPlan::fetch(fetch_a),
        QueryPlan::fetch(fetch_b),
    ]);
    let doc = plan.to_doc();
    assert_eq!(
        doc,
        "Sequence {\n  Fetch(service: \"SubgraphA\") {\n  id: id {\n    \n  }\n}\n  Fetch(service: \"SubgraphB\") {\n  id: id {\n    \n  }\n}\n}"
    );
}

#[test]
fn fetch_doc_shows_alias_and_subfields() {
    let child_a = Field::new(String::from("a"), SelectionSet::new(vec![]));
    let child_b = Field::new(String::from("b"), SelectionSet::new(vec![]));
    let top = Field::new(
        String::from("topProducts"),
        SelectionSet::new(vec![child_a, child_b]),
    )
    .alias(Some(String::from("products")));
    let fetch = Fetch {
        name: None,
        type_of: TypeName::new(String::from("query")),
        arguments: vec![],
        variables: vec![],
        directives: vec![],
        selection_set: SelectionSet::new(vec![top]),
        representations: None,
        service: None,
    };
    let doc = QueryPlan::Fetch(fetch).to_doc();
    assert_eq!(
        doc,
        "Fetch(service: \"None\") {\n  products: topProducts {\n    a\n    b\n  }\n}"
    );
}

#[test]
fn flatten_doc_shows_its_lens() {
    let lens = Lens::Combine(
        Box::new(Lens::Field(String::from("items"))),
        Box::new(Lens::Index(12)),
    );
    let plan = QueryPlan::Flatten {
        select: lens,
        plan: Box::new(QueryPlan::Parallel(vec![])),
    };
    let doc = plan.to_doc();
    assert_eq!(
        doc,
        "Flatten(Combine(Field(\"items\"), Index(12))) {\n  Parallel {\n}\n}"
    );
}
