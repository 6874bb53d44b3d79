use query_planner::error::Error;
use query_planner::model::Fetch;
use query_planner::model::QueryPlan;
use query_planner::model::SelectionSet;
use query_planner::model::TypeName;
use query_planner::transform::Transform;
use query_planner::transforms::minify::Minify;

fn fetch(name: &str) -> QueryPlan {
    QueryPlan::Fetch(Fetch {
        name: Some(String::from(name)),
        arguments: vec![],
        variables: vec![],
        directives: vec![],
        selection_set: SelectionSet::new(vec![]),
        representations: None,
        type_of: TypeName::new(String::from("query")),
        service: None,
    })
}

fn fetch_name(p: &QueryPlan) -> String {
    match p {
        QueryPlan::Fetch(f) => f.name.clone().unwrap(),
        _ => panic!("expected a fetch"),
    }
}

#[test]
fn singleton_parallel_collapses() {
    let plan = QueryPlan::Parallel(vec![fetch("only")]);
    let r = Minify::new().transform(plan).to_result().unwrap();
    assert_eq!(fetch_name(&r), String::from("only"));
}

#[test]
fn nested_singletons_collapse_all_the_way() {
    let plan = QueryPlan::Sequence(vec![QueryPlan::Parallel(vec![fetch("deep")])]);
    let r = Minify::new().transform(plan).to_result().unwrap();
    assert_eq!(fetch_name(&r), String::from("deep"));
}

#[test]
fn multi_child_parallel_is_kept() {
    let plan = QueryPlan::Parallel(vec![fetch("a"), fetch("b")]);
    let r = Minify::new().transform(plan).to_result().unwrap();
    match r {
        QueryPlan::Parallel(items) => {
            assert_eq!(items.len(), 2);
            assert_eq!(fetch_name(&items[0]), String::from("a"));
            assert_eq!(fetch_name(&items[1]), String::from("b"));
        },
        _ => panic!("expected a parallel node"),
    }
}

#[test]
fn minify_is_idempotent_on_a_concrete_plan() {
    let plan = QueryPlan::Parallel(vec![
        QueryPlan::Sequence(vec![fetch("a")]),
        QueryPlan::Flatten {
            select: query_planner::lens::Lens::Empty,
            plan: Box::new(QueryPlan::Parallel(vec![fetch("b")])),
        },
    ]);
    let once = Minify::new().transform(plan).to_result().unwrap();
    let names = |p: &QueryPlan| -> Vec<String> {
        match p {
            QueryPlan::Parallel(items) => items
                .iter()
                .map(|q| match q {
                    QueryPlan::Fetch(f) => f.name.clone().unwrap(),
                    QueryPlan::Flatten { plan, .. } => fetch_name(plan),
                    _ => panic!("unexpected shape"),
                })
                .collect(),
            _ => panic!("expected a parallel node"),
        }
    };
    let first = names(&once);
    let twice = Minify::new().transform(once).to_result().unwrap();
    assert_eq!(names(&twice), first);
}

#[test]
fn empty_parallel_fails() {
    let plan = QueryPlan::Parallel(vec![]);
    let e = Minify::new().transform(plan).to_result().err().unwrap();
    let causes = e.as_vec();
    assert_eq!(causes.len(), 1);
    match &causes[0].message {
        Error::Plan(inner) => {
            assert_eq!(inner.as_vec()[0].message, String::from("Empty Parallel"));
        },
        _ => panic!("expected a plan error"),
    }
    assert_eq!(causes[0].trace, vec![String::from("minify")]);
}

#[test]
fn empty_sequence_fails() {
    let plan = QueryPlan::Sequence(vec![]);
    let e = Minify::new().transform(plan).to_result().err().unwrap();
    match &e.as_vec()[0].message {
        Error::Plan(inner) => {
            assert_eq!(inner.as_vec()[0].message, String::from("Empty Sequence"));
        },
        _ => panic!("expected a plan error"),
    }
}

#[test]
fn sibling_empty_nodes_report_both() {
    let plan = QueryPlan::Parallel(vec![
        QueryPlan::Sequence(vec![]),
        QueryPlan::Parallel(vec![]),
    ]);
    let e = Minify::new().transform(plan).to_result().err().unwrap();
    assert_eq!(e.as_vec().len(), 2);
}
