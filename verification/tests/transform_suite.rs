use query_planner::error::Error;
use query_planner::model::Fetch;
use query_planner::model::QueryPlan;
use query_planner::model::SelectionSet;
use query_planner::model::TypeName;
use query_planner::transform::Identity;
use query_planner::transform::Pipe;
use query_planner::transform::Transform;
use query_planner::transforms::minify::Minify;
use query_planner::valid::ValidationError;

fn sample_plan() -> QueryPlan {
    QueryPlan::Parallel(vec![QueryPlan::Sequence(vec![QueryPlan::Fetch(Fetch {
        name: None,
        arguments: vec![],
        variables: vec![],
        directives: vec![],
        selection_set: SelectionSet::new(vec![]),
        representations: None,
        type_of: TypeName::new(String::from("query")),
        service: None,
    })])])
}

fn run(t: &impl Transform<Value = QueryPlan, Error = Error>, p: QueryPlan) -> String {
    match t.transform(p).to_result() {
        Ok(plan) => plan.to_doc(),
        Err(_) => String::from("error"),
    }
}

/// Piping is associative: both groupings produce the same plan.
#[test]
fn pipe_is_associative_on_a_concrete_plan() {
    let left = Pipe(Pipe(Minify::new(), Identity::new()), Minify::new());
    let right = Pipe(Minify::new(), Pipe(Identity::new(), Minify::new()));
    let a = run(&left, sample_plan());
    let b = run(&right, sample_plan());
    assert_eq!(a, b);
    assert_eq!(a, "Fetch(service: \"None\") {\n}");
}

/// The identity leaves the plan alone on either side of a pipe.
#[test]
fn identity_is_neutral_for_pipe() {
    let before = Pipe(Identity::new(), Minify::new());
    let after = Pipe(Minify::new(), Identity::new());
    let plain = Minify::new();
    let a = run(&before, sample_plan());
    let b = run(&after, sample_plan());
    let c = run(&plain, sample_plan());
    assert_eq!(a, c);
    assert_eq!(b, c);
}

#[test]
fn error_variants_render_their_text() {
    assert_eq!(
        Error::Blueprint(String::from("bad blueprint")).to_text(),
        String::from("bad blueprint")
    );
    assert_eq!(
        Error::Parse(String::from("bad syntax")).to_text(),
        String::from("bad syntax")
    );
    assert_eq!(
        Error::Plan(ValidationError::new(String::from("bad plan"))).to_text(),
        String::from("bad plan")
    );
}
