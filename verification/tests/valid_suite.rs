use query_planner::valid::Cause;
use query_planner::valid::Valid;
use query_planner::valid::ValidationError;

fn msgs(e: &ValidationError<String>) -> Vec<String> {
    e.as_vec().iter().map(|c| c.message.clone()).collect()
}

#[test]
fn zip_accumulates_both_sides() {
    let a: Valid<u32, String> = Valid::fail(String::from("left"));
    let b: Valid<u32, String> = Valid::fail(String::from("right"));
    let r = a.zip(b).to_result();
    let e = r.err().unwrap();
    assert_eq!(msgs(&e), vec![String::from("left"), String::from("right")]);
}

#[test]
fn and_then_short_circuits() {
    let a: Valid<u32, String> = Valid::fail(String::from("first"));
    let r = a.and_then(|_n| Valid::<u32, String>::fail(String::from("second"))).to_result();
    let e = r.err().unwrap();
    assert_eq!(msgs(&e), vec![String::from("first")]);
}

#[test]
fn from_iter_accumulates_each_failure() {
    // five lookups of which exactly two fail: exactly two causes come back
    let xs: Vec<u32> = vec![1, 2, 3, 4, 5];
    let r = Valid::<u32, String>::from_iter(xs, |x: u32| {
        if x % 2 == 0 {
            Valid::fail(format!("bad {}", x))
        } else {
            Valid::succeed(x)
        }
    })
    .to_result();
    let e = r.err().unwrap();
    assert_eq!(msgs(&e), vec![String::from("bad 2"), String::from("bad 4")]);
}

#[test]
fn from_iter_keeps_order_on_success() {
    let xs: Vec<u32> = vec![3, 1, 2];
    let r = Valid::<u32, String>::from_iter(xs, |x: u32| Valid::succeed(x + 10)).to_result();
    assert_eq!(r.ok().unwrap(), vec![13, 11, 12]);
}

#[test]
fn trace_prepends_a_segment() {
    let e: ValidationError<String> = ValidationError::new(String::from("boom"));
    let e = e.trace("enrich");
    let causes = e.as_vec();
    assert_eq!(causes.len(), 1);
    assert_eq!(causes[0].trace, vec![String::from("enrich")]);
    assert_eq!(causes[0].message, String::from("boom"));
}

#[test]
fn combine_and_append_keep_order() {
    let a: ValidationError<String> = ValidationError::new(String::from("1"));
    let b: ValidationError<String> = ValidationError::new(String::from("2"));
    let c = a.combine(b).append(String::from("3"));
    assert_eq!(msgs(&c), vec![String::from("1"), String::from("2"), String::from("3")]);
}

#[test]
fn cause_carries_its_trace() {
    let c: Cause<String> =
        Cause::new(String::from("1")).trace(vec![String::from("a"), String::from("b")]);
    assert_eq!(c.message, String::from("1"));
    assert_eq!(c.trace, vec![String::from("a"), String::from("b")]);
}

#[test]
fn test_error_display_formatting() {
    let error = ValidationError::from_causes(vec![
        Cause::new(String::from("1")).trace(vec![String::from("a"), String::from("b")]),
        Cause::new(String::from("2")),
        Cause::new(String::from("3")),
    ]);
    let expected_output = "Validation Error\n\u{2022} 1 [a, b]\n\u{2022} 2\n\u{2022} 3\n";
    assert_eq!(error.render(), String::from(expected_output));
}
