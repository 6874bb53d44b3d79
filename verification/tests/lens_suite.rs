use query_planner::json::Json;
use query_planner::lens::Lens;

fn obj(entries: Vec<(&str, Json)>) -> Json {
    Json::Obj(entries.into_iter().map(|(k, v)| (String::from(k), v)).collect())
}

fn s(v: &str) -> Json {
    Json::Str(String::from(v))
}

fn render(j: &Json) -> String {
    match j {
        Json::Null => String::from("null"),
        Json::Bool(b) => format!("{}", b),
        Json::Num(n) => format!("{}", n),
        Json::Str(t) => format!("\"{}\"", t),
        Json::Arr(items) => {
            let inner: Vec<String> = items.iter().map(render).collect();
            format!("[{}]", inner.join(","))
        },
        Json::Obj(entries) => {
            let inner: Vec<String> =
                entries.iter().map(|(k, v)| format!("\"{}\":{}", k, render(v))).collect();
            format!("{{{}}}", inner.join(","))
        },
    }
}

#[test]
fn field_lens_reads_and_writes() {
    let lens = Lens::Field(String::from("a"));
    let v = obj(vec![("a", s("x")), ("b", s("y"))]);
    let got = lens.get(v.duplicate());
    assert_eq!(render(&got), "\"x\"");
    let set = lens.set(v, s("z"));
    assert_eq!(render(&set), "{\"a\":\"z\",\"b\":\"y\"}");
}

#[test]
fn index_lens_pads_with_nulls() {
    let lens = Lens::Index(2);
    let v = Json::Arr(vec![s("a")]);
    let set = lens.set(v, s("c"));
    assert_eq!(render(&set), "[\"a\",null,\"c\"]");
    assert_eq!(render(&lens.get(set)), "\"c\"");
}

#[test]
fn get_after_set_returns_what_was_written() {
    // the get-set law on a composite path lens
    let lens = Lens::Combine(
        Box::new(Lens::Field(String::from("a"))),
        Box::new(Lens::Index(0)),
    );
    let v = obj(vec![("a", Json::Arr(vec![s("old")]))]);
    let w = s("new");
    let got = lens.get(lens.set(v, w));
    assert_eq!(render(&got), "\"new\"");
}

#[test]
fn set_twice_is_set_once() {
    let lens = Lens::Combine(
        Box::new(Lens::Field(String::from("a"))),
        Box::new(Lens::Field(String::from("b"))),
    );
    let v = obj(vec![("a", obj(vec![("b", s("0"))])), ("c", s("keep"))]);
    let once = lens.set(v.duplicate(), s("y"));
    let twice = lens.set(lens.set(v, s("x")), s("y"));
    assert_eq!(render(&twice), render(&once));
}

#[test]
fn for_each_maps_over_every_element() {
    let lens = Lens::ForEach(Box::new(Lens::Field(String::from("k"))));
    let v = Json::Arr(vec![obj(vec![("k", s("1"))]), obj(vec![("k", s("2"))])]);
    let got = lens.get(v);
    assert_eq!(render(&got), "[\"1\",\"2\"]");
}

#[test]
fn empty_lens_reads_null_and_writes_through() {
    let lens = Lens::Empty;
    assert_eq!(render(&lens.get(s("anything"))), "null");
    assert_eq!(render(&lens.set(s("anything"), s("w"))), "\"w\"");
}

#[test]
fn missing_key_and_wrong_shape_read_null() {
    let lens = Lens::Field(String::from("missing"));
    assert_eq!(render(&lens.get(obj(vec![("a", s("x"))]))), "null");
    assert_eq!(render(&lens.get(Json::Num(3))), "null");
}

#[test]
fn get_key_finds_first_entry() {
    let v = obj(vec![("a", s("x")), ("a", s("y"))]);
    let got = v.get_key("a").unwrap();
    assert_eq!(render(got), "\"x\"");
    assert!(v.get_key("z").is_none());
}
