use request_pool::json::Json;
use request_pool::request::{Method, Progress, Request, RequestArgument, ResolveError, ResponsePool};
use request_pool::query::sort_pairs;
use request_pool::url::build_url;
use request_pool::value_name::{Index, ValueName};

fn json(text: &str) -> Json {
    Json::decode(text).unwrap()
}

fn request(url: &str, path: Vec<RequestArgument>, params: Vec<(String, RequestArgument)>, value: &str) -> Request {
    Request::new(Method::Get, path, params, url, ValueName::from_str(value))
}

fn fetch_url(p: Result<Progress<Json>, ResolveError>) -> String {
    match p {
        Ok(Progress::Fetch(_, u)) => u,
        other => panic!("expected a fetch, got {:?}", other),
    }
}

fn done_text(p: Result<Progress<Json>, ResolveError>) -> String {
    match p {
        Ok(Progress::Done(j)) => j.text,
        other => panic!("expected a value, got {:?}", other),
    }
}

#[test]
fn path_selects_nested_element() {
    let doc = json(r#"{"a":{"b":[10,20,30]}}"#);
    let v = ValueName::from_str("a.b.1").parse(&doc).unwrap();
    assert_eq!(v.text, "20");
}

#[test]
fn path_out_of_range_is_key_not_found() {
    let doc = json(r#"{"a":{"b":[10,20,30]}}"#);
    match ValueName::from_str("a.b.9").parse(&doc) {
        Err(Index::Integer(9)) => {}
        other => panic!("unexpected {:?}", other),
    }
}

#[test]
fn missing_member_names_the_key() {
    let doc = json(r#"{"a":1}"#);
    match ValueName::from_str("b").parse(&doc) {
        Err(Index::String(k)) => assert_eq!(k, "b"),
        other => panic!("unexpected {:?}", other),
    }
}

#[test]
fn empty_path_is_identity() {
    let doc = json(r#"{"a":{"b":[10,20,30]}}"#);
    let name = ValueName::from_str("");
    assert!(name.names.is_none());
    assert_eq!(name.parse(&doc).unwrap().text, doc.text);
}

#[test]
fn numeric_segment_is_index() {
    let name = ValueName::from_str("x.0.y");
    let names = name.names.unwrap();
    assert_eq!(names.len(), 3);
    assert!(matches!(&names[0], Index::String(s) if s == "x"));
    assert!(matches!(&names[1], Index::Integer(0)));
    assert!(matches!(&names[2], Index::String(s) if s == "y"));
}

#[test]
fn decode_writes_compact_text() {
    assert_eq!(json("{ \"a\" : [1, 2] }").text, r#"{"a":[1,2]}"#);
    assert!(Json::decode("not json").is_none());
}

#[test]
fn constants_render_as_text() {
    let mut pool = ResponsePool::new(Vec::new());
    match pool.eval(&RequestArgument::Const(json("\"x\""))) {
        Ok(Progress::Done(s)) => assert_eq!(s, "x"),
        other => panic!("unexpected {:?}", other),
    }
    match pool.eval(&RequestArgument::Const(json("2"))) {
        Ok(Progress::Done(s)) => assert_eq!(s, "2"),
        other => panic!("unexpected {:?}", other),
    }
    assert_eq!(json("[1,\"a\"]").render(), r#"[1,"a"]"#);
}

#[test]
fn reference_renders_resolved_value() {
    let mut pool = ResponsePool::new(Vec::new());
    pool.set_data_value("id", json("42"));
    match pool.eval(&RequestArgument::Ref(String::from("id"))) {
        Ok(Progress::Done(s)) => assert_eq!(s, "42"),
        other => panic!("unexpected {:?}", other),
    }
}

#[test]
fn url_joins_path_and_query() {
    let segs = vec![String::from("v1"), String::from("42")];
    let params = vec![(String::from("q"), String::from("x"))];
    assert_eq!(build_url("http://h/api", &segs, &params).unwrap(), "http://h/api/v1/42?q=x");
    assert_eq!(build_url("http://h/api", &segs, &Vec::new()).unwrap(), "http://h/api/v1/42");
    assert!(build_url("not a url", &segs, &params).is_none());
}

#[test]
fn query_values_are_percent_encoded() {
    let params = vec![(String::from("q"), String::from("a b&c"))];
    assert_eq!(build_url("http://h/api", &Vec::new(), &params).unwrap(), "http://h/api?q=a+b%26c");
}

#[test]
fn resolve_builds_url_from_arguments() {
    let defs = vec![(
        String::from("item"),
        request(
            "http://h/api",
            vec![RequestArgument::Const(json("\"v1\"")), RequestArgument::Ref(String::from("id"))],
            vec![(String::from("q"), RequestArgument::Const(json("\"x\"")))],
            "",
        ),
    )];
    let mut pool = ResponsePool::new(defs);
    pool.set_data_value("id", json("\"42\""));
    let url = fetch_url(pool.get("item"));
    assert_eq!(url, "http://h/api/v1/42?q=x");
    pool.store_response(&url, r#"{"ok":true}"#).unwrap();
    assert_eq!(done_text(pool.get("item")), r#"{"ok":true}"#);
}

#[test]
fn second_resolve_needs_no_request() {
    let defs = vec![(String::from("a"), request("http://h/a", Vec::new(), Vec::new(), "v"))];
    let mut pool = ResponsePool::new(defs);
    let url = fetch_url(pool.get("a"));
    pool.store_response(&url, r#"{"v":7}"#).unwrap();
    assert_eq!(done_text(pool.get("a")), "7");
    pool.clear_cache();
    assert_eq!(done_text(pool.get("a")), "7");
    assert_eq!(pool.data_value("a").unwrap().text, "7");
}

#[test]
fn same_url_is_fetched_once() {
    let defs = vec![
        (String::from("a"), request("http://h/x", Vec::new(), Vec::new(), "p")),
        (String::from("b"), request("http://h/x", Vec::new(), Vec::new(), "q")),
    ];
    let mut pool = ResponsePool::new(defs);
    let url = fetch_url(pool.get("a"));
    pool.store_response(&url, r#"{"p":1,"q":2}"#).unwrap();
    assert_eq!(done_text(pool.get("a")), "1");
    assert_eq!(done_text(pool.get("b")), "2");
}

#[test]
fn clearing_forces_new_work() {
    let defs = vec![(String::from("a"), request("http://h/a", Vec::new(), Vec::new(), ""))];
    let mut pool = ResponsePool::new(defs);
    let url = fetch_url(pool.get("a"));
    pool.store_response(&url, "[1]").unwrap();
    assert_eq!(done_text(pool.get("a")), "[1]");
    pool.clear_data();
    assert!(pool.data_value("a").is_none());
    assert_eq!(done_text(pool.get("a")), "[1]");
    pool.clear_data();
    pool.clear_cache();
    assert_eq!(fetch_url(pool.get("a")), url);
}

#[test]
fn missing_name_is_undefined() {
    let mut pool = ResponsePool::new(Vec::new());
    match pool.get("missing") {
        Err(ResolveError::UndefinedRequest(n)) => assert_eq!(n, "missing"),
        other => panic!("unexpected {:?}", other),
    }
}

#[test]
fn reference_cycle_is_detected() {
    let defs = vec![
        (String::from("a"), request("http://h/a", vec![RequestArgument::Ref(String::from("b"))], Vec::new(), "")),
        (String::from("b"), request("http://h/b", vec![RequestArgument::Ref(String::from("a"))], Vec::new(), "")),
    ];
    let mut pool = ResponsePool::new(defs);
    assert!(matches!(pool.get("a"), Err(ResolveError::CycleDetected(_))));
}

#[test]
fn bad_template_is_url_error() {
    let defs = vec![(String::from("a"), request("no scheme", Vec::new(), Vec::new(), ""))];
    let mut pool = ResponsePool::new(defs);
    assert!(matches!(pool.get("a"), Err(ResolveError::UrlBuildError(_))));
}

#[test]
fn body_that_is_no_json_is_refused() {
    let mut pool = ResponsePool::new(Vec::new());
    match pool.store_response("http://h/a", "<html>") {
        Err(ResolveError::JsonDecodeError(u)) => assert_eq!(u, "http://h/a"),
        other => panic!("unexpected {:?}", other),
    }
}

#[test]
fn missing_value_in_response_is_key_not_found() {
    let defs = vec![(String::from("a"), request("http://h/a", Vec::new(), Vec::new(), "a.b.9"))];
    let mut pool = ResponsePool::new(defs);
    let url = fetch_url(pool.get("a"));
    pool.store_response(&url, r#"{"a":{"b":[10,20,30]}}"#).unwrap();
    assert!(matches!(pool.get("a"), Err(ResolveError::KeyNotFound(Index::Integer(9)))));
    assert!(pool.data_value("a").is_none());
}

#[test]
fn post_method_is_reported() {
    let defs = vec![(
        String::from("a"),
        Request::new(Method::Post, Vec::new(), Vec::new(), "http://h/a", ValueName::from_str("")),
    )];
    let mut pool = ResponsePool::new(defs);
    assert!(matches!(pool.get("a"), Ok(Progress::Fetch(Method::Post, _))));
}

#[test]
fn query_keys_are_sorted() {
    let defs = vec![(
        String::from("a"),
        request(
            "http://h/a",
            Vec::new(),
            vec![
                (String::from("zeta"), RequestArgument::Const(json("1"))),
                (String::from("alpha"), RequestArgument::Const(json("2"))),
                (String::from("mid"), RequestArgument::Const(json("true"))),
            ],
            "",
        ),
    )];
    let mut pool = ResponsePool::new(defs);
    assert_eq!(fetch_url(pool.get("a")), "http://h/a?alpha=2&mid=true&zeta=1");
}

#[test]
fn pairs_sort_by_key() {
    let pairs = vec![
        (String::from("b"), String::from("1")),
        (String::from("ab"), String::from("2")),
        (String::from("a"), String::from("3")),
    ];
    let sorted = sort_pairs(pairs);
    let keys: Vec<&str> = sorted.iter().map(|p| p.0.as_str()).collect();
    assert_eq!(keys, vec!["a", "ab", "b"]);
    assert_eq!(sorted[0].1, "3");
}

#[test]
fn set_value_replaces_earlier_one() {
    let mut pool = ResponsePool::new(Vec::new());
    pool.set_data_value("input", json("2"));
    pool.set_data_value("input", json("3"));
    assert_eq!(pool.data_value("input").unwrap().text, "3");
    assert_eq!(done_text(pool.get("input")), "3");
}

#[test]
fn it_works() {
    let defs = vec![
        (
            String::from("home"),
            request("http://example.test/api", vec![RequestArgument::Ref(String::from("input"))], Vec::new(), "name"),
        ),
        (
            String::from("color"),
            request(
                "http://example.test/colors",
                vec![RequestArgument::Ref(String::from("home"))],
                vec![(String::from("n"), RequestArgument::Ref(String::from("input")))],
                "rgb.0",
            ),
        ),
        (
            String::from("person"),
            request("http://example.test/people", vec![RequestArgument::Ref(String::from("color"))], Vec::new(), ""),
        ),
    ];
    let mut pool = ResponsePool::new(defs);
    pool.set_data_value("input", json("2"));

    let url = fetch_url(pool.get("home"));
    assert_eq!(url, "http://example.test/api/2");
    pool.store_response(&url, r#"{"name":"blue"}"#).unwrap();
    assert_eq!(done_text(pool.get("home")), "\"blue\"");

    let url = fetch_url(pool.get("color"));
    assert_eq!(url, "http://example.test/colors/blue?n=2");
    pool.store_response(&url, r#"{"rgb":[7,8,9]}"#).unwrap();
    assert_eq!(done_text(pool.get("color")), "7");

    let url = fetch_url(pool.get("person"));
    assert_eq!(url, "http://example.test/people/7");
    pool.store_response(&url, r#"{"who":"ann"}"#).unwrap();
    assert_eq!(done_text(pool.get("person")), r#"{"who":"ann"}"#);
    assert_eq!(pool.data_value("color").unwrap().text, "7");
}

#[test]
fn unresolved_reference_is_fetched_first() {
    let defs = vec![
        (String::from("outer"), request("http://h/o", vec![RequestArgument::Ref(String::from("inner"))], Vec::new(), "")),
        (String::from("inner"), request("http://h/i", Vec::new(), Vec::new(), "id")),
    ];
    let mut pool = ResponsePool::new(defs);
    assert_eq!(fetch_url(pool.get("outer")), "http://h/i");
    assert!(pool.data_value("outer").is_none());
    pool.store_response("http://h/i", r#"{"id":5}"#).unwrap();
    assert_eq!(fetch_url(pool.get("outer")), "http://h/o/5");
    assert_eq!(pool.data_value("inner").unwrap().text, "5");
}

#[test]
fn plus_sign_segment_is_index() {
    let name = ValueName::from_str("+1");
    assert!(matches!(&name.names.unwrap()[0], Index::Integer(1)));
}
