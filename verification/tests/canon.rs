//! Unit tests of canonicalization and the per-record extractors.

use tfgraph::canon::canonicalize;
use tfgraph::json::Json;
use tfgraph::types::Link;
use tfgraph::types::Node;
use tfgraph::types::Output;
use tfgraph::types::ParseError;

fn s(x: &str) -> Json {
    Json::Str(x.to_string())
}

fn num(x: &str) -> Json {
    Json::Num(x.to_string())
}

fn obj(entries: Vec<(&str, Json)>) -> Json {
    Json::Obj(entries.into_iter().map(|(k, v)| (k.to_string(), v)).collect())
}

fn arr(elems: Vec<Json>) -> Json {
    Json::Arr(elems)
}

#[test]
fn scalars_canonicalize_to_their_text() {
    assert_eq!(canonicalize(&Json::Null), "null");
    assert_eq!(canonicalize(&Json::Bool(true)), "true");
    assert_eq!(canonicalize(&Json::Bool(false)), "false");
    assert_eq!(canonicalize(&num("2")), "2");
    assert_eq!(canonicalize(&num("-3.5")), "-3.5");
    assert_eq!(canonicalize(&s("hello")), "hello");
    assert_eq!(canonicalize(&s("")), "");
}

#[test]
fn arrays_join_with_comma_space() {
    assert_eq!(canonicalize(&arr(vec![])), "[]");
    assert_eq!(canonicalize(&arr(vec![num("1")])), "[1]");
    assert_eq!(canonicalize(&arr(vec![num("1"), s("a"), Json::Bool(true)])), "[1, a, true]");
    assert_eq!(canonicalize(&arr(vec![arr(vec![num("1")]), arr(vec![])])), "[[1], []]");
}

#[test]
fn objects_render_keys_quoted_and_sorted() {
    assert_eq!(canonicalize(&obj(vec![])), "{}");
    assert_eq!(canonicalize(&obj(vec![("k", s("v"))])), "{\"k\": v}");
    assert_eq!(
        canonicalize(&obj(vec![("b", num("1")), ("a", num("2"))])),
        "{\"a\": 2, \"b\": 1}"
    );
    assert_eq!(
        canonicalize(&obj(vec![("b", num("1")), ("a", obj(vec![("d", num("2")), ("c", num("3"))]))])),
        "{\"a\": {\"c\": 3, \"d\": 2}, \"b\": 1}"
    );
}

#[test]
fn entry_order_does_not_change_the_rendering() {
    let one = obj(vec![("x", num("1")), ("y", s("t")), ("z", arr(vec![num("2")]))]);
    let two = obj(vec![("z", arr(vec![num("2")])), ("y", s("t")), ("x", num("1"))]);
    assert_eq!(canonicalize(&one), canonicalize(&two));
}

#[test]
fn nested_entry_order_does_not_change_the_rendering() {
    let one = obj(vec![("outer", obj(vec![("a", num("1")), ("b", num("2"))])), ("p", Json::Null)]);
    let two = obj(vec![("p", Json::Null), ("outer", obj(vec![("b", num("2")), ("a", num("1"))]))]);
    assert_eq!(canonicalize(&one), canonicalize(&two));
    assert_eq!(canonicalize(&one), "{\"outer\": {\"a\": 1, \"b\": 2}, \"p\": null}");
}

#[test]
fn keys_sort_by_code_point_with_empty_key_first() {
    let v = obj(vec![("é", num("1")), ("a", num("2")), ("", num("3"))]);
    assert_eq!(canonicalize(&v), "{\"\": 3, \"a\": 2, \"é\": 1}");
}

#[test]
fn repeated_calls_agree() {
    let v = obj(vec![("a", arr(vec![num("1"), Json::Null]))]);
    assert_eq!(canonicalize(&v), canonicalize(&v));
}

#[test]
fn link_new_keeps_its_arguments() {
    let l = Link::new("from".to_string(), "to".to_string());
    assert_eq!(l.source_addr, "from");
    assert_eq!(l.target_addr, "to");
}

#[test]
fn node_new_extracts_and_canonicalizes() {
    let r = obj(vec![
        ("address", s("a.b")),
        ("type", s("t")),
        ("name", s("n")),
        ("provider_name", s("p")),
        ("mode", s("data")),
        ("values", obj(vec![("list", arr(vec![num("1"), num("2")]))])),
    ]);
    let n = Node::new(&r, false).unwrap();
    assert_eq!(n.address, "a.b");
    assert_eq!(n.node_type, "t");
    assert_eq!(n.name, "n");
    assert_eq!(n.provider, "p");
    assert_eq!(n.mode, "data");
    assert!(!n.root);
    assert_eq!(n.values, vec![("list".to_string(), "[1, 2]".to_string())]);
}

#[test]
fn node_new_rejects_in_field_order() {
    let r = obj(vec![("values", num("1")), ("address", s("a"))]);
    let e = Node::new(&r, true).unwrap_err();
    assert_eq!(
        e,
        ParseError::MissingField { section: "resource".to_string(), field: "type".to_string() }
    );
}

#[test]
fn output_new_redacts_without_reading_value() {
    let o = Output::new("tok".to_string(), &obj(vec![("sensitive", Json::Bool(true))])).unwrap();
    assert_eq!(o.name, "tok");
    assert!(o.sensitive);
    assert_eq!(o.value, "<sensitive>");
}

#[test]
fn output_new_canonicalizes_declared_value() {
    let o = Output::new(
        "ip".to_string(),
        &obj(vec![("sensitive", Json::Bool(false)), ("value", num("7"))]),
    )
    .unwrap();
    assert!(!o.sensitive);
    assert_eq!(o.value, "7");
}
