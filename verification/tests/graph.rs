//! End-to-end tests of document parsing: the concrete scenario, counts,
//! ordering, redaction, and every error variant.

use tfgraph::json::Json;
use tfgraph::terraform::parse_terraform;
use tfgraph::types::ParseError;

fn s(x: &str) -> Json {
    Json::Str(x.to_string())
}

fn num(x: &str) -> Json {
    Json::Num(x.to_string())
}

fn obj(entries: Vec<(&str, Json)>) -> Json {
    Json::Obj(entries.into_iter().map(|(k, v)| (k.to_string(), v)).collect())
}

fn arr(elems: Vec<Json>) -> Json {
    Json::Arr(elems)
}

/// A resource with every required field, no `depends_on`.
fn resource(address: &str) -> Json {
    obj(vec![
        ("address", s(address)),
        ("type", s("aws_instance")),
        ("name", s("web")),
        ("provider_name", s("aws")),
        ("mode", s("managed")),
        ("values", obj(vec![])),
    ])
}

fn doc_with_resources(resources: Vec<Json>) -> Json {
    obj(vec![(
        "values",
        obj(vec![("root_module", obj(vec![("resources", arr(resources))]))]),
    )])
}

fn missing_field(section: &str, field: &str) -> ParseError {
    ParseError::MissingField {
        section: section.to_string(),
        field: field.to_string(),
    }
}

fn wrong_type(field: &str, expected: &str) -> ParseError {
    ParseError::WrongType {
        field: field.to_string(),
        expected_kind: expected.to_string(),
    }
}

#[test]
fn concrete_scenario() {
    let doc = obj(vec![(
        "values",
        obj(vec![
            (
                "root_module",
                obj(vec![(
                    "resources",
                    arr(vec![obj(vec![
                        ("address", s("aws_instance.web")),
                        ("type", s("aws_instance")),
                        ("name", s("web")),
                        ("provider_name", s("registry.terraform.io/hashicorp/aws")),
                        ("mode", s("managed")),
                        ("values", obj(vec![("ami", s("ami-123")), ("count", num("2"))])),
                        ("depends_on", arr(vec![s("aws_vpc.main")])),
                    ])]),
                )]),
            ),
            (
                "outputs",
                obj(vec![
                    ("ip", obj(vec![("sensitive", Json::Bool(false)), ("value", s("1.2.3.4"))])),
                    ("token", obj(vec![("sensitive", Json::Bool(true)), ("value", s("secret"))])),
                ]),
            ),
        ]),
    )]);
    let g = parse_terraform(&doc).unwrap();

    assert_eq!(g.nodes.len(), 1);
    let n = &g.nodes[0];
    assert_eq!(n.address, "aws_instance.web");
    assert_eq!(n.node_type, "aws_instance");
    assert_eq!(n.name, "web");
    assert_eq!(n.provider, "registry.terraform.io/hashicorp/aws");
    assert_eq!(n.mode, "managed");
    assert!(n.root);
    assert_eq!(
        n.values,
        vec![
            ("ami".to_string(), "ami-123".to_string()),
            ("count".to_string(), "2".to_string()),
        ]
    );

    assert_eq!(g.links.len(), 1);
    assert_eq!(g.links[0].source_addr, "aws_instance.web");
    assert_eq!(g.links[0].target_addr, "aws_vpc.main");

    assert_eq!(g.outputs.len(), 2);
    assert_eq!(g.outputs[0].name, "ip");
    assert_eq!(g.outputs[0].value, "1.2.3.4");
    assert!(!g.outputs[0].sensitive);
    assert_eq!(g.outputs[1].name, "token");
    assert_eq!(g.outputs[1].value, "<sensitive>");
    assert!(g.outputs[1].sensitive);
}

#[test]
fn missing_top_level_values() {
    let doc = obj(vec![("other", Json::Null)]);
    assert_eq!(parse_terraform(&doc).unwrap_err(), missing_field("<root>", "values"));
    let doc2 = Json::Null;
    assert_eq!(parse_terraform(&doc2).unwrap_err(), missing_field("<root>", "values"));
}

#[test]
fn values_not_an_object() {
    let doc = obj(vec![("values", num("3"))]);
    assert_eq!(parse_terraform(&doc).unwrap_err(), wrong_type("values", "object"));
}

#[test]
fn missing_root_module() {
    let doc = obj(vec![("values", obj(vec![]))]);
    assert_eq!(parse_terraform(&doc).unwrap_err(), missing_field("values", "root_module"));
}

#[test]
fn root_module_not_an_object() {
    let doc = obj(vec![("values", obj(vec![("root_module", arr(vec![]))]))]);
    assert_eq!(parse_terraform(&doc).unwrap_err(), wrong_type("root_module", "object"));
}

#[test]
fn missing_resources() {
    let doc = obj(vec![("values", obj(vec![("root_module", obj(vec![]))]))]);
    assert_eq!(parse_terraform(&doc).unwrap_err(), missing_field("root_module", "resources"));
}

#[test]
fn resources_not_an_array() {
    let doc = obj(vec![(
        "values",
        obj(vec![("root_module", obj(vec![("resources", obj(vec![]))]))]),
    )]);
    assert_eq!(parse_terraform(&doc).unwrap_err(), wrong_type("resources", "array"));
}

#[test]
fn empty_resources_parse_to_empty_graph() {
    let g = parse_terraform(&doc_with_resources(vec![])).unwrap();
    assert_eq!(g.nodes.len(), 0);
    assert_eq!(g.links.len(), 0);
    assert_eq!(g.outputs.len(), 0);
}

#[test]
fn resource_missing_address() {
    let mut r = resource("a");
    if let Json::Obj(ref mut entries) = r {
        entries.retain(|(k, _)| k != "address");
    }
    let doc = doc_with_resources(vec![r]);
    assert_eq!(parse_terraform(&doc).unwrap_err(), missing_field("resource", "address"));
}

#[test]
fn resource_missing_each_required_field() {
    for field in ["address", "type", "name", "provider_name", "mode", "values"] {
        let mut r = resource("a");
        if let Json::Obj(ref mut entries) = r {
            entries.retain(|(k, _)| k != field);
        }
        let doc = doc_with_resources(vec![r]);
        assert_eq!(parse_terraform(&doc).unwrap_err(), missing_field("resource", field));
    }
}

#[test]
fn resource_field_wrong_kind() {
    let mut r = resource("a");
    if let Json::Obj(ref mut entries) = r {
        for e in entries.iter_mut() {
            if e.0 == "address" {
                e.1 = num("1");
            }
        }
    }
    let doc = doc_with_resources(vec![r]);
    assert_eq!(parse_terraform(&doc).unwrap_err(), wrong_type("address", "string"));
}

#[test]
fn resource_values_not_an_object() {
    let mut r = resource("a");
    if let Json::Obj(ref mut entries) = r {
        for e in entries.iter_mut() {
            if e.0 == "values" {
                e.1 = arr(vec![]);
            }
        }
    }
    let doc = doc_with_resources(vec![r]);
    assert_eq!(parse_terraform(&doc).unwrap_err(), wrong_type("values", "object"));
}

#[test]
fn resource_not_an_object() {
    let doc = doc_with_resources(vec![num("7")]);
    assert_eq!(parse_terraform(&doc).unwrap_err(), wrong_type("resource", "object"));
}

#[test]
fn no_depends_on_no_links() {
    let g = parse_terraform(&doc_with_resources(vec![resource("a")])).unwrap();
    assert_eq!(g.links.len(), 0);
}

#[test]
fn empty_depends_on_no_links() {
    let mut r = resource("a");
    if let Json::Obj(ref mut entries) = r {
        entries.push(("depends_on".to_string(), arr(vec![])));
    }
    let g = parse_terraform(&doc_with_resources(vec![r])).unwrap();
    assert_eq!(g.links.len(), 0);
}

#[test]
fn two_depends_on_two_links_in_order() {
    let mut r = resource("x");
    if let Json::Obj(ref mut entries) = r {
        entries.push(("depends_on".to_string(), arr(vec![s("a"), s("b")])));
    }
    let g = parse_terraform(&doc_with_resources(vec![r])).unwrap();
    assert_eq!(g.links.len(), 2);
    assert_eq!(g.links[0].source_addr, "x");
    assert_eq!(g.links[0].target_addr, "a");
    assert_eq!(g.links[1].source_addr, "x");
    assert_eq!(g.links[1].target_addr, "b");
}

#[test]
fn depends_on_not_an_array() {
    let mut r = resource("a");
    if let Json::Obj(ref mut entries) = r {
        entries.push(("depends_on".to_string(), s("b")));
    }
    let doc = doc_with_resources(vec![r]);
    assert_eq!(parse_terraform(&doc).unwrap_err(), wrong_type("depends_on", "array"));
}

#[test]
fn depends_on_element_not_a_string() {
    let mut r = resource("a");
    if let Json::Obj(ref mut entries) = r {
        entries.push(("depends_on".to_string(), arr(vec![s("b"), Json::Null])));
    }
    let doc = doc_with_resources(vec![r]);
    assert_eq!(parse_terraform(&doc).unwrap_err(), wrong_type("depends_on[1]", "string"));
}

#[test]
fn depends_on_bad_element_with_two_digit_index() {
    let mut targets: Vec<Json> = (0..12).map(|i| s(&format!("t{}", i))).collect();
    targets.push(num("0"));
    let mut r = resource("a");
    if let Json::Obj(ref mut entries) = r {
        entries.push(("depends_on".to_string(), arr(targets)));
    }
    let doc = doc_with_resources(vec![r]);
    assert_eq!(parse_terraform(&doc).unwrap_err(), wrong_type("depends_on[12]", "string"));
}

#[test]
fn unresolved_link_targets_are_kept() {
    let mut r = resource("a");
    if let Json::Obj(ref mut entries) = r {
        entries.push(("depends_on".to_string(), arr(vec![s("not.a.node")])));
    }
    let g = parse_terraform(&doc_with_resources(vec![r])).unwrap();
    assert_eq!(g.links.len(), 1);
    assert_eq!(g.links[0].target_addr, "not.a.node");
}

#[test]
fn duplicate_addresses_are_kept() {
    let g = parse_terraform(&doc_with_resources(vec![resource("a"), resource("a")])).unwrap();
    assert_eq!(g.nodes.len(), 2);
    assert_eq!(g.nodes[0].address, "a");
    assert_eq!(g.nodes[1].address, "a");
}

#[test]
fn child_modules_counted_and_flagged() {
    let doc = obj(vec![(
        "values",
        obj(vec![
            ("root_module", obj(vec![("resources", arr(vec![resource("r1"), resource("r2")]))])),
            ("child_modules", obj(vec![("resources", arr(vec![resource("c1")]))])),
        ]),
    )]);
    let g = parse_terraform(&doc).unwrap();
    assert_eq!(g.nodes.len(), 3);
    assert_eq!(g.nodes[0].address, "r1");
    assert_eq!(g.nodes[1].address, "r2");
    assert_eq!(g.nodes[2].address, "c1");
    assert!(g.nodes[0].root);
    assert!(g.nodes[1].root);
    assert!(!g.nodes[2].root);
}

#[test]
fn child_modules_links_come_after_root_links() {
    let mut r = resource("r1");
    if let Json::Obj(ref mut entries) = r {
        entries.push(("depends_on".to_string(), arr(vec![s("d1")])));
    }
    let mut c = resource("c1");
    if let Json::Obj(ref mut entries) = c {
        entries.push(("depends_on".to_string(), arr(vec![s("d2")])));
    }
    let doc = obj(vec![(
        "values",
        obj(vec![
            ("root_module", obj(vec![("resources", arr(vec![r]))])),
            ("child_modules", obj(vec![("resources", arr(vec![c]))])),
        ]),
    )]);
    let g = parse_terraform(&doc).unwrap();
    assert_eq!(g.links.len(), 2);
    assert_eq!(g.links[0].source_addr, "r1");
    assert_eq!(g.links[0].target_addr, "d1");
    assert_eq!(g.links[1].source_addr, "c1");
    assert_eq!(g.links[1].target_addr, "d2");
}

#[test]
fn child_modules_without_resources_is_fine() {
    let doc = obj(vec![(
        "values",
        obj(vec![
            ("root_module", obj(vec![("resources", arr(vec![resource("r1")]))])),
            ("child_modules", obj(vec![])),
        ]),
    )]);
    let g = parse_terraform(&doc).unwrap();
    assert_eq!(g.nodes.len(), 1);
}

#[test]
fn child_modules_not_an_object() {
    let doc = obj(vec![(
        "values",
        obj(vec![
            ("root_module", obj(vec![("resources", arr(vec![]))])),
            ("child_modules", num("1")),
        ]),
    )]);
    assert_eq!(parse_terraform(&doc).unwrap_err(), wrong_type("child_modules", "object"));
}

#[test]
fn child_resources_not_an_array() {
    let doc = obj(vec![(
        "values",
        obj(vec![
            ("root_module", obj(vec![("resources", arr(vec![]))])),
            ("child_modules", obj(vec![("resources", num("1"))])),
        ]),
    )]);
    assert_eq!(parse_terraform(&doc).unwrap_err(), wrong_type("resources", "array"));
}

fn doc_with_outputs(outputs: Json) -> Json {
    obj(vec![(
        "values",
        obj(vec![
            ("root_module", obj(vec![("resources", arr(vec![]))])),
            ("outputs", outputs),
        ]),
    )])
}

#[test]
fn outputs_counted_in_entry_order() {
    let doc = doc_with_outputs(obj(vec![
        ("b", obj(vec![("sensitive", Json::Bool(false)), ("value", s("two"))])),
        ("a", obj(vec![("sensitive", Json::Bool(false)), ("value", s("one"))])),
    ]));
    let g = parse_terraform(&doc).unwrap();
    assert_eq!(g.outputs.len(), 2);
    assert_eq!(g.outputs[0].name, "b");
    assert_eq!(g.outputs[0].value, "two");
    assert_eq!(g.outputs[1].name, "a");
    assert_eq!(g.outputs[1].value, "one");
}

#[test]
fn outputs_not_an_object() {
    let doc = doc_with_outputs(arr(vec![]));
    assert_eq!(parse_terraform(&doc).unwrap_err(), wrong_type("outputs", "object"));
}

#[test]
fn output_declaration_not_an_object() {
    let doc = doc_with_outputs(obj(vec![("ip", num("5"))]));
    assert_eq!(
        parse_terraform(&doc).unwrap_err(),
        ParseError::MalformedOutput { name: "ip".to_string(), reason: "not an object".to_string() }
    );
}

#[test]
fn output_missing_sensitive() {
    let doc = doc_with_outputs(obj(vec![("ip", obj(vec![("value", s("x"))]))]));
    assert_eq!(parse_terraform(&doc).unwrap_err(), missing_field("ip", "sensitive"));
}

#[test]
fn output_sensitive_not_a_bool() {
    let doc = doc_with_outputs(obj(vec![("ip", obj(vec![("sensitive", s("yes"))]))]));
    assert_eq!(parse_terraform(&doc).unwrap_err(), wrong_type("sensitive", "bool"));
}

#[test]
fn output_missing_value_when_not_sensitive() {
    let doc = doc_with_outputs(obj(vec![("ip", obj(vec![("sensitive", Json::Bool(false))]))]));
    assert_eq!(parse_terraform(&doc).unwrap_err(), missing_field("ip", "value"));
}

#[test]
fn sensitive_output_redacted_whatever_the_value() {
    let declared = vec![
        None,
        Some(Json::Null),
        Some(num("42")),
        Some(s("secret")),
        Some(arr(vec![s("a")])),
        Some(obj(vec![("k", s("v"))])),
    ];
    for value in declared {
        let mut entries = vec![("sensitive", Json::Bool(true))];
        if let Some(v) = value {
            entries.push(("value", v));
        }
        let doc = doc_with_outputs(obj(vec![("tok", obj(entries))]));
        let g = parse_terraform(&doc).unwrap();
        assert_eq!(g.outputs.len(), 1);
        assert!(g.outputs[0].sensitive);
        assert_eq!(g.outputs[0].value, "<sensitive>");
    }
}

#[test]
fn structured_output_values_are_canonicalized() {
    let doc = doc_with_outputs(obj(vec![(
        "mixed",
        obj(vec![
            ("sensitive", Json::Bool(false)),
            ("value", arr(vec![num("1"), s("a"), Json::Bool(true), Json::Null])),
        ]),
    )]));
    let g = parse_terraform(&doc).unwrap();
    assert_eq!(g.outputs[0].value, "[1, a, true, null]");
}
