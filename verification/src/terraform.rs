//! Graph assembly: locating the document's sections, extracting every
//! resource and output, and composing the result.
//!
//! The document must carry `values.root_module.resources`; `child_modules`
//! resources (one nesting level) and `outputs` are optional. Any single
//! failure anywhere aborts the whole parse with the error of the first
//! offending field, in section order: document structure, then resources,
//! then dependency links, then outputs. There is no partial result.

use vstd::prelude::*;
use vstd::string::StringExecFns;

use crate::json::Json;
use crate::json::field;
use crate::text::dec_chars;
use crate::text::dec_string;
use crate::types::ErrView;
use crate::types::Graph;
use crate::types::Link;
use crate::types::Node;
use crate::types::Output;
use crate::types::ParseError;
use crate::types::err_view;
use crate::types::node_matches;
use crate::types::output_error;
use crate::types::output_matches;
use crate::types::output_valid;
use crate::types::resource_error;
use crate::types::resource_valid;
use crate::types::str_field;

verus! {

/// The characters of a string value; meaningful for `Json::Str` alone.
pub open spec fn str_chars(v: Json) -> Seq<char> {
    match v {
        Json::Str(s) => s@,
        _ => Seq::empty(),
    }
}

/// Whether link extraction succeeds on one resource: a string `address`, and
/// `depends_on` absent or an array of strings.
pub open spec fn links_valid(r: Json) -> bool {
    &&& str_field(r, "address"@) is Some
    &&& match field(r, "depends_on"@) {
        None => true,
        Some(Json::Arr(ds)) => forall|i: int| 0 <= i < ds@.len() ==> (#[trigger] ds@[i]) is Str,
        Some(_) => false,
    }
}

/// The index of the first non-string element.
pub open spec fn first_non_str(ds: Seq<Json>) -> int
    decreases ds.len(),
{
    if ds.len() == 0 {
        0
    } else if !(ds[0] is Str) {
        0
    } else {
        1 + first_non_str(ds.drop_first())
    }
}

/// The error link extraction rejects one resource with.
pub open spec fn links_error(r: Json) -> ErrView
    recommends
        !links_valid(r),
{
    if field(r, "address"@) is None {
        ErrView::Missing { section: "resource"@, field: "address"@ }
    } else if !(field(r, "address"@) matches Some(Json::Str(_))) {
        ErrView::Wrong { field: "address"@, expected: "string"@ }
    } else if !(field(r, "depends_on"@) matches Some(Json::Arr(_))) {
        ErrView::Wrong { field: "depends_on"@, expected: "array"@ }
    } else {
        let ds = match field(r, "depends_on"@) {
            Some(Json::Arr(ds)) => ds@,
            _ => Seq::empty(),
        };
        ErrView::Wrong {
            field: "depends_on["@ + dec_chars(first_non_str(ds) as nat) + "]"@,
            expected: "string"@,
        }
    }
}

/// The dependency edges one resource declares, as (source, target) character
/// pairs in declaration order: one per `depends_on` entry, none when the
/// field is absent.
pub open spec fn resource_links(r: Json) -> Seq<(Seq<char>, Seq<char>)> {
    let addr = match str_field(r, "address"@) {
        Some(a) => a,
        None => Seq::empty(),
    };
    match field(r, "depends_on"@) {
        Some(Json::Arr(ds)) => ds@.map_values(|d: Json| (addr, str_chars(d))),
        _ => Seq::empty(),
    }
}

/// The edges of a resource list, concatenated in list order.
pub open spec fn links_of(rs: Seq<Json>) -> Seq<(Seq<char>, Seq<char>)>
    decreases rs.len(),
{
    if rs.len() == 0 {
        Seq::empty()
    } else {
        links_of(rs.drop_last()) + resource_links(rs.last())
    }
}

/// The character sequences behind a vector of links.
pub open spec fn link_views(ls: Seq<Link>) -> Seq<(Seq<char>, Seq<char>)> {
    ls.map_values(|l: Link| (l.source_addr@, l.target_addr@))
}

/// The index of the first resource node extraction rejects.
pub open spec fn first_bad_resource(rs: Seq<Json>) -> int
    decreases rs.len(),
{
    if rs.len() == 0 {
        0
    } else if !resource_valid(rs[0]) {
        0
    } else {
        1 + first_bad_resource(rs.drop_first())
    }
}

/// The index of the first resource link extraction rejects.
pub open spec fn first_bad_links(rs: Seq<Json>) -> int
    decreases rs.len(),
{
    if rs.len() == 0 {
        0
    } else if !links_valid(rs[0]) {
        0
    } else {
        1 + first_bad_links(rs.drop_first())
    }
}

/// The index of the first output entry extraction rejects.
pub open spec fn first_bad_output(es: Seq<(String, Json)>) -> int
    decreases es.len(),
{
    if es.len() == 0 {
        0
    } else if !output_valid(es[0].1) {
        0
    } else {
        1 + first_bad_output(es.drop_first())
    }
}

proof fn lemma_first_bad_resource_at(rs: Seq<Json>, i: int)
    requires
        0 <= i < rs.len(),
        !resource_valid(rs[i]),
        forall|j: int| 0 <= j < i ==> resource_valid(#[trigger] rs[j]),
    ensures
        first_bad_resource(rs) == i,
    decreases i,
{
    if i > 0 {
        lemma_first_bad_resource_at(rs.drop_first(), i - 1);
    }
}

proof fn lemma_first_bad_links_at(rs: Seq<Json>, i: int)
    requires
        0 <= i < rs.len(),
        !links_valid(rs[i]),
        forall|j: int| 0 <= j < i ==> links_valid(#[trigger] rs[j]),
    ensures
        first_bad_links(rs) == i,
    decreases i,
{
    if i > 0 {
        lemma_first_bad_links_at(rs.drop_first(), i - 1);
    }
}

proof fn lemma_first_bad_output_at(es: Seq<(String, Json)>, i: int)
    requires
        0 <= i < es.len(),
        !output_valid(es[i].1),
        forall|j: int| 0 <= j < i ==> output_valid((#[trigger] es[j]).1),
    ensures
        first_bad_output(es) == i,
    decreases i,
{
    if i > 0 {
        lemma_first_bad_output_at(es.drop_first(), i - 1);
    }
}

proof fn lemma_first_non_str_at(ds: Seq<Json>, i: int)
    requires
        0 <= i < ds.len(),
        !(ds[i] is Str),
        forall|j: int| 0 <= j < i ==> (#[trigger] ds[j]) is Str,
    ensures
        first_non_str(ds) == i,
    decreases i,
{
    if i > 0 {
        lemma_first_non_str_at(ds.drop_first(), i - 1);
    }
}

/// Extracts one node per resource, in list order; stops at the first
/// resource the schema rejects.
#[verifier::loop_isolation(false)]
pub fn get_nodes(resources: &Vec<Json>, is_root: bool) -> (r: Result<Vec<Node>, ParseError>)
    ensures
        r is Ok <==> (forall|i: int|
            0 <= i < resources@.len() ==> resource_valid(#[trigger] resources@[i])),
        r matches Ok(ns) ==> {
            &&& ns@.len() == resources@.len()
            &&& forall|i: int|
                0 <= i < resources@.len() ==> node_matches(
                    #[trigger] ns@[i],
                    resources@[i],
                    is_root,
                )
        },
        r matches Err(e) ==> err_view(e) == resource_error(
            resources@[first_bad_resource(resources@)],
        ),
{
    let n = resources.len();
    let mut nodes: Vec<Node> = Vec::new();
    let mut i: usize = 0;
    while i < n
        invariant
            n == resources.len(),
            0 <= i <= n,
            nodes@.len() == i,
            forall|j: int| 0 <= j < i ==> resource_valid(#[trigger] resources@[j]),
            forall|j: int| 0 <= j < i ==> node_matches(#[trigger] nodes@[j], resources@[j], is_root),
        decreases n - i,
    {
        match Node::new(&resources[i], is_root) {
            Ok(node) => {
                nodes.push(node);
            },
            Err(e) => {
                proof {
                    lemma_first_bad_resource_at(resources@, i as int);
                }
                return Err(e);
            },
        }
        i = i + 1;
    }
    Ok(nodes)
}

/// Extracts every dependency edge of every resource, in declaration order;
/// stops at the first resource whose address or `depends_on` the schema
/// rejects. A resource without `depends_on` contributes no edge.
#[verifier::loop_isolation(false)]
pub fn get_links(resources: &Vec<Json>) -> (r: Result<Vec<Link>, ParseError>)
    ensures
        r is Ok <==> (forall|i: int|
            0 <= i < resources@.len() ==> links_valid(#[trigger] resources@[i])),
        r matches Ok(ls) ==> link_views(ls@) == links_of(resources@),
        r matches Err(e) ==> err_view(e) == links_error(resources@[first_bad_links(resources@)]),
{
    let n = resources.len();
    let mut links: Vec<Link> = Vec::new();
    let mut i: usize = 0;
    while i < n
        invariant
            n == resources.len(),
            0 <= i <= n,
            forall|j: int| 0 <= j < i ==> links_valid(#[trigger] resources@[j]),
            link_views(links@) == links_of(resources@.subrange(0, i as int)),
        decreases n - i,
    {
        let resource = &resources[i];
        let source_addr = match resource.get("address") {
            Some(Json::Str(s)) => s,
            Some(_) => {
                proof {
                    lemma_first_bad_links_at(resources@, i as int);
                }
                return Err(ParseError::WrongType {
                    field: String::from_str("address"),
                    expected_kind: String::from_str("string"),
                });
            },
            None => {
                proof {
                    lemma_first_bad_links_at(resources@, i as int);
                }
                return Err(ParseError::MissingField {
                    section: String::from_str("resource"),
                    field: String::from_str("address"),
                });
            },
        };
        match resource.get("depends_on") {
            None => {
                proof {
                    assert(resource_links(resources@[i as int]) =~= Seq::<
                        (Seq<char>, Seq<char>),
                    >::empty());
                }
            },
            Some(Json::Arr(ds)) => {
                let m = ds.len();
                let ghost addr = source_addr@;
                let ghost target_of = |d: Json| (addr, str_chars(d));
                let mut k: usize = 0;
                while k < m
                    invariant
                        m == ds.len(),
                        0 <= k <= m,
                        forall|j: int| 0 <= j < k ==> (#[trigger] ds@[j]) is Str,
                        link_views(links@) == links_of(resources@.subrange(0, i as int))
                            + ds@.subrange(0, k as int).map_values(target_of),
                    decreases m - k,
                {
                    match &ds[k] {
                        Json::Str(target) => {
                            let ghost prior = links@;
                            links.push(Link::new(source_addr.clone(), target.clone()));
                            proof {
                                assert(ds@.subrange(0, k + 1 as int) =~= ds@.subrange(
                                    0,
                                    k as int,
                                ).push(ds@[k as int]));
                                assert(ds@.subrange(0, k + 1 as int).map_values(target_of)
                                    =~= ds@.subrange(0, k as int).map_values(target_of).push(
                                    target_of(ds@[k as int]),
                                ));
                                assert(link_views(links@) =~= link_views(prior).push(
                                    (addr, str_chars(ds@[k as int])),
                                ));
                                assert(link_views(links@) =~= links_of(
                                    resources@.subrange(0, i as int),
                                ) + ds@.subrange(0, k + 1 as int).map_values(target_of));
                            }
                        },
                        _ => {
                            proof {
                                lemma_first_bad_links_at(resources@, i as int);
                                lemma_first_non_str_at(ds@, k as int);
                            }
                            let mut field_name = String::from_str("depends_on[");
                            let index = dec_string(k);
                            field_name.append(index.as_str());
                            field_name.append("]");
                            return Err(ParseError::WrongType {
                                field: field_name,
                                expected_kind: String::from_str("string"),
                            });
                        },
                    }
                    k = k + 1;
                }
                proof {
                    assert(ds@.subrange(0, m as int) =~= ds@);
                    assert(ds@.map_values(target_of) =~= resource_links(resources@[i as int]));
                }
            },
            Some(_) => {
                proof {
                    lemma_first_bad_links_at(resources@, i as int);
                }
                return Err(ParseError::WrongType {
                    field: String::from_str("depends_on"),
                    expected_kind: String::from_str("array"),
                });
            },
        }
        proof {
            let prefix = resources@.subrange(0, i + 1 as int);
            assert(prefix.drop_last() =~= resources@.subrange(0, i as int));
            assert(prefix.last() == resources@[i as int]);
            assert(link_views(links@) =~= links_of(prefix));
        }
        i = i + 1;
    }
    proof {
        assert(resources@.subrange(0, n as int) =~= resources@);
    }
    Ok(links)
}

/// Extracts one output per declared entry, in entry order; stops at the
/// first declaration the schema rejects.
#[verifier::loop_isolation(false)]
pub fn get_outputs(outputs: &Vec<(String, Json)>) -> (r: Result<Vec<Output>, ParseError>)
    ensures
        r is Ok <==> (forall|i: int|
            0 <= i < outputs@.len() ==> output_valid((#[trigger] outputs@[i]).1)),
        r matches Ok(os) ==> {
            &&& os@.len() == outputs@.len()
            &&& forall|i: int|
                0 <= i < outputs@.len() ==> output_matches(
                    #[trigger] os@[i],
                    outputs@[i].0@,
                    outputs@[i].1,
                )
        },
        r matches Err(e) ==> err_view(e) == output_error(
            outputs@[first_bad_output(outputs@)].0@,
            outputs@[first_bad_output(outputs@)].1,
        ),
{
    let n = outputs.len();
    let mut out: Vec<Output> = Vec::new();
    let mut i: usize = 0;
    while i < n
        invariant
            n == outputs.len(),
            0 <= i <= n,
            out@.len() == i,
            forall|j: int| 0 <= j < i ==> output_valid((#[trigger] outputs@[j]).1),
            forall|j: int|
                0 <= j < i ==> output_matches(#[trigger] out@[j], outputs@[j].0@, outputs@[j].1),
        decreases n - i,
    {
        match Output::new(outputs[i].0.clone(), &outputs[i].1) {
            Ok(o) => {
                out.push(o);
            },
            Err(e) => {
                proof {
                    lemma_first_bad_output_at(outputs@, i as int);
                }
                return Err(e);
            },
        }
        i = i + 1;
    }
    Ok(out)
}

/// The document's `values` section.
pub open spec fn sect_values(doc: Json) -> Option<Json> {
    field(doc, "values"@)
}

/// The `values.root_module` section.
pub open spec fn sect_root_module(doc: Json) -> Option<Json> {
    match sect_values(doc) {
        Some(v) => field(v, "root_module"@),
        None => None,
    }
}

/// The `values.root_module.resources` field.
pub open spec fn sect_root_resources(doc: Json) -> Option<Json> {
    match sect_root_module(doc) {
        Some(m) => field(m, "resources"@),
        None => None,
    }
}

/// The `values.child_modules` section.
pub open spec fn sect_child_modules(doc: Json) -> Option<Json> {
    match sect_values(doc) {
        Some(v) => field(v, "child_modules"@),
        None => None,
    }
}

/// The `values.child_modules.resources` field.
pub open spec fn sect_child_resources(doc: Json) -> Option<Json> {
    match sect_child_modules(doc) {
        Some(c) => field(c, "resources"@),
        None => None,
    }
}

/// The `values.outputs` section.
pub open spec fn sect_outputs(doc: Json) -> Option<Json> {
    match sect_values(doc) {
        Some(v) => field(v, "outputs"@),
        None => None,
    }
}

/// Whether the document's sections have the required shape, before any
/// record is read.
pub open spec fn doc_structure_valid(doc: Json) -> bool {
    &&& sect_values(doc) matches Some(Json::Obj(_))
    &&& sect_root_module(doc) matches Some(Json::Obj(_))
    &&& sect_root_resources(doc) matches Some(Json::Arr(_))
    &&& match sect_child_modules(doc) {
        None => true,
        Some(c) => c is Obj && match field(c, "resources"@) {
            None => true,
            Some(rs) => rs is Arr,
        },
    }
    &&& match sect_outputs(doc) {
        None => true,
        Some(o) => o is Obj,
    }
}

/// The root module's resource records.
pub open spec fn root_resources(doc: Json) -> Seq<Json> {
    match sect_root_resources(doc) {
        Some(Json::Arr(a)) => a@,
        _ => Seq::empty(),
    }
}

/// The child modules' resource records; empty when the section or its
/// `resources` field is absent.
pub open spec fn child_resources(doc: Json) -> Seq<Json> {
    match sect_child_resources(doc) {
        Some(Json::Arr(a)) => a@,
        _ => Seq::empty(),
    }
}

/// The declared output entries; empty when the section is absent.
pub open spec fn output_entries(doc: Json) -> Seq<(String, Json)> {
    match sect_outputs(doc) {
        Some(Json::Obj(es)) => es@,
        _ => Seq::empty(),
    }
}

/// Whether the whole document parses: the structure holds and every
/// resource and output record satisfies its schema.
pub open spec fn doc_valid(doc: Json) -> bool {
    &&& doc_structure_valid(doc)
    &&& forall|i: int|
        0 <= i < root_resources(doc).len() ==> resource_valid(#[trigger] root_resources(doc)[i])
    &&& forall|i: int|
        0 <= i < child_resources(doc).len() ==> resource_valid(#[trigger] child_resources(doc)[i])
    &&& forall|i: int|
        0 <= i < root_resources(doc).len() ==> links_valid(#[trigger] root_resources(doc)[i])
    &&& forall|i: int|
        0 <= i < child_resources(doc).len() ==> links_valid(#[trigger] child_resources(doc)[i])
    &&& forall|i: int|
        0 <= i < output_entries(doc).len() ==> output_valid((#[trigger] output_entries(doc)[i]).1)
}

/// The error an invalid document is rejected with: the first failure, the
/// sections checked in assembly order — structure, resources, links,
/// outputs.
pub open spec fn doc_error(doc: Json) -> ErrView
    recommends
        !doc_valid(doc),
{
    let root = root_resources(doc);
    let child = child_resources(doc);
    let outs = output_entries(doc);
    if sect_values(doc) is None {
        ErrView::Missing { section: "<root>"@, field: "values"@ }
    } else if !(sect_values(doc) matches Some(Json::Obj(_))) {
        ErrView::Wrong { field: "values"@, expected: "object"@ }
    } else if sect_root_module(doc) is None {
        ErrView::Missing { section: "values"@, field: "root_module"@ }
    } else if !(sect_root_module(doc) matches Some(Json::Obj(_))) {
        ErrView::Wrong { field: "root_module"@, expected: "object"@ }
    } else if sect_root_resources(doc) is None {
        ErrView::Missing { section: "root_module"@, field: "resources"@ }
    } else if !(sect_root_resources(doc) matches Some(Json::Arr(_))) {
        ErrView::Wrong { field: "resources"@, expected: "array"@ }
    } else if !(match sect_child_modules(doc) {
        None => true,
        Some(c) => c is Obj,
    }) {
        ErrView::Wrong { field: "child_modules"@, expected: "object"@ }
    } else if !(match sect_child_resources(doc) {
        None => true,
        Some(rs) => rs is Arr,
    }) {
        ErrView::Wrong { field: "resources"@, expected: "array"@ }
    } else if !(forall|i: int| 0 <= i < root.len() ==> resource_valid(#[trigger] root[i])) {
        resource_error(root[first_bad_resource(root)])
    } else if !(forall|i: int| 0 <= i < child.len() ==> resource_valid(#[trigger] child[i])) {
        resource_error(child[first_bad_resource(child)])
    } else if !(forall|i: int| 0 <= i < root.len() ==> links_valid(#[trigger] root[i])) {
        links_error(root[first_bad_links(root)])
    } else if !(forall|i: int| 0 <= i < child.len() ==> links_valid(#[trigger] child[i])) {
        links_error(child[first_bad_links(child)])
    } else if !(match sect_outputs(doc) {
        None => true,
        Some(o) => o is Obj,
    }) {
        ErrView::Wrong { field: "outputs"@, expected: "object"@ }
    } else {
        output_error(outs[first_bad_output(outs)].0@, outs[first_bad_output(outs)].1)
    }
}

/// How an assembled graph relates to its document: one node per root-module
/// then child-module resource, every declared edge in order, one output per
/// declared entry.
pub open spec fn graph_matches(g: Graph, doc: Json) -> bool {
    let root = root_resources(doc);
    let child = child_resources(doc);
    let outs = output_entries(doc);
    &&& g.nodes@.len() == root.len() + child.len()
    &&& forall|i: int| 0 <= i < root.len() ==> node_matches(#[trigger] g.nodes@[i], root[i], true)
    &&& forall|i: int|
        0 <= i < child.len() ==> node_matches(g.nodes@[root.len() + i], #[trigger] child[i], false)
    &&& link_views(g.links@) == links_of(root) + links_of(child)
    &&& g.outputs@.len() == outs.len()
    &&& forall|i: int|
        0 <= i < outs.len() ==> output_matches(#[trigger] g.outputs@[i], outs[i].0@, outs[i].1)
}

/// A missing required field is never papered over: a document whose first
/// offending resource is an object with no `address` entry is invalid, and
/// is rejected with `MissingField` naming it — not skipped, not defaulted.
pub proof fn lemma_missing_address_rejected(doc: Json, i: int)
    requires
        doc_structure_valid(doc),
        0 <= i < root_resources(doc).len(),
        forall|j: int| 0 <= j < i ==> resource_valid(#[trigger] root_resources(doc)[j]),
        root_resources(doc)[i] is Obj,
        field(root_resources(doc)[i], "address"@) is None,
    ensures
        !doc_valid(doc),
        doc_error(doc) == (ErrView::Missing { section: "resource"@, field: "address"@ }),
{
    assert(!resource_valid(root_resources(doc)[i]));
    lemma_first_bad_resource_at(root_resources(doc), i);
}

/// Parses one exported document into a graph. Succeeds exactly on valid
/// documents, with every record extracted in declaration order; fails on the
/// first schema violation with an error naming the offending field, and a
/// sensitive output's value never appears in the result.
pub fn parse_terraform(json_data: &Json) -> (r: Result<Graph, ParseError>)
    ensures
        r is Ok <==> doc_valid(*json_data),
        r matches Ok(g) ==> graph_matches(g, *json_data),
        r matches Ok(g) ==> forall|i: int|
            0 <= i < g.outputs@.len() && (#[trigger] g.outputs@[i]).sensitive
                ==> g.outputs@[i].value@ == "<sensitive>"@,
        r matches Err(e) ==> err_view(e) == doc_error(*json_data),
{
    let values = match json_data.get("values") {
        Some(v) => v,
        None => {
            return Err(ParseError::MissingField {
                section: String::from_str("<root>"),
                field: String::from_str("values"),
            });
        },
    };
    match values {
        Json::Obj(_) => (),
        _ => {
            return Err(ParseError::WrongType {
                field: String::from_str("values"),
                expected_kind: String::from_str("object"),
            });
        },
    }
    let root_module = match values.get("root_module") {
        Some(m) => m,
        None => {
            return Err(ParseError::MissingField {
                section: String::from_str("values"),
                field: String::from_str("root_module"),
            });
        },
    };
    match root_module {
        Json::Obj(_) => (),
        _ => {
            return Err(ParseError::WrongType {
                field: String::from_str("root_module"),
                expected_kind: String::from_str("object"),
            });
        },
    }
    let resources = match root_module.get("resources") {
        Some(Json::Arr(a)) => a,
        Some(_) => {
            return Err(ParseError::WrongType {
                field: String::from_str("resources"),
                expected_kind: String::from_str("array"),
            });
        },
        None => {
            return Err(ParseError::MissingField {
                section: String::from_str("root_module"),
                field: String::from_str("resources"),
            });
        },
    };
    let child_res: Option<&Vec<Json>> = match values.get("child_modules") {
        None => {
            proof {
                assert(child_resources(*json_data) =~= Seq::<Json>::empty());
            }
            None
        },
        Some(child) => {
            match child {
                Json::Obj(_) => (),
                _ => {
                    return Err(ParseError::WrongType {
                        field: String::from_str("child_modules"),
                        expected_kind: String::from_str("object"),
                    });
                },
            }
            match child.get("resources") {
                None => {
                    proof {
                        assert(child_resources(*json_data) =~= Seq::<Json>::empty());
                    }
                    None
                },
                Some(Json::Arr(a)) => Some(a),
                Some(_) => {
                    return Err(ParseError::WrongType {
                        field: String::from_str("resources"),
                        expected_kind: String::from_str("array"),
                    });
                },
            }
        },
    };
    let mut nodes = match get_nodes(resources, true) {
        Ok(ns) => ns,
        Err(e) => {
            return Err(e);
        },
    };
    match child_res {
        None => (),
        Some(cr) => {
            let mut child_nodes = match get_nodes(cr, false) {
                Ok(ns) => ns,
                Err(e) => {
                    return Err(e);
                },
            };
            nodes.append(&mut child_nodes);
        },
    }
    let mut links = match get_links(resources) {
        Ok(ls) => ls,
        Err(e) => {
            return Err(e);
        },
    };
    match child_res {
        None => {
            proof {
                assert(link_views(links@) =~= links_of(root_resources(*json_data)) + links_of(
                    child_resources(*json_data),
                ));
            }
        },
        Some(cr) => {
            let mut child_links = match get_links(cr) {
                Ok(ls) => ls,
                Err(e) => {
                    return Err(e);
                },
            };
            links.append(&mut child_links);
            proof {
                assert(link_views(links@) =~= links_of(root_resources(*json_data)) + links_of(
                    child_resources(*json_data),
                ));
            }
        },
    }
    let outputs = match values.get("outputs") {
        None => {
            proof {
                assert(output_entries(*json_data) =~= Seq::<(String, Json)>::empty());
            }
            Vec::new()
        },
        Some(outs) => {
            match outs {
                Json::Obj(entries) => {
                    match get_outputs(entries) {
                        Ok(os) => os,
                        Err(e) => {
                            return Err(e);
                        },
                    }
                },
                _ => {
                    return Err(ParseError::WrongType {
                        field: String::from_str("outputs"),
                        expected_kind: String::from_str("object"),
                    });
                },
            }
        },
    };
    Ok(Graph { nodes, links, outputs })
}

} // verus!
