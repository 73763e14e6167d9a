//! The graph data model and the per-record extractors.
//!
//! A [`Node`] is one resource record, an [`Output`] one named output with its
//! sensitivity redaction applied, a [`Link`] one directed dependency edge, and
//! a [`Graph`] the whole result. Construction is all-or-nothing: a record
//! either satisfies the schema and yields a value, or extraction stops with a
//! [`ParseError`] naming the offending field.

use vstd::prelude::*;
use vstd::string::StringExecFns;

use crate::canon::canon;
use crate::canon::canon_pairs;
use crate::canon::canonicalize;
use crate::canon::pair_views;
use crate::json::Json;
use crate::json::field;

verus! {

/// Why a document was rejected. Every variant carries enough context to name
/// the offending field or section.
#[derive(Debug, Clone, PartialEq, Eq)]
pub enum ParseError {
    /// A required field was absent from the named section.
    MissingField { section: String, field: String },
    /// A field was present but of the wrong JSON kind.
    WrongType { field: String, expected_kind: String },
    /// A declared output could not be read at all.
    MalformedOutput { name: String, reason: String },
}

/// A [`ParseError`] at the level contracts speak of: its character sequences.
pub ghost enum ErrView {
    Missing { section: Seq<char>, field: Seq<char> },
    Wrong { field: Seq<char>, expected: Seq<char> },
    Malformed { name: Seq<char>, reason: Seq<char> },
}

/// The character sequences a [`ParseError`] carries.
pub open spec fn err_view(e: ParseError) -> ErrView {
    match e {
        ParseError::MissingField { section, field } => ErrView::Missing {
            section: section@,
            field: field@,
        },
        ParseError::WrongType { field, expected_kind } => ErrView::Wrong {
            field: field@,
            expected: expected_kind@,
        },
        ParseError::MalformedOutput { name, reason } => ErrView::Malformed {
            name: name@,
            reason: reason@,
        },
    }
}

/// Builds a `MissingField` error.
fn missing_err(section: &str, field_name: &str) -> (e: ParseError)
    ensures
        err_view(e) == (ErrView::Missing { section: section@, field: field_name@ }),
{
    ParseError::MissingField {
        section: String::from_str(section),
        field: String::from_str(field_name),
    }
}

/// Builds a `WrongType` error.
fn wrong_err(field_name: &str, expected: &str) -> (e: ParseError)
    ensures
        err_view(e) == (ErrView::Wrong { field: field_name@, expected: expected@ }),
{
    ParseError::WrongType {
        field: String::from_str(field_name),
        expected_kind: String::from_str(expected),
    }
}

/// One resource record: its identifying strings and its configured values,
/// each value canonicalized to a flat string. `root` records whether the
/// resource came from the root module rather than a child module.
#[derive(Debug, Clone)]
pub struct Node {
    pub address: String,
    pub node_type: String,
    pub name: String,
    pub provider: String,
    pub mode: String,
    pub values: Vec<(String, String)>,
    pub root: bool,
}

/// One directed dependency edge, from the declaring resource's address to one
/// entry of its `depends_on` list. The target need not name an emitted node.
#[derive(Debug, Clone)]
pub struct Link {
    pub source_addr: String,
    pub target_addr: String,
}

/// One named output value. When `sensitive` is true, `value` is the fixed
/// redaction literal, never the declared value.
#[derive(Debug, Clone)]
pub struct Output {
    pub name: String,
    pub value: String,
    pub sensitive: bool,
}

/// The assembled result: resource nodes, dependency links, output values, in
/// the order the input declared them.
#[derive(Debug, Clone)]
pub struct Graph {
    pub nodes: Vec<Node>,
    pub links: Vec<Link>,
    pub outputs: Vec<Output>,
}

/// The characters of the string field `key` of `r`, when `r` is an object
/// whose `key` entry is a string.
pub open spec fn str_field(r: Json, key: Seq<char>) -> Option<Seq<char>> {
    match field(r, key) {
        Some(Json::Str(s)) => Some(s@),
        _ => None,
    }
}

/// Whether one resource record satisfies the schema: an object with string
/// fields `address`, `type`, `name`, `provider_name` and `mode`, and an
/// object field `values`.
pub open spec fn resource_valid(r: Json) -> bool {
    &&& r is Obj
    &&& field(r, "address"@) matches Some(Json::Str(_))
    &&& field(r, "type"@) matches Some(Json::Str(_))
    &&& field(r, "name"@) matches Some(Json::Str(_))
    &&& field(r, "provider_name"@) matches Some(Json::Str(_))
    &&& field(r, "mode"@) matches Some(Json::Str(_))
    &&& field(r, "values"@) matches Some(Json::Obj(_))
}

/// The error an invalid resource is rejected with: the first failure, the
/// fields checked in schema order.
pub open spec fn resource_error(r: Json) -> ErrView {
    if !(r is Obj) {
        ErrView::Wrong { field: "resource"@, expected: "object"@ }
    } else if field(r, "address"@) is None {
        ErrView::Missing { section: "resource"@, field: "address"@ }
    } else if !(field(r, "address"@) matches Some(Json::Str(_))) {
        ErrView::Wrong { field: "address"@, expected: "string"@ }
    } else if field(r, "type"@) is None {
        ErrView::Missing { section: "resource"@, field: "type"@ }
    } else if !(field(r, "type"@) matches Some(Json::Str(_))) {
        ErrView::Wrong { field: "type"@, expected: "string"@ }
    } else if field(r, "name"@) is None {
        ErrView::Missing { section: "resource"@, field: "name"@ }
    } else if !(field(r, "name"@) matches Some(Json::Str(_))) {
        ErrView::Wrong { field: "name"@, expected: "string"@ }
    } else if field(r, "provider_name"@) is None {
        ErrView::Missing { section: "resource"@, field: "provider_name"@ }
    } else if !(field(r, "provider_name"@) matches Some(Json::Str(_))) {
        ErrView::Wrong { field: "provider_name"@, expected: "string"@ }
    } else if field(r, "mode"@) is None {
        ErrView::Missing { section: "resource"@, field: "mode"@ }
    } else if !(field(r, "mode"@) matches Some(Json::Str(_))) {
        ErrView::Wrong { field: "mode"@, expected: "string"@ }
    } else if field(r, "values"@) is None {
        ErrView::Missing { section: "resource"@, field: "values"@ }
    } else {
        ErrView::Wrong { field: "values"@, expected: "object"@ }
    }
}

/// How an extracted node relates to its resource record: every string field
/// taken verbatim, every entry of `values` canonicalized, in entry order.
pub open spec fn node_matches(n: Node, r: Json, is_root: bool) -> bool {
    &&& str_field(r, "address"@) == Some(n.address@)
    &&& str_field(r, "type"@) == Some(n.node_type@)
    &&& str_field(r, "name"@) == Some(n.name@)
    &&& str_field(r, "provider_name"@) == Some(n.provider@)
    &&& str_field(r, "mode"@) == Some(n.mode@)
    &&& match field(r, "values"@) {
        Some(Json::Obj(es)) => pair_views(n.values@) == canon_pairs(es@),
        _ => false,
    }
    &&& n.root == is_root
}

/// Extracts the string field `key`, or reports it missing from `section` or
/// not a string.
fn req_string_field(r: &Json, key: &str, section: &str) -> (res: Result<String, ParseError>)
    ensures
        res is Ok <==> str_field(*r, key@) is Some,
        res matches Ok(s) ==> str_field(*r, key@) == Some(s@),
        res matches Err(e) ==> err_view(e) == (if field(*r, key@) is None {
            ErrView::Missing { section: section@, field: key@ }
        } else {
            ErrView::Wrong { field: key@, expected: "string"@ }
        }),
{
    match r.get(key) {
        None => Err(missing_err(section, key)),
        Some(Json::Str(s)) => Ok(s.clone()),
        Some(_) => Err(wrong_err(key, "string")),
    }
}

impl Node {
    /// Extracts one resource record, canonicalizing every configured value;
    /// fails on the first absent or ill-kinded field.
    #[verifier::loop_isolation(false)]
    pub fn new(resource: &Json, is_root: bool) -> (r: Result<Node, ParseError>)
        ensures
            r is Ok <==> resource_valid(*resource),
            r matches Ok(n) ==> node_matches(n, *resource, is_root),
            r matches Err(e) ==> err_view(e) == resource_error(*resource),
    {
        match resource {
            Json::Obj(_) => (),
            _ => {
                return Err(wrong_err("resource", "object"));
            },
        }
        let address = match req_string_field(resource, "address", "resource") {
            Ok(s) => s,
            Err(e) => {
                return Err(e);
            },
        };
        let node_type = match req_string_field(resource, "type", "resource") {
            Ok(s) => s,
            Err(e) => {
                return Err(e);
            },
        };
        let name = match req_string_field(resource, "name", "resource") {
            Ok(s) => s,
            Err(e) => {
                return Err(e);
            },
        };
        let provider = match req_string_field(resource, "provider_name", "resource") {
            Ok(s) => s,
            Err(e) => {
                return Err(e);
            },
        };
        let mode = match req_string_field(resource, "mode", "resource") {
            Ok(s) => s,
            Err(e) => {
                return Err(e);
            },
        };
        let ventries = match resource.get("values") {
            None => {
                return Err(missing_err("resource", "values"));
            },
            Some(Json::Obj(es)) => es,
            Some(_) => {
                return Err(wrong_err("values", "object"));
            },
        };
        let n = ventries.len();
        let mut values: Vec<(String, String)> = Vec::new();
        let mut i: usize = 0;
        while i < n
            invariant
                n == ventries.len(),
                0 <= i <= n,
                pair_views(values@) == canon_pairs(ventries@.subrange(0, i as int)),
            decreases n - i,
        {
            let rendered = canonicalize(&ventries[i].1);
            values.push((ventries[i].0.clone(), rendered));
            proof {
                let prefix = ventries@.subrange(0, i + 1 as int);
                assert(prefix.drop_last() =~= ventries@.subrange(0, i as int));
                assert(prefix.last() == ventries@[i as int]);
                assert(pair_views(values@) =~= canon_pairs(prefix));
            }
            i = i + 1;
        }
        proof {
            assert(ventries@.subrange(0, n as int) =~= ventries@);
        }
        Ok(Node { address, node_type, name, provider, mode, values, root: is_root })
    }
}

impl Link {
    /// Builds one dependency edge.
    pub fn new(source_addr: String, target_addr: String) -> (l: Link)
        ensures
            l.source_addr == source_addr,
            l.target_addr == target_addr,
    {
        Link { source_addr, target_addr }
    }
}

/// Whether one output declaration satisfies the schema: an object with a
/// boolean `sensitive`, and — unless sensitive — a `value` of any JSON kind.
pub open spec fn output_valid(out: Json) -> bool {
    &&& out is Obj
    &&& match field(out, "sensitive"@) {
        Some(Json::Bool(b)) => b || field(out, "value"@) is Some,
        _ => false,
    }
}

/// The error an invalid output named `name` is rejected with.
pub open spec fn output_error(name: Seq<char>, out: Json) -> ErrView {
    if !(out is Obj) {
        ErrView::Malformed { name, reason: "not an object"@ }
    } else if field(out, "sensitive"@) is None {
        ErrView::Missing { section: name, field: "sensitive"@ }
    } else if !(field(out, "sensitive"@) matches Some(Json::Bool(_))) {
        ErrView::Wrong { field: "sensitive"@, expected: "bool"@ }
    } else {
        ErrView::Missing { section: name, field: "value"@ }
    }
}

/// How an extracted output relates to its declaration: a sensitive output
/// carries exactly the redaction literal, whatever the declared value was or
/// whether there was one; a non-sensitive output carries its declared value
/// canonicalized, whatever its JSON kind.
pub open spec fn output_matches(o: Output, name: Seq<char>, out: Json) -> bool {
    &&& o.name@ == name
    &&& field(out, "sensitive"@) == Some(Json::Bool(o.sensitive))
    &&& o.sensitive ==> o.value@ == "<sensitive>"@
    &&& !o.sensitive ==> match field(out, "value"@) {
        Some(v) => o.value@ == canon(v),
        None => false,
    }
}

impl Output {
    /// Extracts one named output, applying sensitivity redaction: a sensitive
    /// output's declared value is never read.
    pub fn new(name: String, output: &Json) -> (r: Result<Output, ParseError>)
        ensures
            r is Ok <==> output_valid(*output),
            r matches Ok(o) ==> output_matches(o, name@, *output),
            r matches Err(e) ==> err_view(e) == output_error(name@, *output),
    {
        match output {
            Json::Obj(_) => (),
            _ => {
                return Err(
                    ParseError::MalformedOutput { name, reason: String::from_str("not an object") },
                );
            },
        }
        let sensitive = match output.get("sensitive") {
            None => {
                return Err(
                    ParseError::MissingField { section: name, field: String::from_str("sensitive") },
                );
            },
            Some(Json::Bool(b)) => *b,
            Some(_) => {
                return Err(wrong_err("sensitive", "bool"));
            },
        };
        let value = if sensitive {
            String::from_str("<sensitive>")
        } else {
            match output.get("value") {
                None => {
                    return Err(
                        ParseError::MissingField { section: name, field: String::from_str("value") },
                    );
                },
                Some(v) => canonicalize(v),
            }
        };
        Ok(Output { name, value, sensitive })
    }
}

} // verus!
