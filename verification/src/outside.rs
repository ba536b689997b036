//! The trusted boundary: everything this library takes from `serde_json`,
//! `serde_json_path` and `regex`.
//!
//! Verus believes the contracts in this module without proof. Each item says
//! which outside function it stands for and what it claims of it.

use crate::json::{Json, JsonView, Number};
use vstd::prelude::*;

verus! {

/// `serde_json::Value`: a JSON value as the outside crates hold it. Opaque
/// here; `value_json` names what it holds.
#[verifier::external_type_specification]
#[verifier::external_body]
pub struct ExValue(serde_json::Value);

/// `regex::Error`: why a text is no regular expression. Carried, never read.
#[verifier::external_type_specification]
#[verifier::external_body]
pub struct ExRegexError(regex::Error);

/// What a `serde_json::Value` holds: its kind, its scalar or its children in
/// order, an object's members in the order in which the map walks them, and
/// of a number what `as_u64`, `as_i64` and `as_f64` give.
pub uninterp spec fn value_json(v: serde_json::Value) -> JsonView;

/// The compact JSON text that `serde_json` writes for a value.
pub uninterp spec fn json_text(v: JsonView) -> Seq<char>;

/// The JSON value that `serde_json` parses from `bytes`, where they hold one
/// document and nothing else.
pub uninterp spec fn parsed_json(bytes: Seq<u8>) -> Option<JsonView>;

/// What `serde_json`'s error says of `bytes` that hold no JSON document.
pub uninterp spec fn json_error_text(bytes: Seq<u8>) -> Seq<char>;

/// What `serde_json_path`'s error says of a `target` that is no JSONPath
/// expression.
pub uninterp spec fn path_error_text(target: Seq<char>) -> Seq<char>;

/// Whether `serde_json_path` accepts `target` as a JSONPath expression.
pub uninterp spec fn path_parses(target: Seq<char>) -> bool;

/// The values that the JSONPath expression `target` selects in `root`, in the
/// order in which `serde_json_path` yields them.
pub uninterp spec fn path_nodes(target: Seq<char>, root: JsonView) -> Seq<JsonView>;

/// Whether `regex` accepts `pattern` as a regular expression.
pub uninterp spec fn regex_compiles(pattern: Seq<char>) -> bool;

/// Whether the regular expression `pattern` matches somewhere in `text`.
pub uninterp spec fn regex_matches(pattern: Seq<char>, text: Seq<char>) -> bool;

/// What each of a sequence of borrowed outside values holds.
pub open spec fn values_json(nodes: Seq<&serde_json::Value>) -> Seq<JsonView> {
    Seq::new(nodes.len(), |i: int| value_json(*nodes[i]))
}

/// One level of a `serde_json::Value`: its kind, with its scalar or with its
/// children as the outside crate holds them.
pub(crate) enum Shape<'a> {
    Null,
    Bool(bool),
    Number(Number),
    String(&'a String),
    Array(&'a Vec<serde_json::Value>),
    Object(Vec<(&'a String, &'a serde_json::Value)>),
}

/// What the children of an outside array hold.
pub(crate) open spec fn items_json(items: Seq<serde_json::Value>) -> Seq<JsonView> {
    Seq::new(items.len(), |i: int| value_json(items[i]))
}

/// The names of an outside object's members and what they hold.
pub(crate) open spec fn members_json(members: Seq<(&String, &serde_json::Value)>) -> Seq<
    (Seq<char>, JsonView),
> {
    Seq::new(members.len(), |i: int| (members[i].0@, value_json(*members[i].1)))
}

/// What an outside value holds, given one level of it.
pub(crate) open spec fn shape_json(shape: Shape) -> JsonView {
    match shape {
        Shape::Null => JsonView::Null,
        Shape::Bool(b) => JsonView::Bool(b),
        Shape::Number(n) => JsonView::Number(n),
        Shape::String(s) => JsonView::String(s@),
        Shape::Array(items) => JsonView::Array(items_json(items@)),
        Shape::Object(members) => JsonView::Object(members_json(members@)),
    }
}

/// Tells the variants of a `serde_json::Value` apart and hands out what the
/// variant holds: a number by `Number::as_u64`, `as_i64` and the bits of
/// `as_f64`, an object's members in the order of `Map::iter`. This is what
/// `value_json` names, one level at a time.
#[verifier::external_body]
pub(crate) fn shape_of<'a>(v: &'a serde_json::Value) -> (shape: Shape<'a>)
    ensures
        shape_json(shape) == value_json(*v),
{
    match v {
        serde_json::Value::Null => Shape::Null,
        serde_json::Value::Bool(b) => Shape::Bool(*b),
        serde_json::Value::Number(n) => Shape::Number(
            Number { unsigned: n.as_u64(), signed: n.as_i64(), float_bits: n.as_f64().map(|f| f.to_bits()) },
        ),
        serde_json::Value::String(s) => Shape::String(s),
        serde_json::Value::Array(items) => Shape::Array(items),
        serde_json::Value::Object(map) => Shape::Object(map.iter().collect()),
    }
}

/// Copies an outside value into a [`Json`], level by level.
pub(crate) fn read_value(v: &serde_json::Value) -> (j: Json)
    ensures
        j@ == value_json(*v),
    decreases value_json(*v),
{
    match shape_of(v) {
        Shape::Null => Json::Null,
        Shape::Bool(b) => Json::Bool(b),
        Shape::Number(n) => Json::Number(n),
        Shape::String(s) => Json::String(s.clone()),
        Shape::Array(items) => {
            let ghost held = items_json(items@);
            let mut read: Vec<Json> = Vec::new();
            let mut i: usize = 0;
            while i < items.len()
                invariant
                    i <= items.len(),
                    value_json(*v) == JsonView::Array(held),
                    held == items_json(items@),
                    read@.len() == i,
                    forall|k: int| 0 <= k < i ==> (#[trigger] read@[k])@ == held[k],
                decreases items.len() - i,
            {
                assert(held[i as int] == value_json(items@[i as int]));
                assert(value_json(*v)->Array_0 == held);
                assert(decreases_to!(value_json(*v) => value_json(*v)->Array_0));
                assert(decreases_to!(held => held[i as int]));
                read.push(read_value(&items[i]));
                i += 1;
            }
            proof {
                crate::json::lemma_json_views(read@);
                assert(crate::json::json_views(read@) =~= held);
            }
            Json::Array(read)
        },
        Shape::Object(members) => {
            let ghost held = members_json(members@);
            let mut read: Vec<(String, Json)> = Vec::new();
            let mut i: usize = 0;
            while i < members.len()
                invariant
                    i <= members.len(),
                    value_json(*v) == JsonView::Object(held),
                    held == members_json(members@),
                    read@.len() == i,
                    forall|k: int|
                        0 <= k < i ==> ((#[trigger] read@[k]).0@, read@[k].1@) == held[k],
                decreases members.len() - i,
            {
                assert(held[i as int] == (members@[i as int].0@, value_json(*members@[i as int].1)));
                assert(value_json(*v)->Object_0 == held);
                assert(decreases_to!(value_json(*v) => value_json(*v)->Object_0));
                assert(decreases_to!(held => held[i as int]));
                assert(decreases_to!(held[i as int] => held[i as int].1));
                let value = read_value(members[i].1);
                read.push((members[i].0.clone(), value));
                i += 1;
            }
            proof {
                crate::json::lemma_member_views(read@);
                assert(crate::json::member_views(read@) =~= held);
            }
            Json::Object(read)
        },
    }
}

/// `Value::to_string`, that is `serde_json`'s `Display` for a value: the
/// compact JSON text, which depends on what the value holds alone.
#[verifier::external_body]
pub(crate) fn value_text(v: &serde_json::Value) -> (s: String)
    ensures
        s@ == json_text(value_json(*v)),
{
    v.to_string()
}

/// `serde_json::from_slice` to a `Value`: succeeds exactly on the texts that
/// `parsed_json` names a value for, and gives that value; else gives what
/// the error's `Display` writes.
#[verifier::external_body]
pub(crate) fn parse_json(bytes: &[u8]) -> (r: Result<serde_json::Value, String>)
    ensures
        r is Ok == parsed_json(bytes@) is Some,
        r matches Ok(v) ==> parsed_json(bytes@) == Some(value_json(v)),
        r matches Err(message) ==> message@ == json_error_text(bytes@),
{
    match serde_json::from_slice(bytes) {
        Ok(value) => Ok(value),
        Err(error) => Err(error.to_string()),
    }
}

/// `JsonPath::parse` followed by `JsonPath::query`: fails exactly where the
/// expression does not parse, with what the error's `Display` writes; else
/// gives the located values, borrowed from `root`, in the order of the
/// query's node list.
#[verifier::external_body]
pub(crate) fn query_path<'a>(target: &str, root: &'a serde_json::Value) -> (r: Result<
    Vec<&'a serde_json::Value>,
    String,
>)
    ensures
        r is Ok == path_parses(target@),
        r matches Ok(nodes) ==> values_json(nodes@) == path_nodes(target@, value_json(*root)),
        r matches Err(message) ==> message@ == path_error_text(target@),
{
    match serde_json_path::JsonPath::parse(target) {
        Ok(path) => Ok(path.query(root).all()),
        Err(error) => Err(error.to_string()),
    }
}

/// `Regex::new` followed by `Regex::is_match`: fails exactly where the
/// pattern does not compile, and else says whether it matches in `text`.
#[verifier::external_body]
pub(crate) fn regex_is_match(pattern: &str, text: &str) -> (r: Result<bool, regex::Error>)
    ensures
        r is Ok == regex_compiles(pattern@),
        r matches Ok(found) ==> found == regex_matches(pattern@, text@),
{
    Ok(regex::Regex::new(pattern)?.is_match(text))
}

} // verus!
