//! The guards: predicates on one located value and a guard's parameters.
//!
//! A guard always gives an answer: a value of the wrong kind gives `false`,
//! and a parameter that is missing or malformed gives its default.

use crate::json::{number_at_most, number_le, Json, JsonView, Number};
use crate::outside::{regex_compiles, regex_is_match, regex_matches};
use crate::text::{eq_ignoring_ascii_case, str_eq, str_eq_ignore_ascii_case};
use vstd::prelude::*;

verus! {

/// The guards a rule can name.
#[derive(Clone, Copy, Debug, PartialEq, Eq)]
pub enum Guard {
    PatternMatch,
    AllowedValues,
    Exists,
    Range,
    Count,
    StringLength,
    /// Any other name: such a guard passes every value.
    Unknown,
}

impl Guard {
    /// The guard that `name` stands for. Names are case-sensitive.
    pub open spec fn named(name: Seq<char>) -> Guard {
        if name == "PatternMatch"@ {
            Guard::PatternMatch
        } else if name == "AllowedValues"@ {
            Guard::AllowedValues
        } else if name == "Exists"@ {
            Guard::Exists
        } else if name == "Range"@ {
            Guard::Range
        } else if name == "Count"@ {
            Guard::Count
        } else if name == "StringLength"@ {
            Guard::StringLength
        } else {
            Guard::Unknown
        }
    }

    /// The guard that `name` stands for.
    pub fn parse(name: &str) -> (g: Guard)
        ensures
            g == Guard::named(name@),
    {
        if str_eq(name, "PatternMatch") {
            Guard::PatternMatch
        } else if str_eq(name, "AllowedValues") {
            Guard::AllowedValues
        } else if str_eq(name, "Exists") {
            Guard::Exists
        } else if str_eq(name, "Range") {
            Guard::Range
        } else if str_eq(name, "Count") {
            Guard::Count
        } else if str_eq(name, "StringLength") {
            Guard::StringLength
        } else {
            Guard::Unknown
        }
    }
}

/// The boolean parameter `key`, or `default` where it is missing or no
/// boolean.
pub open spec fn bool_param(params: JsonView, key: Seq<char>, default: bool) -> bool {
    match params.get(key) {
        Some(JsonView::Bool(b)) => b,
        _ => default,
    }
}

/// The string parameter `key`, where there is one.
pub open spec fn str_param(params: JsonView, key: Seq<char>) -> Option<Seq<char>> {
    match params.get(key) {
        Some(value) => value.as_str(),
        None => None,
    }
}

/// The parameter `key` as an unsigned integer, where it is one.
pub open spec fn unsigned_param(params: JsonView, key: Seq<char>) -> Option<u64> {
    match params.get(key) {
        Some(value) => value.as_unsigned(),
        None => None,
    }
}

/// The numeric parameter `key`, where there is one.
pub open spec fn number_param(params: JsonView, key: Seq<char>) -> Option<Number> {
    match params.get(key) {
        Some(value) => value.as_number(),
        None => None,
    }
}

/// The list parameter `key`, where there is one.
pub open spec fn list_param(params: JsonView, key: Seq<char>) -> Option<Seq<JsonView>> {
    match params.get(key) {
        Some(value) => value.as_array(),
        None => None,
    }
}

/// `min <= n <= max`, an absent bound leaving its side open.
pub open spec fn within_bounds(n: nat, min: Option<u64>, max: Option<u64>) -> bool {
    &&& min matches Some(m) ==> n >= m
    &&& max matches Some(m) ==> n <= m
}

/// What `PatternMatch` decides: the value is a string, `regex` is a pattern
/// that compiles, and the pattern matches, or with `negative` does not.
pub open spec fn pattern_match_holds(node: JsonView, params: JsonView) -> bool {
    match (node, str_param(params, "regex"@)) {
        (JsonView::String(text), Some(pattern)) => {
            &&& regex_compiles(pattern)
            &&& regex_matches(pattern, text) != bool_param(params, "negative"@, false)
        },
        _ => false,
    }
}

/// Whether a list entry is the string `text`, exactly or up to ASCII case.
pub open spec fn entry_is(entry: JsonView, text: Seq<char>, case_sensitive: bool) -> bool {
    match entry {
        JsonView::String(s) => if case_sensitive {
            s == text
        } else {
            eq_ignoring_ascii_case(s, text)
        },
        _ => false,
    }
}

/// Whether some entry of `values` is the string `text`.
pub open spec fn listed(values: Seq<JsonView>, text: Seq<char>, case_sensitive: bool) -> bool {
    exists|i: int| 0 <= i < values.len() && entry_is(#[trigger] values[i], text, case_sensitive)
}

/// What `AllowedValues` decides: the value is a string, `values` is a list,
/// and the string is listed; under mode `Deny`, is not listed.
pub open spec fn allowed_values_holds(node: JsonView, params: JsonView) -> bool {
    match (node, list_param(params, "values"@)) {
        (JsonView::String(text), Some(values)) => {
            let found = listed(values, text, bool_param(params, "case_sensitive"@, true));
            if str_param(params, "mode"@) == Some("Deny"@) {
                !found
            } else {
                found
            }
        },
        _ => false,
    }
}

/// What `Exists` decides: the value is not null; with `should_exist` false,
/// it is null.
pub open spec fn exists_holds(node: JsonView, params: JsonView) -> bool {
    if bool_param(params, "should_exist"@, true) {
        !(node is Null)
    } else {
        node is Null
    }
}

/// What `Range` decides: the value is a number, and `min <= value <= max`
/// for each bound that is a number. A bound that is missing or no number
/// leaves its side open.
pub open spec fn range_holds(node: JsonView, params: JsonView) -> bool {
    match node {
        JsonView::Number(value) => {
            &&& number_param(params, "min"@) matches Some(min) ==> number_le(min, value)
            &&& number_param(params, "max"@) matches Some(max) ==> number_le(value, max)
        },
        _ => false,
    }
}

/// What `Count` decides: the value is an array and the number of its
/// elements lies within the bounds that are given.
pub open spec fn count_holds(node: JsonView, params: JsonView) -> bool {
    match node {
        JsonView::Array(items) => within_bounds(
            items.len(),
            unsigned_param(params, "min"@),
            unsigned_param(params, "max"@),
        ),
        _ => false,
    }
}

/// What `StringLength` decides: the value is a string and the number of its
/// Unicode scalar values lies within the bounds that are given.
pub open spec fn string_length_holds(node: JsonView, params: JsonView) -> bool {
    match node {
        JsonView::String(text) => within_bounds(
            text.len(),
            unsigned_param(params, "min"@),
            unsigned_param(params, "max"@),
        ),
        _ => false,
    }
}

/// What guard `guard` decides of `node` under `params`. An unknown guard
/// passes every value.
pub open spec fn guard_holds(guard: Guard, node: JsonView, params: JsonView) -> bool {
    match guard {
        Guard::PatternMatch => pattern_match_holds(node, params),
        Guard::AllowedValues => allowed_values_holds(node, params),
        Guard::Exists => exists_holds(node, params),
        Guard::Range => range_holds(node, params),
        Guard::Count => count_holds(node, params),
        Guard::StringLength => string_length_holds(node, params),
        Guard::Unknown => true,
    }
}

fn bool_param_of(params: &Json, key: &str, default: bool) -> (r: bool)
    ensures
        r == bool_param(params@, key@, default),
{
    match params.get(key) {
        Some(value) => match value.as_bool() {
            Some(b) => b,
            None => default,
        },
        None => default,
    }
}

fn str_param_of<'a>(params: &'a Json, key: &str) -> (r: Option<&'a str>)
    ensures
        match r {
            Some(s) => str_param(params@, key@) == Some(s@),
            None => str_param(params@, key@) is None,
        },
{
    match params.get(key) {
        Some(value) => value.as_str(),
        None => None,
    }
}

fn unsigned_param_of(params: &Json, key: &str) -> (r: Option<u64>)
    ensures
        r == unsigned_param(params@, key@),
{
    match params.get(key) {
        Some(value) => value.as_unsigned(),
        None => None,
    }
}

fn number_param_of(params: &Json, key: &str) -> (r: Option<Number>)
    ensures
        r == number_param(params@, key@),
{
    match params.get(key) {
        Some(value) => value.as_number(),
        None => None,
    }
}

fn within_bounds_of(n: usize, min: Option<u64>, max: Option<u64>) -> (r: bool)
    ensures
        r == within_bounds(n as nat, min, max),
{
    let min_ok = match min {
        Some(m) => n as u64 >= m,
        None => true,
    };
    let max_ok = match max {
        Some(m) => n as u64 <= m,
        None => true,
    };
    min_ok && max_ok
}

/// What `PatternMatch` makes of a match attempt: `matched` is `None` where
/// the pattern did not compile, which fails; else it says whether the
/// pattern matched, and `negative` inverts that.
pub fn pattern_verdict(matched: Option<bool>, negative: bool) -> (r: bool)
    ensures
        r == (matched matches Some(found) && found != negative),
{
    match matched {
        Some(found) => found != negative,
        None => false,
    }
}

/// The `PatternMatch` guard.
pub fn check_pattern_match(node: &Json, params: &Json) -> (r: bool)
    ensures
        r == pattern_match_holds(node@, params@),
        !(node@ is String) ==> !r,
{
    let negative = bool_param_of(params, "negative", false);
    match (node.as_str(), str_param_of(params, "regex")) {
        (Some(text), Some(pattern)) => {
            let matched = match regex_is_match(pattern, text) {
                Ok(found) => Some(found),
                Err(_) => None,
            };
            pattern_verdict(matched, negative)
        },
        _ => false,
    }
}

/// The `AllowedValues` guard.
pub fn check_allowed_values(node: &Json, params: &Json) -> (r: bool)
    ensures
        r == allowed_values_holds(node@, params@),
        !(node@ is String) ==> !r,
{
    let values = match params.get("values") {
        Some(value) => value.as_array(),
        None => None,
    };
    let deny = match str_param_of(params, "mode") {
        Some(mode) => str_eq(mode, "Deny"),
        None => false,
    };
    let case_sensitive = bool_param_of(params, "case_sensitive", true);
    match (node.as_str(), values) {
        (Some(text), Some(list)) => {
            let ghost entries = crate::json::json_views(list@);
            proof {
                crate::json::lemma_json_views(list@);
            }
            let mut found = false;
            let mut i: usize = 0;
            while i < list.len() && !found
                invariant
                    i <= list.len(),
                    entries.len() == list@.len(),
                    forall|j: int| 0 <= j < list@.len() ==> (#[trigger] entries[j]) == list@[j]@,
                    found ==> listed(entries, text@, case_sensitive),
                    !found ==> forall|j: int|
                        0 <= j < i ==> !entry_is(#[trigger] entries[j], text@, case_sensitive),
                decreases list.len() - i + (if found { 0int } else { 1int }),
            {
                let hit = match list[i].as_str() {
                    Some(s) => if case_sensitive {
                        str_eq(s, text)
                    } else {
                        str_eq_ignore_ascii_case(s, text)
                    },
                    None => false,
                };
                assert(hit == entry_is(entries[i as int], text@, case_sensitive));
                if hit {
                    found = true;
                } else {
                    i += 1;
                }
            }
            if deny {
                !found
            } else {
                found
            }
        },
        _ => false,
    }
}

/// The `Exists` guard.
pub fn check_exists(node: &Json, params: &Json) -> (r: bool)
    ensures
        r == exists_holds(node@, params@),
{
    let should_exist = bool_param_of(params, "should_exist", true);
    if should_exist {
        !node.is_null()
    } else {
        node.is_null()
    }
}

/// The `Range` guard.
pub fn check_range(node: &Json, params: &Json) -> (r: bool)
    ensures
        r == range_holds(node@, params@),
        !(node@ is Number) ==> !r,
{
    let min = number_param_of(params, "min");
    let max = number_param_of(params, "max");
    match node.as_number() {
        Some(value) => {
            let min_ok = match min {
                Some(m) => number_at_most(&m, &value),
                None => true,
            };
            let max_ok = match max {
                Some(m) => number_at_most(&value, &m),
                None => true,
            };
            min_ok && max_ok
        },
        None => false,
    }
}

/// The `Count` guard.
pub fn check_count(node: &Json, params: &Json) -> (r: bool)
    ensures
        r == count_holds(node@, params@),
        !(node@ is Array) ==> !r,
{
    let min = unsigned_param_of(params, "min");
    let max = unsigned_param_of(params, "max");
    match node.as_array() {
        Some(items) => {
            proof {
                crate::json::lemma_json_views(items@);
            }
            within_bounds_of(items.len(), min, max)
        },
        None => false,
    }
}

/// The `StringLength` guard.
pub fn check_string_length(node: &Json, params: &Json) -> (r: bool)
    ensures
        r == string_length_holds(node@, params@),
        !(node@ is String) ==> !r,
{
    let min = unsigned_param_of(params, "min");
    let max = unsigned_param_of(params, "max");
    match node.as_str() {
        Some(text) => within_bounds_of(text.unicode_len(), min, max),
        None => false,
    }
}

/// Checks `node` with `guard`.
pub fn check_by(guard: Guard, node: &Json, params: &Json) -> (r: bool)
    ensures
        r == guard_holds(guard, node@, params@),
{
    match guard {
        Guard::PatternMatch => check_pattern_match(node, params),
        Guard::AllowedValues => check_allowed_values(node, params),
        Guard::Exists => check_exists(node, params),
        Guard::Range => check_range(node, params),
        Guard::Count => check_count(node, params),
        Guard::StringLength => check_string_length(node, params),
        Guard::Unknown => true,
    }
}

/// Checks `node` with the guard that `guard` names. A name that stands for
/// no guard passes every value.
pub fn check_guard(node: &Json, guard: &str, params: &Json) -> (r: bool)
    ensures
        r == guard_holds(Guard::named(guard@), node@, params@),
{
    check_by(Guard::parse(guard), node, params)
}

} // verus!
