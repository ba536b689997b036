use adf_guardian::config::{AssetMatcher, Rule, Severity, Validation};
use adf_guardian::engine::{
    check_rule, evaluate_condition, evaluate_rule, format_actual_value, matches_asset_type,
    matches_folder, Diagnostic,
};
use serde_json::{Number, Value};

fn object(members: Vec<(&str, Value)>) -> Value {
    let mut map = serde_json::Map::new();
    for (key, value) in members {
        map.insert(key.to_string(), value);
    }
    Value::Object(map)
}

fn text(s: &str) -> Value {
    Value::String(s.to_string())
}

fn number(n: u64) -> Value {
    Value::Number(Number::from(n))
}

fn naming_rule(id: &str, with_precondition: bool) -> Rule {
    Rule {
        id: id.to_string(),
        asset: AssetMatcher::Single("pipeline".to_string()),
        description: None,
        severity: Severity::Error,
        when: if with_precondition {
            Some(Validation {
                target: "$.properties.type".to_string(),
                guard: "AllowedValues".to_string(),
                params: object(vec![("values", Value::Array(vec![text("MappingDataFlow")]))]),
            })
        } else {
            None
        },
        validate: Validation {
            target: "$.name".to_string(),
            guard: "PatternMatch".to_string(),
            params: object(vec![("regex", text("^pl_"))]),
        },
    }
}

fn typed_document(kind: &str, name: &str) -> Value {
    object(vec![("properties", object(vec![("type", text(kind))])), ("name", text(name))])
}

#[test]
fn test_check_rule_when_clause_met() {
    let rule = naming_rule("test-when-met", true);
    let json = typed_document("MappingDataFlow", "wrong_name");
    assert_eq!(check_rule(&rule, &json, "pipeline/test.json").len(), 1);
}

#[test]
fn test_check_rule_when_clause_not_met() {
    let rule = naming_rule("test-when-not-met", true);
    let json = typed_document("ExecutePipeline", "wrong_name");
    assert!(check_rule(&rule, &json, "pipeline/test.json").is_empty());
}

#[test]
fn test_check_rule_no_when_clause() {
    let rule = naming_rule("test-no-when", false);

    let json = object(vec![("name", text("wrong_name"))]);
    assert_eq!(check_rule(&rule, &json, "pipeline/test.json").len(), 1);

    let json_ok = object(vec![("name", text("pl_correct_name"))]);
    assert!(check_rule(&rule, &json_ok, "pipeline/test.json").is_empty());
}

#[test]
fn test_matches_asset_type() {
    let matcher = AssetMatcher::Single("pipeline".to_string());
    assert!(matches_asset_type(&matcher, "./pipeline/test.json"));
    assert!(!matches_asset_type(&matcher, "./dataset/test.json"));

    let matcher_list = AssetMatcher::List(vec!["pipeline".to_string(), "dataset".to_string()]);
    assert!(matches_asset_type(&matcher_list, "./pipeline/test.json"));
    assert!(matches_asset_type(&matcher_list, "./dataset/test.json"));
    assert!(!matches_asset_type(&matcher_list, "./trigger/test.json"));
}

#[test]
fn test_format_count_guard() {
    let value_empty = Value::Array(vec![]);
    let value_three = Value::Array(vec![number(1), number(2), number(3)]);
    assert_eq!(format_actual_value("Count", &value_empty), "0");
    assert_eq!(format_actual_value("Count", &value_three), "3");
}

#[test]
fn test_format_count_guard_with_non_array() {
    let value = text("not an array");
    assert_eq!(format_actual_value("Count", &value), "0");
}

#[test]
fn test_format_default_guards() {
    let value_str = text("a_string");
    let value_num = number(123);
    let value_obj = object(vec![("key", text("value"))]);

    assert_eq!(format_actual_value("PatternMatch", &value_str), "\"a_string\"");

    assert_eq!(format_actual_value("AllowedValues", &value_str), "\"a_string\"");

    assert_eq!(format_actual_value("UnknownGuard", &value_num), "123");
    assert_eq!(format_actual_value("Exists", &value_obj), "{\"key\":\"value\"}");
}

#[test]
fn format_count_of_a_long_array() {
    let items: Vec<Value> = (0..1234).map(number).collect();
    assert_eq!(format_actual_value("Count", &Value::Array(items)), "1234");
    let ten: Vec<Value> = (0..10).map(number).collect();
    assert_eq!(format_actual_value("Count", &Value::Array(ten)), "10");
    assert_eq!(format_actual_value("count", &Value::Array(vec![number(5)])), "[5]");
}

#[test]
fn format_writes_compact_json() {
    let value: Value =
        serde_json::from_str(r#" { "b" : [ 1 , -2 , 2.5 , null , true ] , "a" : "x\ny" } "#)
            .unwrap();
    assert_eq!(format_actual_value("Exists", &value), r#"{"a":"x\ny","b":[1,-2,2.5,null,true]}"#);
    assert_eq!(format_actual_value("Range", &Value::Null), "null");
}

#[test]
fn violation_carries_rule_and_value() {
    let mut rule = naming_rule("naming", true);
    rule.severity = Severity::Warning;
    let document = typed_document("MappingDataFlow", "wrong_name");
    let violations = check_rule(&rule, &document, "pipeline/test.json");
    assert_eq!(violations.len(), 1);
    let violation = &violations[0];
    assert_eq!(violation.rule_id, "naming");
    assert_eq!(violation.file, "pipeline/test.json");
    assert_eq!(violation.message, "Rule violation");
    assert_eq!(violation.severity, Severity::Warning);
    assert_eq!(violation.actual_value.as_deref(), Some("\"wrong_name\""));
}

#[test]
fn violation_message_is_the_description() {
    let mut rule = naming_rule("naming", false);
    rule.description = Some("Pipelines start with pl_".to_string());
    let document = object(vec![("name", text("wrong_name"))]);
    let violations = check_rule(&rule, &document, "pipeline/a.json");
    assert_eq!(violations.len(), 1);
    assert_eq!(violations[0].message, "Pipelines start with pl_");
    assert_eq!(violations[0].severity, Severity::Error);
}

#[test]
fn precondition_that_locates_nothing_skips_the_rule() {
    let mut rule = naming_rule("naming", true);
    let document = object(vec![("name", text("wrong_name"))]);
    assert!(check_rule(&rule, &document, "pipeline/test.json").is_empty());
    rule.when = Some(Validation {
        target: "$.missing".to_string(),
        guard: "NoSuchGuard".to_string(),
        params: Value::Null,
    });
    assert!(check_rule(&rule, &document, "pipeline/test.json").is_empty());
    rule.when = None;
    assert_eq!(check_rule(&rule, &document, "pipeline/test.json").len(), 1);
}

#[test]
fn precondition_needs_every_located_value_to_pass() {
    let check = Validation {
        target: "$.items[*].kind".to_string(),
        guard: "AllowedValues".to_string(),
        params: object(vec![("values", Value::Array(vec![text("a")]))]),
    };
    let all_pass: Value =
        serde_json::from_str(r#"{"items":[{"kind":"a"},{"kind":"a"}]}"#).unwrap();
    let one_fails: Value =
        serde_json::from_str(r#"{"items":[{"kind":"a"},{"kind":"b"}]}"#).unwrap();
    let none: Value = serde_json::from_str(r#"{"items":[]}"#).unwrap();
    assert!(evaluate_condition(&check, &all_pass));
    assert!(!evaluate_condition(&check, &one_fails));
    assert!(!evaluate_condition(&check, &none));
    let broken = Validation {
        target: "$[".to_string(),
        guard: "Exists".to_string(),
        params: Value::Null,
    };
    assert!(!evaluate_condition(&broken, &all_pass));
}

#[test]
fn one_violation_for_each_failing_value_in_order() {
    let rule = Rule {
        id: "sizes".to_string(),
        asset: AssetMatcher::Single("dataset".to_string()),
        description: None,
        severity: Severity::Error,
        when: None,
        validate: Validation {
            target: "$.sizes[*]".to_string(),
            guard: "Range".to_string(),
            params: object(vec![("min", number(10)), ("max", number(20))]),
        },
    };
    let document: Value =
        serde_json::from_str(r#"{"sizes":[9, 10, 25, 20, "x", 10.5, 20.5]}"#).unwrap();
    let violations = check_rule(&rule, &document, "dataset/d.json");
    let values: Vec<&str> =
        violations.iter().map(|v| v.actual_value.as_deref().unwrap()).collect();
    assert_eq!(values, vec!["9", "25", "\"x\"", "20.5"]);
}

#[test]
fn count_violation_shows_the_number_of_elements() {
    let rule = Rule {
        id: "activities".to_string(),
        asset: AssetMatcher::Single("pipeline".to_string()),
        description: None,
        severity: Severity::Error,
        when: None,
        validate: Validation {
            target: "$.activities".to_string(),
            guard: "Count".to_string(),
            params: object(vec![("max", number(2))]),
        },
    };
    let document: Value = serde_json::from_str(r#"{"activities":[1,2,3]}"#).unwrap();
    let violations = check_rule(&rule, &document, "pipeline/p.json");
    assert_eq!(violations.len(), 1);
    assert_eq!(violations[0].actual_value.as_deref(), Some("3"));
    let not_a_list: Value = serde_json::from_str(r#"{"activities":"none"}"#).unwrap();
    let violations = check_rule(&rule, &not_a_list, "pipeline/p.json");
    assert_eq!(violations.len(), 1);
    assert_eq!(violations[0].actual_value.as_deref(), Some("0"));
}

#[test]
fn main_check_that_locates_nothing_raises_nothing() {
    let rule = naming_rule("naming", false);
    let document = object(vec![("title", text("wrong_name"))]);
    assert!(check_rule(&rule, &document, "pipeline/test.json").is_empty());
}

#[test]
fn exists_guard_fails_on_null() {
    let rule = Rule {
        id: "owner".to_string(),
        asset: AssetMatcher::Single("pipeline".to_string()),
        description: None,
        severity: Severity::Error,
        when: None,
        validate: Validation {
            target: "$.owner".to_string(),
            guard: "Exists".to_string(),
            params: Value::Null,
        },
    };
    let document: Value = serde_json::from_str(r#"{"owner":null}"#).unwrap();
    let violations = check_rule(&rule, &document, "pipeline/p.json");
    assert_eq!(violations.len(), 1);
    assert_eq!(violations[0].actual_value.as_deref(), Some("null"));
}

#[test]
fn invalid_target_skips_the_rule_with_a_diagnostic() {
    let mut rule = naming_rule("naming", false);
    rule.validate.target = "$.name[".to_string();
    let document = object(vec![("name", text("wrong_name"))]);
    let outcome = evaluate_rule(&rule, &document, "pipeline/test.json");
    assert!(outcome.violations.is_empty());
    assert_eq!(outcome.diagnostics.len(), 1);
    match &outcome.diagnostics[0] {
        Diagnostic::InvalidPath { rule_id, target, reason } => {
            assert_eq!(rule_id, "naming");
            assert_eq!(target, "$.name[");
            let said = serde_json_path::JsonPath::parse("$.name[").unwrap_err().to_string();
            assert!(!said.is_empty());
            assert_eq!(reason, &said);
        }
        other => panic!("unexpected diagnostic {:?}", other),
    }
}

#[test]
fn invalid_precondition_target_skips_the_rule_with_a_diagnostic() {
    let mut rule = naming_rule("naming", true);
    rule.when.as_mut().unwrap().target = "not a path".to_string();
    let document = typed_document("MappingDataFlow", "wrong_name");
    let outcome = evaluate_rule(&rule, &document, "pipeline/test.json");
    assert!(outcome.violations.is_empty());
    assert_eq!(outcome.diagnostics.len(), 1);
    assert!(matches!(&outcome.diagnostics[0], Diagnostic::InvalidPath { target, .. } if target == "not a path"));
}

#[test]
fn unknown_guard_passes_with_a_diagnostic_for_each_value() {
    let rule = Rule {
        id: "typo".to_string(),
        asset: AssetMatcher::Single("pipeline".to_string()),
        description: None,
        severity: Severity::Error,
        when: None,
        validate: Validation {
            target: "$.items[*]".to_string(),
            guard: "Exsits".to_string(),
            params: Value::Null,
        },
    };
    let document: Value = serde_json::from_str(r#"{"items":[null, 1, "a"]}"#).unwrap();
    let outcome = evaluate_rule(&rule, &document, "pipeline/p.json");
    assert!(outcome.violations.is_empty());
    assert_eq!(outcome.diagnostics.len(), 3);
    for diagnostic in &outcome.diagnostics {
        match diagnostic {
            Diagnostic::UnknownGuard { rule_id, guard } => {
                assert_eq!(rule_id, "typo");
                assert_eq!(guard, "Exsits");
            }
            other => panic!("unexpected diagnostic {:?}", other),
        }
    }
}

#[test]
fn known_guards_give_no_diagnostics() {
    let rule = naming_rule("naming", true);
    let document = typed_document("MappingDataFlow", "wrong_name");
    let outcome = evaluate_rule(&rule, &document, "pipeline/test.json");
    assert_eq!(outcome.violations.len(), 1);
    assert!(outcome.diagnostics.is_empty());
}

#[test]
fn evaluating_twice_gives_the_same_violations() {
    let rule = naming_rule("naming", true);
    let document = typed_document("MappingDataFlow", "wrong_name");
    let first = check_rule(&rule, &document, "pipeline/test.json");
    let second = check_rule(&rule, &document, "pipeline/test.json");
    assert_eq!(first.len(), second.len());
    for (a, b) in first.iter().zip(second.iter()) {
        assert_eq!(a.rule_id, b.rule_id);
        assert_eq!(a.file, b.file);
        assert_eq!(a.message, b.message);
        assert_eq!(a.severity, b.severity);
        assert_eq!(a.actual_value, b.actual_value);
    }
}

#[test]
fn list_matcher_accepts_either_folder_in_any_case() {
    let matcher = AssetMatcher::List(vec!["pipeline".to_string(), "dataset".to_string()]);
    assert!(matches_asset_type(&matcher, "adf/Pipeline/a.json"));
    assert!(matches_asset_type(&matcher, "adf/PIPELINE/a.json"));
    assert!(matches_asset_type(&matcher, "/abs/DataSet/a.json"));
    assert!(!matches_asset_type(&matcher, "adf/pipelines/a.json"));
    assert!(!matches_asset_type(&matcher, "adf/trigger/a.json"));
    assert!(!matches_asset_type(&matcher, "pipeline/nested/a.json"));
    assert!(!matches_asset_type(&matcher, "a.json"));
    assert!(!matches_asset_type(&AssetMatcher::List(vec![]), "pipeline/a.json"));
}

#[test]
fn matcher_compares_whole_names() {
    let matcher = AssetMatcher::Single("PipeLine".to_string());
    let folder: Vec<char> = "pipeline".chars().collect();
    assert!(matches_folder(&matcher, &folder));
    let longer: Vec<char> = "pipeline2".chars().collect();
    assert!(!matches_folder(&matcher, &longer));
    let glob = AssetMatcher::Single("pipe*".to_string());
    assert!(!matches_folder(&glob, &folder));
}

#[test]
fn range_rule_compares_large_integers_exactly() {
    let rule = Rule {
        id: "limit".to_string(),
        asset: AssetMatcher::Single("dataset".to_string()),
        description: None,
        severity: Severity::Error,
        when: None,
        validate: Validation {
            target: "$.sizes[*]".to_string(),
            guard: "Range".to_string(),
            params: serde_json::from_str(r#"{"max": 9007199254740992}"#).unwrap(),
        },
    };
    let document: Value = serde_json::from_str(
        r#"{"sizes":[9007199254740991, 9007199254740992, 9007199254740993, -5, 9007199254740992.0]}"#,
    )
    .unwrap();
    let violations = check_rule(&rule, &document, "dataset/d.json");
    let values: Vec<&str> =
        violations.iter().map(|v| v.actual_value.as_deref().unwrap()).collect();
    assert_eq!(values, vec!["9007199254740993"]);

    let mut with_double = rule;
    with_double.validate.params = serde_json::from_str(r#"{"max": 9007199254740992.0}"#).unwrap();
    let violations = check_rule(&with_double, &document, "dataset/d.json");
    let values: Vec<&str> =
        violations.iter().map(|v| v.actual_value.as_deref().unwrap()).collect();
    assert_eq!(values, vec!["9007199254740993"]);
}
