use adf_guardian::config::{AssetMatcher, Rule, Severity, Validation};
use adf_guardian::engine::{check_all, count_text, precondition_met, violation_of};
use adf_guardian::guards::{pattern_verdict, Guard};
use adf_guardian::json::{Json, Number};

fn word(s: &str) -> Json {
    Json::String(s.to_string())
}

fn whole(n: u64) -> Json {
    Json::Number(Number {
        unsigned: Some(n),
        signed: i64::try_from(n).ok(),
        float_bits: Some((n as f64).to_bits()),
    })
}

fn bounds(min: u64, max: u64) -> Json {
    Json::Object(vec![("min".to_string(), whole(min)), ("max".to_string(), whole(max))])
}

fn plain_rule(description: Option<&str>, severity: Severity) -> Rule {
    Rule {
        id: "rule-1".to_string(),
        asset: AssetMatcher::Single("pipeline".to_string()),
        description: description.map(|d| d.to_string()),
        severity,
        when: None,
        validate: Validation {
            target: "$.name".to_string(),
            guard: "Exists".to_string(),
            params: serde_json::Value::Null,
        },
    }
}

#[test]
fn pattern_verdict_inverts_only_a_compiled_match() {
    assert!(pattern_verdict(Some(true), false));
    assert!(!pattern_verdict(Some(false), false));
    assert!(!pattern_verdict(Some(true), true));
    assert!(pattern_verdict(Some(false), true));
    assert!(!pattern_verdict(None, false));
    assert!(!pattern_verdict(None, true));
}

#[test]
fn precondition_needs_a_value_and_every_value() {
    let params = bounds(10, 20);
    assert!(!precondition_met(Guard::Range, &vec![], &params));
    assert!(precondition_met(Guard::Range, &vec![whole(10)], &params));
    assert!(precondition_met(Guard::Range, &vec![whole(10), whole(20), whole(15)], &params));
    assert!(!precondition_met(Guard::Range, &vec![whole(10), whole(21), whole(15)], &params));
    assert!(!precondition_met(Guard::Range, &vec![word("10")], &params));
    assert!(!precondition_met(Guard::Unknown, &vec![], &params));
    assert!(precondition_met(Guard::Unknown, &vec![Json::Null], &params));
}

#[test]
fn check_all_judges_each_value_in_order() {
    let params = bounds(10, 20);
    let nodes = vec![whole(9), whole(10), word("x"), whole(20), whole(21)];
    assert_eq!(check_all(Guard::Range, &nodes, &params), vec![false, true, false, true, false]);
    assert_eq!(check_all(Guard::Unknown, &nodes, &params), vec![true; 5]);
    assert_eq!(check_all(Guard::Exists, &vec![Json::Null, whole(0)], &params), vec![false, true]);
    assert!(check_all(Guard::Count, &vec![], &params).is_empty());
}

#[test]
fn count_text_is_the_number_of_elements() {
    assert_eq!(count_text(&Json::Array(vec![])), "0");
    assert_eq!(count_text(&Json::Array(vec![Json::Null, whole(1), word("a")])), "3");
    assert_eq!(count_text(&Json::Array((0..12).map(whole).collect())), "12");
    assert_eq!(count_text(&word("abc")), "0");
    assert_eq!(count_text(&Json::Object(vec![("a".to_string(), Json::Null)])), "0");
    assert_eq!(count_text(&Json::Null), "0");
}

#[test]
fn violation_of_copies_the_rule() {
    let rule = plain_rule(Some("Names must exist"), Severity::Warning);
    let violation = violation_of(&rule, "pipeline/a.json", "null".to_string());
    assert_eq!(violation.rule_id, "rule-1");
    assert_eq!(violation.file, "pipeline/a.json");
    assert_eq!(violation.message, "Names must exist");
    assert_eq!(violation.severity, Severity::Warning);
    assert_eq!(violation.actual_value.as_deref(), Some("null"));

    let bare = plain_rule(None, Severity::Error);
    let violation = violation_of(&bare, "", String::new());
    assert_eq!(violation.message, "Rule violation");
    assert_eq!(violation.severity, Severity::Error);
    assert_eq!(violation.actual_value.as_deref(), Some(""));
}
