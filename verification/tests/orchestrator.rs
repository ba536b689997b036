use adf_guardian::config::{AssetMatcher, Config, Rule, Severity, Validation};
use adf_guardian::engine::{Diagnostic, FileResult, Violation};
use adf_guardian::location::{containing_folder, has_json_extension};
use adf_guardian::orchestrator::{evaluate_artifact, evaluate_document, run, Artifact};
use adf_guardian::report::{all_violations, count_severity, exit_code, has_errors, summarize};
use adf_guardian::text::{chars_of, decimal_text, str_eq, str_eq_ignore_ascii_case};
use serde_json::Value;
use std::path::Path;

fn params(members: Vec<(&str, Value)>) -> Value {
    let mut map = serde_json::Map::new();
    for (key, value) in members {
        map.insert(key.to_string(), value);
    }
    Value::Object(map)
}

fn rule(id: &str, folder: &str, severity: Severity, target: &str, guard: &str, p: Value) -> Rule {
    Rule {
        id: id.to_string(),
        asset: AssetMatcher::Single(folder.to_string()),
        description: None,
        severity,
        when: None,
        validate: Validation { target: target.to_string(), guard: guard.to_string(), params: p },
    }
}

fn sample_config() -> Config {
    Config {
        rules: vec![
            rule(
                "pl-name",
                "pipeline",
                Severity::Error,
                "$.name",
                "PatternMatch",
                params(vec![("regex", Value::String("^pl_".to_string()))]),
            ),
            rule(
                "ds-name",
                "dataset",
                Severity::Error,
                "$.name",
                "PatternMatch",
                params(vec![("regex", Value::String("^ds_".to_string()))]),
            ),
            rule(
                "short-name",
                "pipeline",
                Severity::Warning,
                "$.name",
                "StringLength",
                params(vec![("max", Value::from(5u64))]),
            ),
        ],
    }
}

fn violation(severity: Severity) -> Violation {
    Violation {
        rule_id: "r".to_string(),
        file: "f".to_string(),
        message: "m".to_string(),
        severity,
        actual_value: None,
    }
}

#[test]
fn document_gets_the_violations_of_the_rules_that_apply() {
    let config = sample_config();
    let document: Value = serde_json::from_str(r#"{"name":"wrong_name"}"#).unwrap();
    let evaluation = evaluate_document(&config, &document, "adf/pipeline/p.json");
    assert_eq!(evaluation.result.file, "adf/pipeline/p.json");
    let ids: Vec<&str> = evaluation.result.violations.iter().map(|v| v.rule_id.as_str()).collect();
    assert_eq!(ids, vec!["pl-name", "short-name"]);
    assert!(evaluation.diagnostics.is_empty());

    let evaluation = evaluate_document(&config, &document, "adf/dataset/d.json");
    let ids: Vec<&str> = evaluation.result.violations.iter().map(|v| v.rule_id.as_str()).collect();
    assert_eq!(ids, vec!["ds-name"]);

    let evaluation = evaluate_document(&config, &document, "adf/trigger/t.json");
    assert!(evaluation.result.violations.is_empty());
    assert!(evaluation.diagnostics.is_empty());
}

#[test]
fn unreadable_artifact_gives_an_empty_result() {
    let config = sample_config();
    let evaluation = evaluate_artifact(&config, "pipeline/p.json", None);
    assert_eq!(evaluation.result.file, "pipeline/p.json");
    assert!(evaluation.result.violations.is_empty());
    assert_eq!(evaluation.diagnostics.len(), 1);
    assert!(matches!(&evaluation.diagnostics[0], Diagnostic::UnreadableArtifact { file } if file == "pipeline/p.json"));
}

#[test]
fn artifact_that_is_no_json_gives_an_empty_result() {
    let config = sample_config();
    for bytes in [&b"{\"name\": "[..], &b""[..], &b"{} {}"[..], &b"\xff\xfe"[..]] {
        let evaluation = evaluate_artifact(&config, "pipeline/p.json", Some(bytes));
        assert_eq!(evaluation.result.file, "pipeline/p.json");
        assert!(evaluation.result.violations.is_empty());
        assert_eq!(evaluation.diagnostics.len(), 1);
        let said = serde_json::from_slice::<Value>(bytes).unwrap_err().to_string();
        assert!(!said.is_empty());
        assert!(matches!(&evaluation.diagnostics[0], Diagnostic::InvalidJson { file, reason } if file == "pipeline/p.json" && reason == &said));
    }
}

#[test]
fn artifact_is_parsed_and_evaluated() {
    let config = sample_config();
    let bytes = br#"{"properties":{"type":"MappingDataFlow"},"name":"wrong_name"}"#;
    let evaluation = evaluate_artifact(&config, "pipeline/p.json", Some(&bytes[..]));
    assert_eq!(evaluation.result.violations.len(), 2);
    assert_eq!(evaluation.result.violations[0].actual_value.as_deref(), Some("\"wrong_name\""));
    assert!(evaluation.diagnostics.is_empty());
    let good = br#" {"name":"pl_a"} "#;
    let evaluation = evaluate_artifact(&config, "pipeline/p.json", Some(&good[..]));
    assert!(evaluation.result.violations.is_empty());
}

#[test]
fn run_gives_one_result_for_each_artifact() {
    let config = sample_config();
    let artifacts = vec![
        Artifact {
            file: "adf/pipeline/a.json".to_string(),
            contents: Some(br#"{"name":"wrong_name"}"#.to_vec()),
        },
        Artifact { file: "adf/pipeline/b.json".to_string(), contents: None },
        Artifact { file: "adf/dataset/c.json".to_string(), contents: Some(b"not json".to_vec()) },
        Artifact {
            file: "adf/dataset/d.json".to_string(),
            contents: Some(br#"{"name":"ds_ok"}"#.to_vec()),
        },
    ];
    let report = run(&config, &artifacts);
    let files: Vec<&str> = report.results.iter().map(|r| r.file.as_str()).collect();
    assert_eq!(
        files,
        vec!["adf/pipeline/a.json", "adf/pipeline/b.json", "adf/dataset/c.json", "adf/dataset/d.json"]
    );
    let counts: Vec<usize> = report.results.iter().map(|r| r.violations.len()).collect();
    assert_eq!(counts, vec![2, 0, 0, 0]);
    assert_eq!(report.diagnostics.len(), 2);
    assert!(matches!(&report.diagnostics[0], Diagnostic::UnreadableArtifact { .. }));
    assert!(matches!(&report.diagnostics[1], Diagnostic::InvalidJson { .. }));
    assert!(has_errors(&report.results));
    assert_eq!(exit_code(&report.results), 1);
    let summary = summarize(&report.results);
    assert_eq!(summary.scanned, 4);
    assert_eq!(summary.errors, 1);
    assert_eq!(summary.warnings, 1);
}

#[test]
fn run_without_artifacts_or_rules() {
    let report = run(&sample_config(), &vec![]);
    assert!(report.results.is_empty());
    assert!(report.diagnostics.is_empty());
    assert_eq!(exit_code(&report.results), 0);
    let empty = Config { rules: vec![] };
    let artifacts =
        vec![Artifact { file: "pipeline/a.json".to_string(), contents: Some(b"{}".to_vec()) }];
    let report = run(&empty, &artifacts);
    assert_eq!(report.results.len(), 1);
    assert!(report.results[0].violations.is_empty());
}

#[test]
fn warnings_alone_do_not_fail_the_run() {
    let results = vec![
        FileResult { file: "a".to_string(), violations: vec![] },
        FileResult {
            file: "b".to_string(),
            violations: vec![violation(Severity::Warning), violation(Severity::Warning)],
        },
    ];
    assert!(!has_errors(&results));
    assert_eq!(exit_code(&results), 0);
    let summary = summarize(&results);
    assert_eq!((summary.scanned, summary.errors, summary.warnings), (2, 0, 2));
}

#[test]
fn counts_by_severity() {
    let violations = vec![
        violation(Severity::Error),
        violation(Severity::Warning),
        violation(Severity::Error),
    ];
    assert_eq!(count_severity(&violations, Severity::Error), 2);
    assert_eq!(count_severity(&violations, Severity::Warning), 1);
    assert_eq!(count_severity(&vec![], Severity::Error), 0);
    let results = vec![
        FileResult { file: "a".to_string(), violations },
        FileResult { file: "b".to_string(), violations: vec![violation(Severity::Error)] },
    ];
    let summary = summarize(&results);
    assert_eq!((summary.scanned, summary.errors, summary.warnings), (2, 3, 1));
    assert!(has_errors(&results));
}

#[test]
fn all_violations_keeps_the_order() {
    let mut first = violation(Severity::Error);
    first.rule_id = "one".to_string();
    let mut second = violation(Severity::Warning);
    second.rule_id = "two".to_string();
    let mut third = violation(Severity::Error);
    third.rule_id = "three".to_string();
    let results = vec![
        FileResult { file: "a".to_string(), violations: vec![first, second] },
        FileResult { file: "b".to_string(), violations: vec![] },
        FileResult { file: "c".to_string(), violations: vec![third] },
    ];
    let ids: Vec<&str> = all_violations(&results).iter().map(|v| v.rule_id.as_str()).collect();
    assert_eq!(ids, vec!["one", "two", "three"]);
    assert!(all_violations(&vec![]).is_empty());
}

#[test]
fn severity_names_and_default() {
    assert_eq!(Severity::Error.label(), "Error");
    assert_eq!(Severity::Warning.label(), "Warning");
    assert_eq!(Severity::default(), Severity::Error);
    assert!(Severity::Error.is_error());
    assert!(!Severity::Warning.is_error());
}

#[test]
fn containing_folder_of_plain_paths() {
    let folder = |p: &str| containing_folder(p).map(|v| v.into_iter().collect::<String>());
    assert_eq!(folder("./pipeline/test.json"), Some("pipeline".to_string()));
    assert_eq!(folder("pipeline/test.json"), Some("pipeline".to_string()));
    assert_eq!(folder("/a/b/c.json"), Some("b".to_string()));
    assert_eq!(folder("a//b///c.json"), Some("b".to_string()));
    assert_eq!(folder("a/./c.json"), Some("a".to_string()));
    assert_eq!(folder("test.json"), None);
    assert_eq!(folder("./test.json"), None);
    assert_eq!(folder("/test.json"), None);
    assert_eq!(folder("a/../test.json"), None);
    assert_eq!(folder(""), None);
    assert_eq!(folder("/"), None);
    assert_eq!(folder("dossier/é.json"), Some("dossier".to_string()));
}

#[test]
fn containing_folder_agrees_with_the_platform_on_slash_paths() {
    let parts = ["", ".", "..", "a", "bc", ".d", "e.json", "..."];
    let mut paths: Vec<String> = Vec::new();
    for lead in ["", "/", "./", "//"] {
        for x in parts {
            paths.push(format!("{}{}", lead, x));
            for y in parts {
                paths.push(format!("{}{}/{}", lead, x, y));
                for z in parts {
                    paths.push(format!("{}{}/{}/{}", lead, x, y, z));
                    paths.push(format!("{}{}/{}//{}/", lead, x, y, z));
                }
            }
        }
    }
    if std::path::MAIN_SEPARATOR != '/' {
        return;
    }
    for path in paths {
        let expected = Path::new(&path)
            .parent()
            .and_then(|p| p.file_name())
            .and_then(|s| s.to_str())
            .map(|s| s.to_string());
        let actual = containing_folder(&path).map(|v| v.into_iter().collect::<String>());
        assert_eq!(actual, expected, "path {:?}", path);
    }
}

#[test]
fn text_helpers() {
    assert_eq!(chars_of("aé😀"), vec!['a', 'é', '😀']);
    assert!(chars_of("").is_empty());
    assert!(str_eq("abc", "abc"));
    assert!(!str_eq("abc", "abd"));
    assert!(!str_eq("abc", "ab"));
    assert!(str_eq("", ""));
    assert!(str_eq_ignore_ascii_case("PipeLine", "pIPElINE"));
    assert!(str_eq_ignore_ascii_case("a-1_Z", "A-1_z"));
    assert!(!str_eq_ignore_ascii_case("É", "é"));
    assert!(!str_eq_ignore_ascii_case("@", "`"));
    assert!(!str_eq_ignore_ascii_case("[", "{"));
    assert!(!str_eq_ignore_ascii_case("abc", "abcd"));
    for a in ["", "a", "A", "Zz", "é", "K", "k", "@", "`"] {
        for b in ["", "a", "A", "zZ", "É", "K", "k", "@", "`"] {
            assert_eq!(str_eq_ignore_ascii_case(a, b), a.eq_ignore_ascii_case(b));
        }
    }
}

#[test]
fn decimal_numerals() {
    assert_eq!(decimal_text(0), "0");
    assert_eq!(decimal_text(7), "7");
    assert_eq!(decimal_text(10), "10");
    assert_eq!(decimal_text(109), "109");
    assert_eq!(decimal_text(1234567890), "1234567890");
    assert_eq!(decimal_text(usize::MAX), usize::MAX.to_string());
}

#[test]
fn json_extension_of_plain_paths() {
    assert!(has_json_extension("pipeline/test.json"));
    assert!(has_json_extension("a.b.json"));
    assert!(has_json_extension("./x/..json"));
    assert!(has_json_extension("dir/a.json/"));
    assert!(!has_json_extension(".json"));
    assert!(!has_json_extension("dir/.json"));
    assert!(!has_json_extension("test.JSON"));
    assert!(!has_json_extension("test.jsonx"));
    assert!(!has_json_extension("test.json.bak"));
    assert!(!has_json_extension("json"));
    assert!(!has_json_extension("a.json/.."));
    assert!(!has_json_extension(""));
    assert!(!has_json_extension("dir/"));
}

#[test]
fn json_extension_agrees_with_the_platform_on_slash_paths() {
    if std::path::MAIN_SEPARATOR != '/' {
        return;
    }
    let parts = ["", ".", "..", "a", ".json", "a.json", "..json", "a.b.json", "json", "a.jso", "é.json"];
    for lead in ["", "/", "./"] {
        for x in parts {
            for y in parts {
                for tail in ["", "/", "/."] {
                    let path = format!("{}{}/{}{}", lead, x, y, tail);
                    let expected = Path::new(&path).extension().is_some_and(|ext| ext == "json");
                    assert_eq!(has_json_extension(&path), expected, "path {:?}", path);
                }
            }
        }
    }
}
