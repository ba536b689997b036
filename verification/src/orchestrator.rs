//! The orchestrator: a rule set against one document, one artifact, or a
//! batch of artifacts. Reading the artifacts is the caller's part.

use crate::config::{Config, RuleView};
use crate::engine::{
    applies_to, diagnostic_views, evaluate_rule_into, matches_folder, rule_diagnostics,
    rule_violations, violation_views, Diagnostic, DiagnosticView, FileResult, FileResultView,
    Violation, ViolationView,
};
use crate::json::JsonView;
use crate::location::containing_folder;
use crate::outside::{json_error_text, parse_json, parsed_json, value_json};
use vstd::prelude::*;

verus! {

/// What the evaluation of one artifact gave: its result, and what the
/// operator is warned of.
#[derive(Debug)]
pub struct Evaluation {
    pub result: FileResult,
    pub diagnostics: Vec<Diagnostic>,
}

/// A discovered artifact: its location and, where it could be read, its
/// bytes.
#[derive(Debug)]
pub struct Artifact {
    pub file: String,
    pub contents: Option<Vec<u8>>,
}

/// The mathematical value of an [`Artifact`].
pub struct ArtifactView {
    pub file: Seq<char>,
    pub contents: Option<Seq<u8>>,
}

impl View for Artifact {
    type V = ArtifactView;

    open spec fn view(&self) -> ArtifactView {
        ArtifactView {
            file: self.file@,
            contents: match self.contents {
                Some(bytes) => Some(bytes@),
                None => None,
            },
        }
    }
}

/// The values of a sequence of artifacts.
pub open spec fn artifact_views(artifacts: Seq<Artifact>) -> Seq<ArtifactView> {
    Seq::new(artifacts.len(), |i: int| artifacts[i]@)
}

/// The values of a sequence of file results.
pub open spec fn result_views(results: Seq<FileResult>) -> Seq<FileResultView> {
    Seq::new(results.len(), |i: int| results[i]@)
}

/// What a whole run gave: one result for each artifact, in the order of the
/// artifacts, and all diagnostics.
#[derive(Debug)]
pub struct Report {
    pub results: Vec<FileResult>,
    pub diagnostics: Vec<Diagnostic>,
}

/// The violations of a rule set against the document of the artifact at
/// `file`: those of each rule that applies to the artifact, rule by rule in
/// declaration order.
pub open spec fn document_violations(rules: Seq<RuleView>, doc: JsonView, file: Seq<char>) -> Seq<
    ViolationView,
>
    decreases rules.len(),
{
    if rules.len() == 0 {
        Seq::empty()
    } else {
        document_violations(rules.drop_last(), doc, file) + (if applies_to(
            rules.last().asset,
            file,
        ) {
            rule_violations(rules.last(), doc, file)
        } else {
            Seq::empty()
        })
    }
}

/// The diagnostics of a rule set against the document of the artifact at
/// `file`: those of each rule that applies, in declaration order.
pub open spec fn document_diagnostics(rules: Seq<RuleView>, doc: JsonView, file: Seq<char>) -> Seq<
    DiagnosticView,
>
    decreases rules.len(),
{
    if rules.len() == 0 {
        Seq::empty()
    } else {
        document_diagnostics(rules.drop_last(), doc, file) + (if applies_to(
            rules.last().asset,
            file,
        ) {
            rule_diagnostics(rules.last(), doc)
        } else {
            Seq::empty()
        })
    }
}

/// Evaluates a rule set against the document of the artifact at
/// `file_path`.
pub fn evaluate_document(config: &Config, root: &serde_json::Value, file_path: &str) -> (out:
    Evaluation)
    ensures
        out.result@ == (FileResultView {
            file: file_path@,
            violations: document_violations(config@, value_json(*root), file_path@),
        }),
        diagnostic_views(out.diagnostics@) == document_diagnostics(
            config@,
            value_json(*root),
            file_path@,
        ),
{
    let ghost doc = value_json(*root);
    let ghost rules = config@;
    let folder = containing_folder(file_path);
    let mut violations: Vec<Violation> = Vec::new();
    let mut diagnostics: Vec<Diagnostic> = Vec::new();
    let mut i: usize = 0;
    assert(rules.take(0) =~= Seq::<RuleView>::empty());
    assert(violation_views(violations@) =~= Seq::<ViolationView>::empty());
    assert(diagnostic_views(diagnostics@) =~= Seq::<DiagnosticView>::empty());
    while i < config.rules.len()
        invariant
            i <= config.rules.len(),
            doc == value_json(*root),
            rules == config@,
            match folder {
                Some(name) => crate::location::folder_of(file_path@) == Some(name@),
                None => crate::location::folder_of(file_path@) is None,
            },
            violation_views(violations@) == document_violations(rules.take(i as int), doc, file_path@),
            diagnostic_views(diagnostics@) == document_diagnostics(
                rules.take(i as int),
                doc,
                file_path@,
            ),
        decreases config.rules.len() - i,
    {
        let rule = &config.rules[i];
        proof {
            assert(rules.take(i + 1).drop_last() =~= rules.take(i as int));
            assert(rules.take(i + 1).last() == rule@);
        }
        let applies = match &folder {
            Some(name) => matches_folder(&rule.asset, name),
            None => false,
        };
        if applies {
            evaluate_rule_into(rule, root, file_path, &mut violations, &mut diagnostics);
        } else {
            assert(violation_views(violations@) + Seq::<ViolationView>::empty()
                =~= violation_views(violations@));
            assert(diagnostic_views(diagnostics@) + Seq::<DiagnosticView>::empty()
                =~= diagnostic_views(diagnostics@));
        }
        i += 1;
    }
    assert(rules.take(i as int) =~= rules);
    Evaluation { result: FileResult { file: file_path.to_owned(), violations }, diagnostics }
}

/// The violations of a rule set against an artifact: none where the
/// artifact could not be read or holds no JSON document.
pub open spec fn artifact_violations(rules: Seq<RuleView>, artifact: ArtifactView) -> Seq<
    ViolationView,
> {
    match artifact.contents {
        Some(bytes) => match parsed_json(bytes) {
            Some(doc) => document_violations(rules, doc, artifact.file),
            None => Seq::empty(),
        },
        None => Seq::empty(),
    }
}

/// The result of a rule set against an artifact.
pub open spec fn artifact_result(rules: Seq<RuleView>, artifact: ArtifactView) -> FileResultView {
    FileResultView { file: artifact.file, violations: artifact_violations(rules, artifact) }
}

/// The diagnostics of a rule set against an artifact: one where the
/// artifact could not be read, one where it holds no JSON document, else
/// those of the rules.
pub open spec fn artifact_diagnostics(rules: Seq<RuleView>, artifact: ArtifactView) -> Seq<
    DiagnosticView,
> {
    match artifact.contents {
        Some(bytes) => match parsed_json(bytes) {
            Some(doc) => document_diagnostics(rules, doc, artifact.file),
            None => seq![
                DiagnosticView::InvalidJson { file: artifact.file, reason: json_error_text(bytes) },
            ],
        },
        None => seq![DiagnosticView::UnreadableArtifact { file: artifact.file }],
    }
}

/// Evaluates a rule set against one artifact, given the bytes that were
/// read from it, or `None` where it could not be read. A bad artifact gives
/// an empty result and a diagnostic.
pub fn evaluate_artifact(config: &Config, file_path: &str, contents: Option<&[u8]>) -> (out:
    Evaluation)
    ensures
        out.result@ == artifact_result(
            config@,
            (ArtifactView {
                file: file_path@,
                contents: match contents {
                    Some(bytes) => Some(bytes@),
                    None => None,
                },
            }),
        ),
        diagnostic_views(out.diagnostics@) == artifact_diagnostics(
            config@,
            (ArtifactView {
                file: file_path@,
                contents: match contents {
                    Some(bytes) => Some(bytes@),
                    None => None,
                },
            }),
        ),
{
    let note = match contents {
        Some(bytes) => match parse_json(bytes) {
            Ok(root) => {
                return evaluate_document(config, &root, file_path);
            },
            Err(reason) => Diagnostic::InvalidJson { file: file_path.to_owned(), reason },
        },
        None => Diagnostic::UnreadableArtifact { file: file_path.to_owned() },
    };
    let violations: Vec<Violation> = Vec::new();
    let mut diagnostics: Vec<Diagnostic> = Vec::new();
    diagnostics.push(note);
    assert(violation_views(violations@) =~= Seq::<ViolationView>::empty());
    assert(diagnostic_views(diagnostics@) =~= seq![note@]);
    Evaluation { result: FileResult { file: file_path.to_owned(), violations }, diagnostics }
}

/// The results of a run: one for each artifact, in order.
pub open spec fn run_results(rules: Seq<RuleView>, artifacts: Seq<ArtifactView>) -> Seq<
    FileResultView,
> {
    Seq::new(artifacts.len(), |i: int| artifact_result(rules, artifacts[i]))
}

/// The diagnostics of a run: those of each artifact, in order.
pub open spec fn run_diagnostics(rules: Seq<RuleView>, artifacts: Seq<ArtifactView>) -> Seq<
    DiagnosticView,
>
    decreases artifacts.len(),
{
    if artifacts.len() == 0 {
        Seq::empty()
    } else {
        run_diagnostics(rules, artifacts.drop_last()) + artifact_diagnostics(
            rules,
            artifacts.last(),
        )
    }
}

/// Evaluates a rule set against every discovered artifact. No artifact
/// stops the run: each gets exactly one result.
pub fn run(config: &Config, artifacts: &Vec<Artifact>) -> (report: Report)
    ensures
        result_views(report.results@) == run_results(config@, artifact_views(artifacts@)),
        diagnostic_views(report.diagnostics@) == run_diagnostics(
            config@,
            artifact_views(artifacts@),
        ),
{
    let ghost all = artifact_views(artifacts@);
    let mut results: Vec<FileResult> = Vec::new();
    let mut diagnostics: Vec<Diagnostic> = Vec::new();
    let mut i: usize = 0;
    assert(all.take(0) =~= Seq::<ArtifactView>::empty());
    assert(diagnostic_views(diagnostics@) =~= Seq::<DiagnosticView>::empty());
    while i < artifacts.len()
        invariant
            i <= artifacts.len(),
            all == artifact_views(artifacts@),
            results@.len() == i,
            forall|j: int| 0 <= j < i ==> (#[trigger] results@[j])@ == artifact_result(config@, all[j]),
            diagnostic_views(diagnostics@) == run_diagnostics(config@, all.take(i as int)),
        decreases artifacts.len() - i,
    {
        let artifact = &artifacts[i];
        let contents = match &artifact.contents {
            Some(bytes) => Some(bytes.as_slice()),
            None => None,
        };
        let mut evaluation = evaluate_artifact(config, artifact.file.as_str(), contents);
        proof {
            assert(all.take(i + 1).drop_last() =~= all.take(i as int));
            assert(all.take(i + 1).last() == artifact@);
            assert(artifact@ == (ArtifactView {
                file: artifact.file@,
                contents: match contents {
                    Some(bytes) => Some(bytes@),
                    None => None,
                },
            }));
        }
        let ghost noted = diagnostics@;
        let ghost added = evaluation.diagnostics@;
        diagnostics.append(&mut evaluation.diagnostics);
        assert(diagnostic_views(diagnostics@) =~= diagnostic_views(noted) + diagnostic_views(added));
        results.push(evaluation.result);
        i += 1;
    }
    assert(all.take(i as int) =~= all);
    assert(result_views(results@) =~= run_results(config@, all));
    Report { results, diagnostics }
}

} // verus!
