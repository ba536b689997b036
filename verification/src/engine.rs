//! The rule evaluator: which rules apply to an artifact, whether a rule's
//! precondition is met, and which located values violate its main check.

use crate::config::{
    AssetMatcher, AssetMatcherView, Rule, RuleView, Severity, Validation, ValidationView,
};
use crate::guards::{check_by, guard_holds, Guard};
use crate::json::{json_views, lemma_json_views, Json, JsonView};
use crate::location::{containing_folder, folder_of};
use crate::outside::{
    json_text, path_error_text, path_nodes, path_parses, query_path, read_value, shape_of,
    value_json, value_text, values_json, Shape,
};
use crate::text::{
    chars_eq_ignore_ascii_case, chars_of, decimal, decimal_text, eq_ignoring_ascii_case,
};
use vstd::prelude::*;

verus! {

/// One located value that failed a rule's main check.
#[derive(Debug)]
pub struct Violation {
    pub rule_id: String,
    /// The artifact's location.
    pub file: String,
    /// The rule's description, or a default.
    pub message: String,
    pub severity: Severity,
    /// The offending value, as text.
    pub actual_value: Option<String>,
}

/// The mathematical value of a [`Violation`].
pub struct ViolationView {
    pub rule_id: Seq<char>,
    pub file: Seq<char>,
    pub message: Seq<char>,
    pub severity: Severity,
    pub actual_value: Option<Seq<char>>,
}

impl View for Violation {
    type V = ViolationView;

    open spec fn view(&self) -> ViolationView {
        ViolationView {
            rule_id: self.rule_id@,
            file: self.file@,
            message: self.message@,
            severity: self.severity,
            actual_value: match self.actual_value {
                Some(text) => Some(text@),
                None => None,
            },
        }
    }
}

/// The values of a sequence of violations.
pub open spec fn violation_views(violations: Seq<Violation>) -> Seq<ViolationView> {
    Seq::new(violations.len(), |i: int| violations[i]@)
}

/// What the evaluation of one artifact found.
#[derive(Debug)]
pub struct FileResult {
    /// The artifact's location.
    pub file: String,
    /// The violations, by rule in declaration order and, within a rule, in
    /// the order in which the values were located.
    pub violations: Vec<Violation>,
}

/// The mathematical value of a [`FileResult`].
pub struct FileResultView {
    pub file: Seq<char>,
    pub violations: Seq<ViolationView>,
}

impl View for FileResult {
    type V = FileResultView;

    open spec fn view(&self) -> FileResultView {
        FileResultView { file: self.file@, violations: violation_views(self.violations@) }
    }
}

/// What an operator is warned of. A diagnostic never changes a result.
#[derive(Debug)]
pub enum Diagnostic {
    /// A check named a guard that does not exist, and passed a value.
    UnknownGuard { rule_id: String, guard: String },
    /// A target is no JSONPath expression; its rule was skipped. `reason` is
    /// what the path parser said.
    InvalidPath { rule_id: String, target: String, reason: String },
    /// An artifact could not be read.
    UnreadableArtifact { file: String },
    /// An artifact does not hold one JSON document. `reason` is what the
    /// JSON parser said.
    InvalidJson { file: String, reason: String },
}

/// The mathematical value of a [`Diagnostic`].
pub enum DiagnosticView {
    UnknownGuard { rule_id: Seq<char>, guard: Seq<char> },
    InvalidPath { rule_id: Seq<char>, target: Seq<char>, reason: Seq<char> },
    UnreadableArtifact { file: Seq<char> },
    InvalidJson { file: Seq<char>, reason: Seq<char> },
}

impl View for Diagnostic {
    type V = DiagnosticView;

    open spec fn view(&self) -> DiagnosticView {
        match self {
            Diagnostic::UnknownGuard { rule_id, guard } => DiagnosticView::UnknownGuard {
                rule_id: rule_id@,
                guard: guard@,
            },
            Diagnostic::InvalidPath { rule_id, target, reason } => DiagnosticView::InvalidPath {
                rule_id: rule_id@,
                target: target@,
                reason: reason@,
            },
            Diagnostic::UnreadableArtifact { file } => DiagnosticView::UnreadableArtifact {
                file: file@,
            },
            Diagnostic::InvalidJson { file, reason } => DiagnosticView::InvalidJson {
                file: file@,
                reason: reason@,
            },
        }
    }
}

/// The values of a sequence of diagnostics.
pub open spec fn diagnostic_views(diagnostics: Seq<Diagnostic>) -> Seq<DiagnosticView> {
    Seq::new(diagnostics.len(), |i: int| diagnostics[i]@)
}

/// Violations together with the diagnostics that arose on the way.
#[derive(Debug)]
pub struct Outcome {
    pub violations: Vec<Violation>,
    pub diagnostics: Vec<Diagnostic>,
}

/// Whether one of `names` is `folder`, up to the case of ASCII letters.
pub open spec fn some_name_is(names: Seq<Seq<char>>, folder: Seq<char>) -> bool {
    exists|i: int| 0 <= i < names.len() && eq_ignoring_ascii_case(folder, #[trigger] names[i])
}

/// Whether a matcher names `folder`, up to the case of ASCII letters.
pub open spec fn matcher_accepts(matcher: AssetMatcherView, folder: Seq<char>) -> bool {
    match matcher {
        AssetMatcherView::Single(name) => eq_ignoring_ascii_case(folder, name),
        AssetMatcherView::List(names) => some_name_is(names, folder),
    }
}

/// Whether a rule with this matcher applies to the artifact at `file`: the
/// artifact lies in a folder, and the matcher names that folder.
pub open spec fn applies_to(matcher: AssetMatcherView, file: Seq<char>) -> bool {
    match folder_of(file) {
        Some(folder) => matcher_accepts(matcher, folder),
        None => false,
    }
}

/// Whether a matcher names the folder `folder`.
pub fn matches_folder(matcher: &AssetMatcher, folder: &Vec<char>) -> (r: bool)
    ensures
        r == matcher_accepts(matcher@, folder@),
{
    match matcher {
        AssetMatcher::Single(name) => {
            let wanted = chars_of(name.as_str());
            chars_eq_ignore_ascii_case(folder, &wanted)
        },
        AssetMatcher::List(names) => {
            let ghost views = crate::config::string_views(names@);
            let mut i: usize = 0;
            while i < names.len()
                invariant
                    i <= names.len(),
                    views == crate::config::string_views(names@),
                    matcher@ == AssetMatcherView::List(views),
                    forall|j: int| 0 <= j < i ==> !eq_ignoring_ascii_case(folder@, #[trigger] views[j]),
                decreases names.len() - i,
            {
                let wanted = chars_of(names[i].as_str());
                if chars_eq_ignore_ascii_case(folder, &wanted) {
                    assert(views.len() == names@.len());
                    assert(eq_ignoring_ascii_case(folder@, views[i as int]));
                    return true;
                }
                i += 1;
            }
            false
        },
    }
}

/// Whether a rule with this matcher applies to the artifact at `file_path`.
pub fn matches_asset_type(matcher: &AssetMatcher, file_path: &str) -> (r: bool)
    ensures
        r == applies_to(matcher@, file_path@),
{
    match containing_folder(file_path) {
        Some(folder) => matches_folder(matcher, &folder),
        None => false,
    }
}

/// What `Count` shows of a value: the number of elements of an array, and
/// 0 for any other value.
pub open spec fn count_text_of(node: JsonView) -> Seq<char> {
    match node {
        JsonView::Array(items) => decimal(items.len()),
        _ => decimal(0),
    }
}

/// The text that a violation shows for a located value: under `Count` the
/// number of its elements; under every other guard the value's compact JSON
/// text.
pub open spec fn actual_text(guard: Guard, node: JsonView) -> Seq<char> {
    if guard == Guard::Count {
        count_text_of(node)
    } else {
        json_text(node)
    }
}

/// What `Count` shows of a value.
pub fn count_text(value: &Json) -> (s: String)
    ensures
        s@ == count_text_of(value@),
{
    match value.as_array() {
        Some(items) => {
            proof {
                lemma_json_views(items@);
            }
            decimal_text(items.len())
        },
        None => decimal_text(0),
    }
}

fn actual_value_text(guard: Guard, node: &serde_json::Value, json: &Json) -> (s: String)
    requires
        json@ == value_json(*node),
    ensures
        s@ == actual_text(guard, value_json(*node)),
{
    match guard {
        Guard::Count => count_text(json),
        _ => value_text(node),
    }
}

/// The text that a violation shows for `actual_value` under the guard that
/// `guard` names.
pub fn format_actual_value(guard: &str, actual_value: &serde_json::Value) -> (s: String)
    ensures
        s@ == actual_text(Guard::named(guard@), value_json(*actual_value)),
{
    match Guard::parse(guard) {
        Guard::Count => match shape_of(actual_value) {
            Shape::Array(items) => decimal_text(items.len()),
            _ => decimal_text(0),
        },
        _ => value_text(actual_value),
    }
}

/// Whether a guard holds of every one of `nodes`.
pub open spec fn all_pass(guard: Guard, nodes: Seq<JsonView>, params: JsonView) -> bool {
    forall|i: int| 0 <= i < nodes.len() ==> guard_holds(guard, #[trigger] nodes[i], params)
}

/// Whether located values meet a precondition: there is at least one, and
/// the guard holds of every one. One value that fails is enough to miss it.
pub open spec fn nodes_meet(guard: Guard, nodes: Seq<JsonView>, params: JsonView) -> bool {
    nodes.len() > 0 && all_pass(guard, nodes, params)
}

/// What a guard decides of each of `nodes`, in order.
pub open spec fn verdicts_of(guard: Guard, nodes: Seq<JsonView>, params: JsonView) -> Seq<bool> {
    nodes.map_values(|node: JsonView| guard_holds(guard, node, params))
}

/// Whether a precondition is met: its target parses, and the values that it
/// locates meet the precondition.
pub open spec fn condition_met(check: ValidationView, doc: JsonView) -> bool {
    &&& path_parses(check.target)
    &&& nodes_meet(Guard::named(check.guard), path_nodes(check.target, doc), check.params)
}

/// The unknown-guard diagnostics for `count` located values.
pub open spec fn unknown_guard_diagnostics(
    rule_id: Seq<char>,
    guard: Seq<char>,
    count: nat,
) -> Seq<DiagnosticView> {
    Seq::new(count, |i: int| DiagnosticView::UnknownGuard { rule_id: rule_id, guard: guard })
}

/// The diagnostic for a target that does not parse.
pub open spec fn invalid_path(rule_id: Seq<char>, target: Seq<char>) -> DiagnosticView {
    DiagnosticView::InvalidPath {
        rule_id: rule_id,
        target: target,
        reason: path_error_text(target),
    }
}

/// The diagnostics of carrying out one check on a document: one for a target
/// that does not parse; else, under an unknown guard, one for each located
/// value.
pub open spec fn check_diagnostics(
    rule_id: Seq<char>,
    check: ValidationView,
    doc: JsonView,
) -> Seq<DiagnosticView> {
    if !path_parses(check.target) {
        seq![invalid_path(rule_id, check.target)]
    } else if Guard::named(check.guard) == Guard::Unknown {
        unknown_guard_diagnostics(rule_id, check.guard, path_nodes(check.target, doc).len())
    } else {
        Seq::empty()
    }
}

/// Whether a rule gets as far as its main check: it has no precondition, or
/// the precondition is met.
pub open spec fn rule_proceeds(rule: RuleView, doc: JsonView) -> bool {
    rule.when matches Some(when) ==> condition_met(when, doc)
}

/// The message of a rule's violations: its description, or a default.
pub open spec fn message_of(rule: RuleView) -> Seq<char> {
    match rule.description {
        Some(text) => text,
        None => "Rule violation"@,
    }
}

/// The violation that a rule raises on the artifact at `file` for a value
/// whose text is `actual`.
pub open spec fn violation_with(rule: RuleView, file: Seq<char>, actual: Seq<char>) -> ViolationView {
    ViolationView {
        rule_id: rule.id,
        file: file,
        message: message_of(rule),
        severity: rule.severity,
        actual_value: Some(actual),
    }
}

/// The violation that a rule raises for the located value `node`.
pub open spec fn violation_for(rule: RuleView, file: Seq<char>, node: JsonView) -> ViolationView {
    violation_with(rule, file, actual_text(Guard::named(rule.validate.guard), node))
}

/// The violations that a rule raises among `nodes`: one for each value that
/// fails the main check's guard, in order.
pub open spec fn violations_among(rule: RuleView, file: Seq<char>, nodes: Seq<JsonView>) -> Seq<
    ViolationView,
> {
    nodes.filter(
        |node: JsonView| !guard_holds(Guard::named(rule.validate.guard), node, rule.validate.params),
    ).map_values(|node: JsonView| violation_for(rule, file, node))
}

/// The violations of one rule against one document: none where the rule
/// does not proceed or its target does not parse; else those among the
/// values that the target locates.
pub open spec fn rule_violations(rule: RuleView, doc: JsonView, file: Seq<char>) -> Seq<
    ViolationView,
> {
    if rule_proceeds(rule, doc) && path_parses(rule.validate.target) {
        violations_among(rule, file, path_nodes(rule.validate.target, doc))
    } else {
        Seq::empty()
    }
}

/// The diagnostics of one rule against one document: those of the
/// precondition, then, where the rule proceeds, those of the main check.
pub open spec fn rule_diagnostics(rule: RuleView, doc: JsonView) -> Seq<DiagnosticView> {
    let main = if rule_proceeds(rule, doc) {
        check_diagnostics(rule.id, rule.validate, doc)
    } else {
        Seq::empty()
    };
    match rule.when {
        Some(when) => check_diagnostics(rule.id, when, doc) + main,
        None => main,
    }
}

/// Whether located values meet a precondition under `guard`.
pub fn precondition_met(guard: Guard, nodes: &Vec<Json>, params: &Json) -> (met: bool)
    ensures
        met == nodes_meet(guard, json_views(nodes@), params@),
{
    let ghost views = json_views(nodes@);
    proof {
        lemma_json_views(nodes@);
    }
    let mut i: usize = 0;
    while i < nodes.len()
        invariant
            i <= nodes.len(),
            views == json_views(nodes@),
            views.len() == nodes@.len(),
            forall|j: int| 0 <= j < nodes@.len() ==> (#[trigger] views[j]) == nodes@[j]@,
            forall|j: int| 0 <= j < i ==> guard_holds(guard, #[trigger] views[j], params@),
        decreases nodes.len() - i,
    {
        if !check_by(guard, &nodes[i], params) {
            assert(!guard_holds(guard, views[i as int], params@));
            return false;
        }
        i += 1;
    }
    nodes.len() > 0
}

/// What `guard` decides of each of `nodes`, in order.
pub fn check_all(guard: Guard, nodes: &Vec<Json>, params: &Json) -> (verdicts: Vec<bool>)
    ensures
        verdicts@ == verdicts_of(guard, json_views(nodes@), params@),
{
    let ghost views = json_views(nodes@);
    proof {
        lemma_json_views(nodes@);
    }
    let mut verdicts: Vec<bool> = Vec::new();
    let mut i: usize = 0;
    while i < nodes.len()
        invariant
            i <= nodes.len(),
            views == json_views(nodes@),
            views.len() == nodes@.len(),
            forall|j: int| 0 <= j < nodes@.len() ==> (#[trigger] views[j]) == nodes@[j]@,
            verdicts@.len() == i,
            forall|j: int| 0 <= j < i ==> verdicts@[j] == guard_holds(guard, views[j], params@),
        decreases nodes.len() - i,
    {
        let verdict = check_by(guard, &nodes[i], params);
        assert(verdict == guard_holds(guard, views[i as int], params@));
        verdicts.push(verdict);
        i += 1;
    }
    assert(verdicts@ =~= verdicts_of(guard, views, params@));
    verdicts
}

/// The violation that `rule` raises on the artifact at `file_path` for a
/// value whose text is `actual_value`.
pub fn violation_of(rule: &Rule, file_path: &str, actual_value: String) -> (violation: Violation)
    ensures
        violation@ == violation_with(rule@, file_path@, actual_value@),
{
    let message = match &rule.description {
        Some(text) => text.clone(),
        None => "Rule violation".to_owned(),
    };
    Violation {
        rule_id: rule.id.clone(),
        file: file_path.to_owned(),
        message,
        severity: rule.severity,
        actual_value: Some(actual_value),
    }
}

/// The values that a check's target locates, or `None`, with a diagnostic,
/// where the target does not parse.
fn locate<'a>(
    check: &Validation,
    root: &'a serde_json::Value,
    rule_id: &str,
    diagnostics: &mut Vec<Diagnostic>,
) -> (r: Option<Vec<&'a serde_json::Value>>)
    ensures
        r is Some == path_parses(check@.target),
        r matches Some(nodes) ==> values_json(nodes@) == path_nodes(
            check@.target,
            value_json(*root),
        ),
        diagnostic_views(final(diagnostics)@) == diagnostic_views(old(diagnostics)@) + (
        if path_parses(check@.target) {
            Seq::empty()
        } else {
            seq![invalid_path(rule_id@, check@.target)]
        }),
{
    match query_path(check.target.as_str(), root) {
        Ok(nodes) => {
            assert(diagnostic_views(diagnostics@) =~= diagnostic_views(old(diagnostics)@)
                + Seq::<DiagnosticView>::empty());
            Some(nodes)
        },
        Err(reason) => {
            diagnostics.push(
                Diagnostic::InvalidPath {
                    rule_id: rule_id.to_owned(),
                    target: check.target.clone(),
                    reason,
                },
            );
            assert(diagnostic_views(diagnostics@) =~= diagnostic_views(old(diagnostics)@)
                + seq![invalid_path(rule_id@, check@.target)]);
            None
        },
    }
}

/// Reads each located value.
fn read_nodes(nodes: &Vec<&serde_json::Value>) -> (read: Vec<Json>)
    ensures
        json_views(read@) == values_json(nodes@),
{
    let mut read: Vec<Json> = Vec::new();
    let mut i: usize = 0;
    while i < nodes.len()
        invariant
            i <= nodes.len(),
            read@.len() == i,
            forall|j: int| 0 <= j < i ==> (#[trigger] read@[j])@ == value_json(*nodes@[j]),
        decreases nodes.len() - i,
    {
        read.push(read_value(nodes[i]));
        i += 1;
    }
    proof {
        lemma_json_views(read@);
        assert(json_views(read@) =~= values_json(nodes@));
    }
    read
}

/// Notes an unknown guard once for each of `count` located values.
fn note_unknown_guard(
    guard: Guard,
    check: &Validation,
    rule_id: &str,
    count: usize,
    diagnostics: &mut Vec<Diagnostic>,
)
    ensures
        diagnostic_views(final(diagnostics)@) == diagnostic_views(old(diagnostics)@) + (if guard
            == Guard::Unknown {
            unknown_guard_diagnostics(rule_id@, check@.guard, count as nat)
        } else {
            Seq::empty()
        }),
{
    let ghost start = diagnostic_views(diagnostics@);
    match guard {
        Guard::Unknown => {
            let mut i: usize = 0;
            assert(diagnostic_views(diagnostics@) =~= start + unknown_guard_diagnostics(
                rule_id@,
                check@.guard,
                0,
            ));
            while i < count
                invariant
                    i <= count,
                    diagnostic_views(diagnostics@) == start + unknown_guard_diagnostics(
                        rule_id@,
                        check@.guard,
                        i as nat,
                    ),
                decreases count - i,
            {
                let ghost before = diagnostics@;
                let note = Diagnostic::UnknownGuard {
                    rule_id: rule_id.to_owned(),
                    guard: check.guard.clone(),
                };
                diagnostics.push(note);
                assert(diagnostic_views(diagnostics@) =~= diagnostic_views(before).push(note@));
                assert(diagnostic_views(before).len() == start.len() + i);
                assert(diagnostic_views(diagnostics@) =~= start + unknown_guard_diagnostics(
                    rule_id@,
                    check@.guard,
                    (i + 1) as nat,
                ));
                i += 1;
            }
        },
        _ => {
            assert(start + Seq::<DiagnosticView>::empty() =~= start);
        },
    }
}

fn condition_outcome(
    check: &Validation,
    root: &serde_json::Value,
    rule_id: &str,
    diagnostics: &mut Vec<Diagnostic>,
) -> (met: bool)
    ensures
        met == condition_met(check@, value_json(*root)),
        diagnostic_views(final(diagnostics)@) == diagnostic_views(old(diagnostics)@)
            + check_diagnostics(rule_id@, check@, value_json(*root)),
{
    let nodes = match locate(check, root, rule_id, diagnostics) {
        Some(nodes) => nodes,
        None => {
            return false;
        },
    };
    let guard = Guard::parse(check.guard.as_str());
    let params = read_value(&check.params);
    let read = read_nodes(&nodes);
    note_unknown_guard(guard, check, rule_id, nodes.len(), diagnostics);
    precondition_met(guard, &read, &params)
}

/// Whether a precondition is met on a document.
pub fn evaluate_condition(validation: &Validation, root: &serde_json::Value) -> (met: bool)
    ensures
        met == condition_met(validation@, value_json(*root)),
{
    let mut diagnostics: Vec<Diagnostic> = Vec::new();
    condition_outcome(validation, root, "", &mut diagnostics)
}

proof fn lemma_violations_among_step(rule: RuleView, file: Seq<char>, nodes: Seq<JsonView>, i: int)
    requires
        0 <= i < nodes.len(),
    ensures
        violations_among(rule, file, nodes.take(i + 1)) == if guard_holds(
            Guard::named(rule.validate.guard),
            nodes[i],
            rule.validate.params,
        ) {
            violations_among(rule, file, nodes.take(i))
        } else {
            violations_among(rule, file, nodes.take(i)).push(violation_for(rule, file, nodes[i]))
        },
{
    reveal(Seq::filter);
    let fails = |node: JsonView|
        !guard_holds(Guard::named(rule.validate.guard), node, rule.validate.params);
    let raise = |node: JsonView| violation_for(rule, file, node);
    assert(nodes.take(i + 1).drop_last() =~= nodes.take(i));
    assert(nodes.take(i + 1).last() == nodes[i]);
    if fails(nodes[i]) {
        assert(nodes.take(i + 1).filter(fails) == nodes.take(i).filter(fails).push(nodes[i]));
        assert(nodes.take(i).filter(fails).push(nodes[i]).map_values(raise) =~= nodes.take(
            i,
        ).filter(fails).map_values(raise).push(raise(nodes[i])));
    } else {
        assert(nodes.take(i + 1).filter(fails) == nodes.take(i).filter(fails));
    }
}

pub(crate) fn evaluate_rule_into(
    rule: &Rule,
    root: &serde_json::Value,
    file_path: &str,
    violations: &mut Vec<Violation>,
    diagnostics: &mut Vec<Diagnostic>,
)
    ensures
        violation_views(final(violations)@) == violation_views(old(violations)@) + rule_violations(
            rule@,
            value_json(*root),
            file_path@,
        ),
        diagnostic_views(final(diagnostics)@) == diagnostic_views(old(diagnostics)@)
            + rule_diagnostics(rule@, value_json(*root)),
{
    let ghost doc = value_json(*root);
    let ghost found = violation_views(violations@);
    let ghost noted = diagnostic_views(diagnostics@);
    let check = &rule.validate;
    let rule_id = rule.id.as_str();
    match &rule.when {
        Some(when) => {
            if !condition_outcome(when, root, rule_id, diagnostics) {
                assert(found + Seq::<ViolationView>::empty() =~= found);
                assert(check_diagnostics(rule@.id, when@, doc) + Seq::<DiagnosticView>::empty()
                    =~= check_diagnostics(rule@.id, when@, doc));
                return ;
            }
        },
        None => {},
    }
    let nodes = match locate(check, root, rule_id, diagnostics) {
        Some(nodes) => nodes,
        None => {
            assert(found + Seq::<ViolationView>::empty() =~= found);
            assert(diagnostic_views(diagnostics@) =~= noted + rule_diagnostics(rule@, doc));
            return ;
        },
    };
    let ghost located = path_nodes(check@.target, doc);
    let guard = Guard::parse(check.guard.as_str());
    let params = read_value(&check.params);
    let read = read_nodes(&nodes);
    note_unknown_guard(guard, check, rule_id, nodes.len(), diagnostics);
    assert(diagnostic_views(diagnostics@) =~= noted + rule_diagnostics(rule@, doc));
    let verdicts = check_all(guard, &read, &params);
    proof {
        reveal(Seq::filter);
        lemma_json_views(read@);
        assert(located.take(0) =~= Seq::<JsonView>::empty());
        assert(violations_among(rule@, file_path@, located.take(0)) =~= Seq::<
            ViolationView,
        >::empty());
        assert(found + Seq::<ViolationView>::empty() =~= found);
    }
    let mut i: usize = 0;
    while i < nodes.len()
        invariant
            i <= nodes.len(),
            check == &rule.validate,
            guard == Guard::named(check@.guard),
            located == values_json(nodes@),
            located == json_views(read@),
            read@.len() == nodes@.len(),
            verdicts@ == verdicts_of(guard, located, check@.params),
            violation_views(violations@) == found + violations_among(
                rule@,
                file_path@,
                located.take(i as int),
            ),
        decreases nodes.len() - i,
    {
        proof {
            lemma_json_views(read@);
            lemma_violations_among_step(rule@, file_path@, located, i as int);
        }
        if !verdicts[i] {
            let ghost before = violations@;
            let violation = violation_of(
                rule,
                file_path,
                actual_value_text(guard, nodes[i], &read[i]),
            );
            assert(violation@ == violation_for(rule@, file_path@, located[i as int]));
            violations.push(violation);
            assert(violation_views(violations@) =~= violation_views(before).push(violation@));
            assert(violation_views(violations@) =~= found + violations_among(
                rule@,
                file_path@,
                located.take(i + 1),
            ));
        }
        i += 1;
    }
    assert(located.take(i as int) =~= located);
}

/// Evaluates one rule against one document: the violations of the main
/// check, and the diagnostics that arose.
pub fn evaluate_rule(rule: &Rule, root: &serde_json::Value, file_path: &str) -> (out: Outcome)
    ensures
        violation_views(out.violations@) == rule_violations(rule@, value_json(*root), file_path@),
        diagnostic_views(out.diagnostics@) == rule_diagnostics(rule@, value_json(*root)),
{
    let mut violations: Vec<Violation> = Vec::new();
    let mut diagnostics: Vec<Diagnostic> = Vec::new();
    evaluate_rule_into(rule, root, file_path, &mut violations, &mut diagnostics);
    assert(violation_views(violations@) =~= rule_violations(rule@, value_json(*root), file_path@));
    assert(diagnostic_views(diagnostics@) =~= rule_diagnostics(rule@, value_json(*root)));
    Outcome { violations, diagnostics }
}

/// The violations of one rule against one document.
pub fn check_rule(rule: &Rule, root: &serde_json::Value, file_path: &str) -> (violations: Vec<
    Violation,
>)
    ensures
        violation_views(violations@) == rule_violations(rule@, value_json(*root), file_path@),
{
    evaluate_rule(rule, root, file_path).violations
}

} // verus!
