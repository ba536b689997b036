//! What a report needs from the results: counts by severity, the flat list of
//! violations, and whether the run failed.

use crate::config::Severity;
use crate::engine::{violation_views, FileResult, FileResultView, Violation, ViolationView};
use crate::orchestrator::result_views;
use vstd::prelude::*;

verus! {

/// How many of `violations` have the severity `severity`.
pub open spec fn count_of(violations: Seq<ViolationView>, severity: Severity) -> nat {
    violations.filter(|v: ViolationView| v.severity == severity).len()
}

/// How many violations of the severity `severity` all of `results` hold.
pub open spec fn total_of(results: Seq<FileResultView>, severity: Severity) -> nat
    decreases results.len(),
{
    if results.len() == 0 {
        0
    } else {
        total_of(results.drop_last(), severity) + count_of(results.last().violations, severity)
    }
}

/// All violations of `results`, file by file.
pub open spec fn flattened(results: Seq<FileResultView>) -> Seq<ViolationView>
    decreases results.len(),
{
    if results.len() == 0 {
        Seq::empty()
    } else {
        flattened(results.drop_last()) + results.last().violations
    }
}

/// The totals of a run.
#[derive(Debug, Clone, Copy, PartialEq, Eq)]
pub struct Summary {
    /// How many artifacts were evaluated.
    pub scanned: usize,
    /// How many violations of severity `Error` were found.
    pub errors: u128,
    /// How many violations of severity `Warning` were found.
    pub warnings: u128,
}

/// How many of `violations` have the severity `severity`.
pub fn count_severity(violations: &Vec<Violation>, severity: Severity) -> (n: usize)
    ensures
        n == count_of(violation_views(violations@), severity),
{
    let ghost views = violation_views(violations@);
    let ghost wanted = |v: ViolationView| v.severity == severity;
    let mut n: usize = 0;
    let mut i: usize = 0;
    proof {
        reveal(Seq::filter);
        assert(views.take(0) =~= Seq::<ViolationView>::empty());
    }
    while i < violations.len()
        invariant
            i <= violations.len(),
            views == violation_views(violations@),
            wanted == (|v: ViolationView| v.severity == severity),
            n == views.take(i as int).filter(wanted).len(),
            n <= i,
        decreases violations.len() - i,
    {
        proof {
            reveal(Seq::filter);
            assert(views.take(i + 1).drop_last() =~= views.take(i as int));
            assert(views.take(i + 1).last() == violations@[i as int]@);
        }
        if violations[i].severity == severity {
            n += 1;
        }
        i += 1;
    }
    assert(views.take(i as int) =~= views);
    n
}

/// The totals of a run.
pub fn summarize(results: &Vec<FileResult>) -> (summary: Summary)
    ensures
        summary.scanned == results@.len(),
        summary.errors == total_of(result_views(results@), Severity::Error),
        summary.warnings == total_of(result_views(results@), Severity::Warning),
{
    let ghost views = result_views(results@);
    let mut errors: u128 = 0;
    let mut warnings: u128 = 0;
    let mut i: usize = 0;
    assert(views.take(0) =~= Seq::<FileResultView>::empty());
    while i < results.len()
        invariant
            i <= results.len(),
            views == result_views(results@),
            errors == total_of(views.take(i as int), Severity::Error),
            warnings == total_of(views.take(i as int), Severity::Warning),
            errors <= i * 0x1_0000_0000_0000_0000,
            warnings <= i * 0x1_0000_0000_0000_0000,
        decreases results.len() - i,
    {
        proof {
            assert(views.take(i + 1).drop_last() =~= views.take(i as int));
            assert(views.take(i + 1).last() == results@[i as int]@);
        }
        let e = count_severity(&results[i].violations, Severity::Error);
        let w = count_severity(&results[i].violations, Severity::Warning);
        errors = errors + e as u128;
        warnings = warnings + w as u128;
        i += 1;
    }
    assert(views.take(i as int) =~= views);
    Summary { scanned: results.len(), errors, warnings }
}

/// Whether the run failed: some violation has severity `Error`.
pub fn has_errors(results: &Vec<FileResult>) -> (failed: bool)
    ensures
        failed == holds_severity(result_views(results@), Severity::Error),
{
    proof {
        lemma_total_positive(result_views(results@), Severity::Error);
    }
    summarize(results).errors > 0
}

/// The exit code that a run ends with: 1 where some violation has severity
/// `Error`, else 0.
pub fn exit_code(results: &Vec<FileResult>) -> (code: i32)
    ensures
        code == if holds_severity(result_views(results@), Severity::Error) {
            1i32
        } else {
            0i32
        },
{
    if has_errors(results) {
        1
    } else {
        0
    }
}

/// The values of a sequence of borrowed violations.
pub open spec fn borrowed_views(violations: Seq<&Violation>) -> Seq<ViolationView> {
    Seq::new(violations.len(), |i: int| (*violations[i])@)
}

/// All violations of `results`, file by file.
pub fn all_violations(results: &Vec<FileResult>) -> (all: Vec<&Violation>)
    ensures
        borrowed_views(all@) == flattened(result_views(results@)),
{
    let ghost views = result_views(results@);
    let mut all: Vec<&Violation> = Vec::new();
    let mut i: usize = 0;
    assert(views.take(0) =~= Seq::<FileResultView>::empty());
    assert(borrowed_views(all@) =~= Seq::<ViolationView>::empty());
    while i < results.len()
        invariant
            i <= results.len(),
            views == result_views(results@),
            borrowed_views(all@) == flattened(views.take(i as int)),
        decreases results.len() - i,
    {
        let violations = &results[i].violations;
        let ghost before = borrowed_views(all@);
        let mut j: usize = 0;
        assert(violation_views(violations@).take(0) =~= Seq::<ViolationView>::empty());
        assert(before + Seq::<ViolationView>::empty() =~= before);
        while j < violations.len()
            invariant
                j <= violations.len(),
                borrowed_views(all@) == before + violation_views(violations@).take(j as int),
            decreases violations.len() - j,
        {
            let ghost earlier = all@;
            all.push(&violations[j]);
            assert(borrowed_views(all@) =~= borrowed_views(earlier).push(violations@[j as int]@));
            assert(violation_views(violations@).take(j + 1) =~= violation_views(violations@).take(
                j as int,
            ).push(violations@[j as int]@));
            j += 1;
        }
        proof {
            assert(violation_views(violations@).take(j as int) =~= violation_views(violations@));
            assert(views.take(i + 1).drop_last() =~= views.take(i as int));
            assert(views.take(i + 1).last() == results@[i as int]@);
        }
        i += 1;
    }
    assert(views.take(i as int) =~= views);
    all
}

/// Whether some violation in `results` has the severity `severity`.
pub open spec fn holds_severity(results: Seq<FileResultView>, severity: Severity) -> bool {
    exists|i: int, j: int|
        0 <= i < results.len() && 0 <= j < results[i].violations.len() && (
        #[trigger] results[i].violations[j]).severity == severity
}

proof fn lemma_count_positive(violations: Seq<ViolationView>, severity: Severity)
    ensures
        (count_of(violations, severity) > 0) == (exists|j: int|
            0 <= j < violations.len() && (#[trigger] violations[j]).severity == severity),
{
    let wanted = |v: ViolationView| v.severity == severity;
    let kept = violations.filter(wanted);
    if kept.len() > 0 {
        violations.lemma_filter_pred(wanted, 0);
        violations.lemma_filter_contains_rev(wanted, kept[0]);
        let j = choose|j: int| 0 <= j < violations.len() && violations[j] == kept[0];
        assert(violations[j].severity == severity);
    }
    if exists|j: int| 0 <= j < violations.len() && (#[trigger] violations[j]).severity == severity {
        let j = choose|j: int|
            0 <= j < violations.len() && (#[trigger] violations[j]).severity == severity;
        violations.lemma_filter_contains(wanted, j);
        assert(kept.contains(violations[j]));
    }
}

/// The total for a severity is positive exactly where some violation has
/// that severity: a run fails exactly where some violation is an error.
pub proof fn lemma_total_positive(results: Seq<FileResultView>, severity: Severity)
    ensures
        (total_of(results, severity) > 0) == holds_severity(results, severity),
    decreases results.len(),
{
    if results.len() > 0 {
        let rest = results.drop_last();
        lemma_total_positive(rest, severity);
        lemma_count_positive(results.last().violations, severity);
        if holds_severity(rest, severity) {
            let (i, j) = choose|i: int, j: int|
                0 <= i < rest.len() && 0 <= j < rest[i].violations.len() && (
                #[trigger] rest[i].violations[j]).severity == severity;
            assert(results[i].violations[j].severity == severity);
        }
        if count_of(results.last().violations, severity) > 0 {
            let j = choose|j: int|
                0 <= j < results.last().violations.len() && (
                #[trigger] results.last().violations[j]).severity == severity;
            assert(results[results.len() - 1].violations[j].severity == severity);
        }
        if holds_severity(results, severity) {
            let (i, j) = choose|i: int, j: int|
                0 <= i < results.len() && 0 <= j < results[i].violations.len() && (
                #[trigger] results[i].violations[j]).severity == severity;
            if i < rest.len() {
                assert(rest[i].violations[j].severity == severity);
            } else {
                assert(results.last().violations[j].severity == severity);
            }
        }
    }
}

} // verus!
