//! What holds of the engine as a whole, proved from the definitions that the
//! contracts use.

use crate::config::{AssetMatcherView, RuleView};
use crate::engine::{
    all_pass, condition_met, matcher_accepts, rule_proceeds, rule_violations, some_name_is,
    violation_for, violations_among, ViolationView,
};
use crate::guards::{guard_holds, Guard};
use crate::json::{
    double_key, double_le, double_scaled, is_nan, magnitude, number_le, shift, significand,
    JsonView, Number, SIGN_BIT,
};
use crate::location::{folder_of, is_name, names_of, pieces};
use crate::orchestrator::document_violations;
use crate::outside::{path_nodes, path_parses};
use crate::text::{ascii_fold, eq_ignoring_ascii_case};
use vstd::arithmetic::power2::{
    lemma2_to64, lemma_pow2_pos, lemma_pow2_strictly_increases, lemma_pow2_unfold, pow2,
};
use vstd::prelude::*;

verus! {

/// Whether `node` is of the kind that `guard` works on: a string for
/// `PatternMatch`, `AllowedValues` and `StringLength`, a number for `Range`,
/// an array for `Count`. `Exists` and an unknown guard take every kind.
pub open spec fn takes_kind(guard: Guard, node: JsonView) -> bool {
    match guard {
        Guard::PatternMatch | Guard::AllowedValues | Guard::StringLength => node is String,
        Guard::Range => node is Number,
        Guard::Count => node is Array,
        Guard::Exists | Guard::Unknown => true,
    }
}

/// A guard fails every value of a kind that it does not work on, whatever
/// its parameters.
pub proof fn lemma_wrong_kind_fails(guard: Guard, node: JsonView, params: JsonView)
    requires
        !takes_kind(guard, node),
    ensures
        !guard_holds(guard, node, params),
{
}

/// An unknown guard passes every value.
pub proof fn lemma_unknown_guard_passes(node: JsonView, params: JsonView)
    ensures
        guard_holds(Guard::Unknown, node, params),
{
}

/// Without `should_exist`, or with it true, `Exists` holds exactly of the
/// values that are not null; with it false, exactly of null.
pub proof fn lemma_exists_by_null(node: JsonView, params: JsonView)
    ensures
        guard_holds(Guard::Exists, node, params) == (crate::guards::bool_param(
            params,
            "should_exist"@,
            true,
        ) != (node is Null)),
{
}

proof fn lemma_none_fail(rule: RuleView, file: Seq<char>, nodes: Seq<JsonView>)
    requires
        all_pass(Guard::named(rule.validate.guard), nodes, rule.validate.params),
    ensures
        violations_among(rule, file, nodes) == Seq::<ViolationView>::empty(),
    decreases nodes.len(),
{
    reveal(Seq::filter);
    let fails = |node: JsonView|
        !guard_holds(Guard::named(rule.validate.guard), node, rule.validate.params);
    if nodes.len() > 0 {
        assert forall|i: int| 0 <= i < nodes.drop_last().len() implies guard_holds(
            Guard::named(rule.validate.guard),
            #[trigger] nodes.drop_last()[i],
            rule.validate.params,
        ) by {
            assert(nodes.drop_last()[i] == nodes[i]);
        }
        lemma_none_fail(rule, file, nodes.drop_last());
        assert(!fails(nodes.last()));
        assert(nodes.filter(fails) == nodes.drop_last().filter(fails));
    } else {
        assert(nodes.filter(fails) =~= Seq::<JsonView>::empty());
    }
    assert(violations_among(rule, file, nodes) =~= Seq::<ViolationView>::empty());
}

/// A rule whose precondition is not met raises no violation, whatever its
/// main check would find.
pub proof fn lemma_unmet_precondition_skips(rule: RuleView, doc: JsonView, file: Seq<char>)
    requires
        rule.when matches Some(when) && !condition_met(when, doc),
    ensures
        rule_violations(rule, doc, file) == Seq::<ViolationView>::empty(),
{
}

/// A rule whose precondition locates no value is skipped: it raises no
/// violation, whatever its main check would find.
pub proof fn lemma_empty_precondition_skips(rule: RuleView, doc: JsonView, file: Seq<char>)
    requires
        rule.when matches Some(when) && path_nodes(when.target, doc).len() == 0,
    ensures
        !rule_proceeds(rule, doc),
        rule_violations(rule, doc, file) == Seq::<ViolationView>::empty(),
{
}

/// A rule whose target, in the precondition or in the main check, is no
/// JSONPath expression raises no violation.
pub proof fn lemma_invalid_path_skips(rule: RuleView, doc: JsonView, file: Seq<char>)
    requires
        !path_parses(rule.validate.target) || (rule.when matches Some(when) && !path_parses(
            when.target,
        )),
    ensures
        rule_violations(rule, doc, file) == Seq::<ViolationView>::empty(),
{
}

/// A main check that locates no value raises no violation.
pub proof fn lemma_nothing_located_nothing_raised(rule: RuleView, doc: JsonView, file: Seq<char>)
    requires
        path_nodes(rule.validate.target, doc).len() == 0,
    ensures
        rule_violations(rule, doc, file) == Seq::<ViolationView>::empty(),
{
    lemma_none_fail(rule, file, path_nodes(rule.validate.target, doc));
}

/// A rule whose main check names an unknown guard raises no violation.
pub proof fn lemma_unknown_guard_raises_nothing(rule: RuleView, doc: JsonView, file: Seq<char>)
    requires
        Guard::named(rule.validate.guard) == Guard::Unknown,
    ensures
        rule_violations(rule, doc, file) == Seq::<ViolationView>::empty(),
{
    lemma_none_fail(rule, file, path_nodes(rule.validate.target, doc));
}

/// Whether `violation` is what `rule` raises for one of the values that its
/// main check locates in `doc` and that fails the guard.
pub open spec fn raised_for_a_failure(
    rule: RuleView,
    doc: JsonView,
    file: Seq<char>,
    violation: ViolationView,
) -> bool {
    exists|k: int|
        0 <= k < path_nodes(rule.validate.target, doc).len() && !guard_holds(
            Guard::named(rule.validate.guard),
            #[trigger] path_nodes(rule.validate.target, doc)[k],
            rule.validate.params,
        ) && violation == violation_for(rule, file, path_nodes(rule.validate.target, doc)[k])
}

/// Every violation of a rule is raised for a located value that fails the
/// guard: it carries the rule's identifier, severity and message, the
/// artifact's location, and that value's text. There are at most as many
/// violations as located values.
pub proof fn lemma_violations_come_from_failures(rule: RuleView, doc: JsonView, file: Seq<char>)
    ensures
        rule_violations(rule, doc, file).len() <= path_nodes(rule.validate.target, doc).len(),
        forall|i: int|
            0 <= i < rule_violations(rule, doc, file).len() ==> raised_for_a_failure(
                rule,
                doc,
                file,
                #[trigger] rule_violations(rule, doc, file)[i],
            ),
{
    let nodes = path_nodes(rule.validate.target, doc);
    let fails = |node: JsonView|
        !guard_holds(Guard::named(rule.validate.guard), node, rule.validate.params);
    let failing = nodes.filter(fails);
    nodes.lemma_filter_len(fails);
    assert forall|i: int| 0 <= i < rule_violations(rule, doc, file).len() implies raised_for_a_failure(
        rule,
        doc,
        file,
        #[trigger] rule_violations(rule, doc, file)[i],
    ) by {
        nodes.lemma_filter_pred(fails, i);
        assert(fails(failing[i]));
        nodes.lemma_filter_contains_rev(fails, failing[i]);
        let k = choose|k: int| 0 <= k < nodes.len() && nodes[k] == failing[i];
        assert(nodes[k] == failing[i]);
    }
}

/// Evaluation has no hidden state: two evaluations of one rule set against
/// one document of one artifact give the same violations.
pub proof fn lemma_evaluation_is_repeatable(
    rules: Seq<RuleView>,
    doc: JsonView,
    file: Seq<char>,
    first: Seq<ViolationView>,
    second: Seq<ViolationView>,
)
    requires
        first == document_violations(rules, doc, file),
        second == document_violations(rules, doc, file),
    ensures
        first == second,
{
}

/// Equality up to ASCII case is an equivalence: it holds of every text and
/// itself, both ways round, and along chains.
pub proof fn lemma_ascii_case_equivalence(a: Seq<char>, b: Seq<char>, c: Seq<char>)
    ensures
        eq_ignoring_ascii_case(a, a),
        eq_ignoring_ascii_case(a, b) == eq_ignoring_ascii_case(b, a),
        eq_ignoring_ascii_case(a, b) && eq_ignoring_ascii_case(b, c) ==> eq_ignoring_ascii_case(
            a,
            c,
        ),
{
    if eq_ignoring_ascii_case(a, b) {
        assert forall|i: int| 0 <= i < b.len() implies ascii_fold(#[trigger] b[i]) == ascii_fold(
            a[i],
        ) by {
            assert(ascii_fold(a[i]) == ascii_fold(b[i]));
        }
        if eq_ignoring_ascii_case(b, c) {
            assert forall|i: int| 0 <= i < a.len() implies ascii_fold(#[trigger] a[i])
                == ascii_fold(c[i]) by {
                assert(ascii_fold(b[i]) == ascii_fold(c[i]));
            }
        }
    }
    if eq_ignoring_ascii_case(b, a) {
        assert forall|i: int| 0 <= i < a.len() implies ascii_fold(#[trigger] a[i]) == ascii_fold(
            b[i],
        ) by {
            assert(ascii_fold(b[i]) == ascii_fold(a[i]));
        }
    }
}

/// A matcher does not tell apart two folder names that differ in the case
/// of ASCII letters only.
pub proof fn lemma_matcher_ignores_ascii_case(
    matcher: AssetMatcherView,
    folder: Seq<char>,
    other: Seq<char>,
)
    requires
        eq_ignoring_ascii_case(folder, other),
    ensures
        matcher_accepts(matcher, folder) == matcher_accepts(matcher, other),
{
    match matcher {
        AssetMatcherView::Single(name) => {
            lemma_ascii_case_equivalence(folder, other, name);
            lemma_ascii_case_equivalence(other, folder, name);
        },
        AssetMatcherView::List(names) => {
            if some_name_is(names, folder) {
                let i = choose|i: int|
                    0 <= i < names.len() && eq_ignoring_ascii_case(folder, #[trigger] names[i]);
                lemma_ascii_case_equivalence(other, folder, names[i]);
                lemma_ascii_case_equivalence(folder, other, names[i]);
                assert(eq_ignoring_ascii_case(other, names[i]));
            }
            if some_name_is(names, other) {
                let i = choose|i: int|
                    0 <= i < names.len() && eq_ignoring_ascii_case(other, #[trigger] names[i]);
                lemma_ascii_case_equivalence(folder, other, names[i]);
                assert(eq_ignoring_ascii_case(folder, names[i]));
            }
        },
    }
}

/// A matcher over two names accepts a folder exactly where the folder is,
/// up to ASCII case, one of the two: either of them, and no other.
pub proof fn lemma_two_names_accept_either(first: Seq<char>, second: Seq<char>, folder: Seq<char>)
    ensures
        matcher_accepts(AssetMatcherView::List(seq![first, second]), folder) == (
        eq_ignoring_ascii_case(folder, first) || eq_ignoring_ascii_case(folder, second)),
{
    let names = seq![first, second];
    assert(names[0] == first);
    assert(names[1] == second);
    if some_name_is(names, folder) {
        let i = choose|i: int|
            0 <= i < names.len() && eq_ignoring_ascii_case(folder, #[trigger] names[i]);
        assert(i == 0 || i == 1);
    }
}

/// Whether `name` can stand between two separators: it names something and
/// holds no `/`.
pub open spec fn is_plain_name(name: Seq<char>) -> bool {
    is_name(name) && forall|i: int| 0 <= i < name.len() ==> name[i] != '/'
}

proof fn lemma_pieces_of_tail(prefix: Seq<char>, tail: Seq<char>)
    requires
        forall|i: int| 0 <= i < tail.len() ==> tail[i] != '/',
    ensures
        pieces(prefix + seq!['/'] + tail) == pieces(prefix).push(tail),
        pieces(tail) == seq![tail],
    decreases tail.len(),
{
    if tail.len() == 0 {
        assert(tail =~= Seq::<char>::empty());
        assert((prefix + seq!['/'] + tail).drop_last() =~= prefix);
    } else {
        let shorter = tail.drop_last();
        lemma_pieces_of_tail(prefix, shorter);
        assert((prefix + seq!['/'] + tail).drop_last() =~= prefix + seq!['/'] + shorter);
        assert((prefix + seq!['/'] + tail).last() == tail.last());
        assert(shorter.push(tail.last()) =~= tail);
        assert(pieces(prefix).push(shorter).drop_last() =~= pieces(prefix));
        assert(seq![shorter].drop_last().push(shorter.push(tail.last())) =~= seq![tail]);
    }
}

proof fn lemma_names_of_tail(prefix: Seq<char>, tail: Seq<char>)
    requires
        is_plain_name(tail),
    ensures
        names_of(prefix + seq!['/'] + tail) == names_of(prefix).push(tail),
        names_of(tail) == seq![tail],
{
    reveal(Seq::filter);
    lemma_pieces_of_tail(prefix, tail);
    let keep = |piece: Seq<char>| is_name(piece);
    assert(pieces(prefix).push(tail).drop_last() =~= pieces(prefix));
    assert(seq![tail].drop_last() =~= Seq::<Seq<char>>::empty());
    assert(Seq::<Seq<char>>::empty().filter(keep) =~= Seq::<Seq<char>>::empty());
    assert(seq![tail].filter(keep) =~= seq![tail]);
}

/// A file that lies directly in a folder has that folder as its containing
/// folder, whatever path leads to the folder; a bare file name has none.
pub proof fn lemma_folder_of_file_in_folder(prefix: Seq<char>, folder: Seq<char>, file: Seq<char>)
    requires
        is_plain_name(folder),
        is_plain_name(file),
        folder != seq!['.', '.'],
    ensures
        folder_of(prefix + seq!['/'] + folder + seq!['/'] + file) == Some(folder),
        folder_of(folder + seq!['/'] + file) == Some(folder),
        folder_of(file) is None,
{
    lemma_names_of_tail(prefix, folder);
    lemma_names_of_tail(prefix + seq!['/'] + folder, file);
    lemma_names_of_tail(folder, file);
}

/// On bit patterns that stand for numbers, `double_le` is a total preorder:
/// every number is at most itself, of two numbers one is at most the other,
/// and the order carries along chains. A pattern that stands for no number
/// is in order with nothing.
pub proof fn lemma_double_order(a: u64, b: u64, c: u64)
    ensures
        !is_nan(a) ==> double_le(a, a),
        !is_nan(a) && !is_nan(b) ==> double_le(a, b) || double_le(b, a),
        double_le(a, b) && double_le(b, c) ==> double_le(a, c),
        is_nan(a) ==> !double_le(a, b) && !double_le(b, a),
{
}

proof fn lemma_scaled_increases(x: u64, y: u64)
    requires
        x < y < SIGN_BIT,
    ensures
        0 <= double_scaled(x) < double_scaled(y),
{
    let unit: int = 0x10_0000_0000_0000;
    let (e1, f1) = (x as int / unit, x as int % unit);
    let (e2, f2) = (y as int / unit, y as int % unit);
    let (m1, m2) = (significand(x), significand(y));
    let (p1, p2) = (pow2(shift(x)) as int, pow2(shift(y)) as int);
    lemma_pow2_pos(shift(x));
    lemma_pow2_pos(shift(y));
    assert(magnitude(x) == x && magnitude(y) == y);
    assert(m1 * p1 >= 0) by (nonlinear_arith)
        requires
            m1 >= 0,
            p1 > 0,
    ;
    if e1 == e2 {
        assert(m1 * p1 < m2 * p2) by (nonlinear_arith)
            requires
                m1 < m2,
                p1 == p2,
                p1 > 0,
        ;
    } else if e1 == 0 {
        lemma2_to64();
        assert(m1 * p1 < m2 * p2) by (nonlinear_arith)
            requires
                p1 == 1,
                m1 < unit,
                m2 >= unit,
                p2 >= 1,
                unit > 0,
        ;
    } else {
        lemma_pow2_unfold(shift(x) + 1);
        if shift(x) + 1 < shift(y) {
            lemma_pow2_strictly_increases(shift(x) + 1, shift(y));
        }
        assert(m1 * p1 < m2 * p2) by (nonlinear_arith)
            requires
                m1 < 2 * unit,
                m2 >= unit,
                p2 >= 2 * p1,
                p1 > 0,
                unit > 0,
        ;
    }
}

/// `double_le` is the order of the values: one double is at most another
/// exactly where its value is. Both zeros have the value 0.
pub proof fn lemma_double_order_is_value_order(a: u64, b: u64)
    requires
        !is_nan(a),
        !is_nan(b),
    ensures
        double_le(a, b) == (double_scaled(a) <= double_scaled(b)),
{
    let x = magnitude(a) as u64;
    let y = magnitude(b) as u64;
    assert(significand(a) == significand(x) && shift(a) == shift(x));
    assert(significand(b) == significand(y) && shift(b) == shift(y));
    assert(double_scaled(0) == 0) by {
        assert(significand(0) == 0);
        assert(0 * pow2(shift(0)) == 0) by (nonlinear_arith);
    }
    if x < y {
        lemma_scaled_increases(x, y);
    }
    if y < x {
        lemma_scaled_increases(y, x);
    }
    if 0 < x {
        lemma_scaled_increases(0, x);
    }
    if 0 < y {
        lemma_scaled_increases(0, y);
    }
    assert(double_key(a) == if a < SIGN_BIT {
        x as int
    } else {
        -(x as int)
    });
    assert(double_scaled(a) == if a < SIGN_BIT {
        double_scaled(x)
    } else {
        -double_scaled(x)
    });
    assert(double_scaled(b) == if b < SIGN_BIT {
        double_scaled(y)
    } else {
        -double_scaled(y)
    });
}

/// The value of a number, times 2^1074: of its integer reading where it has
/// one, else of its double reading where that stands for a number.
pub open spec fn number_scaled(n: Number) -> Option<int> {
    match n.integer() {
        Some(i) => Some(i * pow2(1074)),
        None => match n.float_bits {
            Some(bits) => if is_nan(bits) {
                None
            } else {
                Some(double_scaled(bits))
            },
            None => None,
        },
    }
}

/// `number_le` is the order of the values: of two numbers that have a
/// value, one is at most the other exactly where its value is. No rounding
/// takes part, whichever readings the two numbers have.
pub proof fn lemma_number_order_is_value_order(a: Number, b: Number)
    requires
        number_scaled(a) is Some,
        number_scaled(b) is Some,
    ensures
        number_le(a, b) == (number_scaled(a)->0 <= number_scaled(b)->0),
{
    let c = pow2(1074) as int;
    lemma_pow2_pos(1074);
    match (a.integer(), b.integer()) {
        (Some(x), Some(y)) => {
            assert((x <= y) == (x * c <= y * c)) by (nonlinear_arith)
                requires
                    c > 0,
            ;
        },
        (None, None) => {
            lemma_double_order_is_value_order(a.float_bits->0, b.float_bits->0);
        },
        _ => {},
    }
}

} // verus!
