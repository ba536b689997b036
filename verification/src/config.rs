//! The rule model: what a rule set holds once it is loaded.

use crate::json::JsonView;
use crate::outside::value_json;
use vstd::prelude::*;

verus! {

/// How much a violation weighs. `Error` outranks `Warning`; only errors
/// make a run fail.
#[derive(Debug, Clone, Copy, PartialEq, Eq, Structural)]
pub enum Severity {
    Error,
    Warning,
}

impl Default for Severity {
    fn default() -> (s: Severity)
        ensures
            s == Severity::Error,
    {
        Severity::Error
    }
}

impl Severity {
    /// The severity's name.
    pub open spec fn label_view(self) -> Seq<char> {
        match self {
            Severity::Error => "Error"@,
            Severity::Warning => "Warning"@,
        }
    }

    /// The severity's name.
    pub fn label(&self) -> (s: &'static str)
        ensures
            s@ == self.label_view(),
    {
        match self {
            Severity::Error => "Error",
            Severity::Warning => "Warning",
        }
    }

    /// Whether this is the severity that makes a run fail.
    pub fn is_error(&self) -> (r: bool)
        ensures
            r == (*self == Severity::Error),
    {
        match self {
            Severity::Error => true,
            Severity::Warning => false,
        }
    }
}

/// Which artifacts a rule applies to, by the name of the folder that holds
/// them.
#[derive(Debug, Clone)]
pub enum AssetMatcher {
    /// One folder name.
    Single(String),
    /// Any of several folder names.
    List(Vec<String>),
}

/// The mathematical value of an [`AssetMatcher`].
pub enum AssetMatcherView {
    Single(Seq<char>),
    List(Seq<Seq<char>>),
}

/// The texts of a sequence of strings.
pub open spec fn string_views(names: Seq<String>) -> Seq<Seq<char>> {
    Seq::new(names.len(), |i: int| names[i]@)
}

impl View for AssetMatcher {
    type V = AssetMatcherView;

    open spec fn view(&self) -> AssetMatcherView {
        match self {
            AssetMatcher::Single(name) => AssetMatcherView::Single(name@),
            AssetMatcher::List(names) => AssetMatcherView::List(string_views(names@)),
        }
    }
}

/// One check: where to look, which guard to apply, and the guard's
/// parameters.
#[derive(Debug)]
pub struct Validation {
    /// A JSONPath expression.
    pub target: String,
    /// The guard's name.
    pub guard: String,
    /// The guard's parameters, as they stand in the rule file.
    pub params: serde_json::Value,
}

/// The mathematical value of a [`Validation`].
pub struct ValidationView {
    pub target: Seq<char>,
    pub guard: Seq<char>,
    pub params: JsonView,
}

impl View for Validation {
    type V = ValidationView;

    open spec fn view(&self) -> ValidationView {
        ValidationView { target: self.target@, guard: self.guard@, params: value_json(self.params) }
    }
}

/// A rule.
#[derive(Debug)]
pub struct Rule {
    pub id: String,
    pub asset: AssetMatcher,
    pub description: Option<String>,
    pub severity: Severity,
    /// The precondition: where it is not met, the rule is skipped.
    pub when: Option<Validation>,
    /// The main check.
    pub validate: Validation,
}

/// The mathematical value of a [`Rule`].
pub struct RuleView {
    pub id: Seq<char>,
    pub asset: AssetMatcherView,
    pub description: Option<Seq<char>>,
    pub severity: Severity,
    pub when: Option<ValidationView>,
    pub validate: ValidationView,
}

impl View for Rule {
    type V = RuleView;

    open spec fn view(&self) -> RuleView {
        RuleView {
            id: self.id@,
            asset: self.asset@,
            description: match self.description {
                Some(text) => Some(text@),
                None => None,
            },
            severity: self.severity,
            when: match self.when {
                Some(validation) => Some(validation@),
                None => None,
            },
            validate: self.validate@,
        }
    }
}

/// A rule set, in declaration order.
#[derive(Debug)]
pub struct Config {
    pub rules: Vec<Rule>,
}

/// The values of a sequence of rules.
pub open spec fn rule_views(rules: Seq<Rule>) -> Seq<RuleView> {
    Seq::new(rules.len(), |i: int| rules[i]@)
}

impl View for Config {
    type V = Seq<RuleView>;

    open spec fn view(&self) -> Seq<RuleView> {
        rule_views(self.rules@)
    }
}

} // verus!
