//! Match rules: for each comparison label, the metadata field and value that
//! put a sample into the case cohort, and those that put it into the control
//! cohort.

use vstd::prelude::*;

verus! {

/// The two tests of one comparison.
#[derive(Clone, Debug, PartialEq, Eq)]
pub struct MatchRule {
    pub case_field: String,
    pub case_value: String,
    pub control_field: String,
    pub control_value: String,
}

/// A `MatchRule` as plain text.
pub struct MatchRuleView {
    pub case_field: Seq<char>,
    pub case_value: Seq<char>,
    pub control_field: Seq<char>,
    pub control_value: Seq<char>,
}

impl View for MatchRule {
    type V = MatchRuleView;

    open spec fn view(&self) -> MatchRuleView {
        MatchRuleView {
            case_field: self.case_field@,
            case_value: self.case_value@,
            control_field: self.control_field@,
            control_value: self.control_value@,
        }
    }
}

/// A match rule under its comparison label.
#[derive(Clone, Debug, PartialEq, Eq)]
pub struct Comparison {
    pub label: String,
    pub rule: MatchRule,
}

/// A `Comparison` as plain text.
pub struct ComparisonView {
    pub label: Seq<char>,
    pub rule: MatchRuleView,
}

impl View for Comparison {
    type V = ComparisonView;

    open spec fn view(&self) -> ComparisonView {
        ComparisonView { label: self.label@, rule: self.rule@ }
    }
}

impl DeepView for Comparison {
    type V = ComparisonView;

    open spec fn deep_view(&self) -> ComparisonView {
        self@
    }
}

/// No label names two comparisons.
pub open spec fn distinct_labels(rules: Seq<ComparisonView>) -> bool {
    forall|i: int, j: int| 0 <= i < j < rules.len() ==> rules[i].label != rules[j].label
}

/// Some comparison of `rules` carries `label`.
pub open spec fn has_label(rules: Seq<ComparisonView>, label: Seq<char>) -> bool {
    exists|i: int| 0 <= i < rules.len() && rules[i].label == label
}

/// The rules after `entry` is given: where its label is known, the entry
/// stands in place of the comparison that carried the label; where it is
/// new, the entry is added at the end.
pub open spec fn with_rule(rules: Seq<ComparisonView>, entry: ComparisonView) -> Seq<
    ComparisonView,
> {
    if has_label(rules, entry.label) {
        Seq::new(
            rules.len(),
            |i: int|
                if rules[i].label == entry.label {
                    entry
                } else {
                    rules[i]
                },
        )
    } else {
        rules.push(entry)
    }
}

/// The comparisons of a run, in the order in which they were first named.
///
/// A rule set is a mapping: a label stands for one rule. Giving a label a
/// second rule replaces the first and keeps the label's place in the order.
pub struct RuleSet {
    entries: Vec<Comparison>,
}

impl View for RuleSet {
    type V = Seq<ComparisonView>;

    closed spec fn view(&self) -> Seq<ComparisonView> {
        self.entries.deep_view()
    }
}

impl RuleSet {
    #[verifier::type_invariant]
    spec fn well_formed(&self) -> bool {
        distinct_labels(self.entries.deep_view())
    }

    /// The rule set without any comparison.
    pub fn new() -> (rules: RuleSet)
        ensures
            rules@ == Seq::<ComparisonView>::empty(),
    {
        let rules = RuleSet { entries: Vec::new() };
        assert(rules.entries.deep_view() =~= Seq::<ComparisonView>::empty());
        rules
    }

    /// The number of comparisons.
    pub fn len(&self) -> (n: usize)
        ensures
            n == self@.len(),
            distinct_labels(self@),
    {
        proof {
            use_type_invariant(self);
        }
        self.entries.len()
    }

    /// The comparison at place `i` of the order.
    pub fn get(&self, i: usize) -> (entry: Option<&Comparison>)
        ensures
            match entry {
                Some(c) => i < self@.len() && c@ == self@[i as int],
                None => i >= self@.len(),
            },
    {
        if i < self.entries.len() {
            Some(&self.entries[i])
        } else {
            None
        }
    }

    /// The comparison at place `i` of the order, for a place that exists.
    pub(crate) fn at(&self, i: usize) -> (entry: &Comparison)
        requires
            i < self@.len(),
        ensures
            entry@ == self@[i as int],
    {
        &self.entries[i]
    }

    /// The place of the comparison that carries `label`.
    pub fn find(&self, label: &String) -> (place: Option<usize>)
        ensures
            match place {
                Some(i) => i < self@.len() && self@[i as int].label == label@,
                None => !has_label(self@, label@),
            },
    {
        find_label(&self.entries, label)
    }

    /// Gives `label` the rule `rule`: in place where the label is known,
    /// at the end of the order where it is new.
    pub fn insert(&mut self, label: String, rule: MatchRule)
        ensures
            distinct_labels(final(self)@),
            final(self)@ == with_rule(
                old(self)@,
                ComparisonView { label: label@, rule: rule@ },
            ),
    {
        proof {
            use_type_invariant(&*self);
        }
        let ghost before = self.entries.deep_view();
        let ghost entry = ComparisonView { label: label@, rule: rule@ };
        let mut entries: Vec<Comparison> = Vec::new();
        assert(entries.deep_view() =~= Seq::<ComparisonView>::empty());
        core::mem::swap(&mut self.entries, &mut entries);
        match find_label(&entries, &label) {
            Some(i) => {
                entries[i] = Comparison { label, rule };
                assert(has_label(before, entry.label)) by {
                    assert(before[i as int].label == entry.label);
                }
                assert forall|k: int| 0 <= k < before.len() && k != i implies before[k].label
                    != entry.label by {
                    if k < i {
                        assert(before[k].label != before[i as int].label);
                    } else {
                        assert(before[i as int].label != before[k].label);
                    }
                }
                assert(entries.deep_view() =~= with_rule(before, entry));
            },
            None => {
                entries.push(Comparison { label, rule });
                assert(entries.deep_view() =~= with_rule(before, entry));
                assert forall|k: int| 0 <= k < before.len() implies before[k].label
                    != entry.label by {
                    if before[k].label == entry.label {
                        assert(has_label(before, entry.label));
                    }
                }
            },
        }
        self.entries = entries;
    }
}

/// The place of the first entry that carries `label`.
fn find_label(entries: &Vec<Comparison>, label: &String) -> (place: Option<usize>)
    ensures
        match place {
            Some(i) => i < entries.len() && entries.deep_view()[i as int].label == label@,
            None => !has_label(entries.deep_view(), label@),
        },
{
    let mut i: usize = 0;
    while i < entries.len()
        invariant
            i <= entries.len(),
            forall|k: int| 0 <= k < i ==> entries.deep_view()[k].label != label@,
        decreases entries.len() - i,
    {
        if entries[i].label == *label {
            return Some(i);
        }
        i += 1;
    }
    None
}

} // verus!
