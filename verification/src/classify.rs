//! The cohort classifier: from match rules and sample metadata to the case
//! and control cohorts of every comparison.

use vstd::prelude::*;
use vstd::string::StringExecFns;
use crate::columns::ColumnLookup;
use crate::metadata::{Record, SAMPLE_FIELD};
use crate::rules::{ComparisonView, MatchRule, MatchRuleView, RuleSet};
use crate::text::{decimal, decimal_text};

verus! {

/// The samples of one comparison: the identifiers of its case cohort and of
/// its control cohort, each in the order of the metadata records.
///
/// A cohort is a list, not a set: an identifier that two records carry
/// occurs twice, and a sample that passes both tests is in both cohorts.
#[derive(Clone, Debug, PartialEq, Eq)]
pub struct CohortAssignment {
    pub label: String,
    pub case: Vec<String>,
    pub control: Vec<String>,
}

/// A `CohortAssignment` as plain text.
pub struct CohortAssignmentView {
    pub label: Seq<char>,
    pub case: Seq<Seq<char>>,
    pub control: Seq<Seq<char>>,
}

impl View for CohortAssignment {
    type V = CohortAssignmentView;

    open spec fn view(&self) -> CohortAssignmentView {
        CohortAssignmentView {
            label: self.label@,
            case: self.case.deep_view(),
            control: self.control.deep_view(),
        }
    }
}

impl DeepView for CohortAssignment {
    type V = CohortAssignmentView;

    open spec fn deep_view(&self) -> CohortAssignmentView {
        self@
    }
}

/// Why a metadata record cannot be classified.
#[derive(Clone, Debug, PartialEq, Eq)]
pub enum SchemaError {
    /// The record has no sample identifier field.
    MissingSample,
    /// The record lacks `field`, which the rule of comparison `label` tests.
    MissingField { label: String, field: String },
}

/// A `SchemaError` as plain text.
pub enum SchemaErrorView {
    MissingSample,
    MissingField { label: Seq<char>, field: Seq<char> },
}

impl View for SchemaError {
    type V = SchemaErrorView;

    open spec fn view(&self) -> SchemaErrorView {
        match self {
            SchemaError::MissingSample => SchemaErrorView::MissingSample,
            SchemaError::MissingField { label, field } => SchemaErrorView::MissingField {
                label: label@,
                field: field@,
            },
        }
    }
}

impl SchemaError {
    /// The text of the message.
    pub open spec fn text(fault: SchemaErrorView) -> Seq<char> {
        match fault {
            SchemaErrorView::MissingSample => "Metadata record has no field "@ + SAMPLE_FIELD@,
            SchemaErrorView::MissingField { label, field } => "Metadata record has no field "@
                + field + ", which comparison "@ + label + " tests"@,
        }
    }

    /// A message for the operator, which names the missing field and, for
    /// a field that a rule tests, the comparison of that rule.
    pub fn message(&self) -> (text: String)
        ensures
            text@ == Self::text(self@),
    {
        let mut text = String::from_str("Metadata record has no field ");
        match self {
            SchemaError::MissingSample => {
                text.append(SAMPLE_FIELD);
            },
            SchemaError::MissingField { label, field } => {
                text.append(field.as_str());
                text.append(", which comparison ");
                text.append(label.as_str());
                text.append(" tests");
            },
        }
        text
    }
}

/// The record describes a sample that the matrix has a column for: its
/// identifier is not empty and names a column.
pub open spec fn takes_part(record: Map<Seq<char>, Seq<char>>, columns: Seq<Seq<char>>) -> bool {
    &&& record.contains_key(SAMPLE_FIELD@)
    &&& record[SAMPLE_FIELD@].len() > 0
    &&& columns.contains(record[SAMPLE_FIELD@])
}

/// The record holds `value` in `field`.
pub open spec fn passes(record: Map<Seq<char>, Seq<char>>, field: Seq<char>, value: Seq<char>) -> bool {
    record.contains_key(field) && record[field] == value
}

/// The record's sample enters the cohort whose test is `field` = `value`.
pub open spec fn joins(
    record: Map<Seq<char>, Seq<char>>,
    columns: Seq<Seq<char>>,
    field: Seq<char>,
    value: Seq<char>,
) -> bool {
    takes_part(record, columns) && passes(record, field, value)
}

/// The first field that `rule` tests and `record` lacks: the case field
/// before the control field.
pub open spec fn missing_field(rule: MatchRuleView, record: Map<Seq<char>, Seq<char>>) -> Option<
    Seq<char>,
> {
    if !record.contains_key(rule.case_field) {
        Some(rule.case_field)
    } else if !record.contains_key(rule.control_field) {
        Some(rule.control_field)
    } else {
        None
    }
}

/// Comparison `i` is the first whose rule tests a field that `record` lacks.
pub open spec fn first_incomplete(
    rules: Seq<ComparisonView>,
    record: Map<Seq<char>, Seq<char>>,
    i: int,
) -> bool {
    &&& 0 <= i < rules.len()
    &&& missing_field(rules[i].rule, record) is Some
    &&& forall|j: int| 0 <= j < i ==> missing_field(#[trigger] rules[j].rule, record) is None
}

/// The record can be classified: it has a sample identifier, and where its
/// sample takes part it has every field that a rule tests. A record whose
/// sample does not take part is passed over, whatever else it holds.
pub open spec fn accepted(
    rules: Seq<ComparisonView>,
    record: Map<Seq<char>, Seq<char>>,
    columns: Seq<Seq<char>>,
) -> bool {
    &&& record.contains_key(SAMPLE_FIELD@)
    &&& takes_part(record, columns) ==> forall|i: int|
        0 <= i < rules.len() ==> missing_field(#[trigger] rules[i].rule, record) is None
}

/// The first comparison whose rule tests a field that `record` lacks
/// carries `label`, and `field` is the first such field of its rule.
pub open spec fn first_missing_field(
    rules: Seq<ComparisonView>,
    record: Map<Seq<char>, Seq<char>>,
    label: Seq<char>,
    field: Seq<char>,
) -> bool {
    exists|i: int|
        first_incomplete(rules, record, i) && #[trigger] rules[i].label == label && missing_field(
            rules[i].rule,
            record,
        ) == Some(field)
}

/// `fault` is what is wrong with a record that cannot be classified: the
/// missing sample identifier, or else the first missing field of the first
/// comparison that lacks one.
pub open spec fn is_fault(
    rules: Seq<ComparisonView>,
    record: Map<Seq<char>, Seq<char>>,
    columns: Seq<Seq<char>>,
    fault: SchemaErrorView,
) -> bool {
    match fault {
        SchemaErrorView::MissingSample => !record.contains_key(SAMPLE_FIELD@),
        SchemaErrorView::MissingField { label, field } => takes_part(record, columns)
            && first_missing_field(rules, record, label, field),
    }
}

/// One cohort assignment after one more record: the record's sample is
/// appended to the case cohort if it passes the case test, and to the
/// control cohort if it passes the control test, each test by itself.
pub open spec fn extended(
    cohort: CohortAssignmentView,
    rule: MatchRuleView,
    record: Map<Seq<char>, Seq<char>>,
    columns: Seq<Seq<char>>,
) -> CohortAssignmentView {
    CohortAssignmentView {
        label: cohort.label,
        case: if joins(record, columns, rule.case_field, rule.case_value) {
            cohort.case.push(record[SAMPLE_FIELD@])
        } else {
            cohort.case
        },
        control: if joins(record, columns, rule.control_field, rule.control_value) {
            cohort.control.push(record[SAMPLE_FIELD@])
        } else {
            cohort.control
        },
    }
}

/// The cohort whose test is `field` = `value`: the sample identifiers of the
/// records that join it, in the order of the records.
pub open spec fn members(
    records: Seq<Map<Seq<char>, Seq<char>>>,
    columns: Seq<Seq<char>>,
    field: Seq<char>,
    value: Seq<char>,
) -> Seq<Seq<char>>
    decreases records.len(),
{
    if records.len() == 0 {
        Seq::empty()
    } else {
        let earlier = members(records.drop_last(), columns, field, value);
        if joins(records.last(), columns, field, value) {
            earlier.push(records.last()[SAMPLE_FIELD@])
        } else {
            earlier
        }
    }
}

/// The cohorts before any record is read: one assignment per comparison,
/// each with two empty cohorts.
pub open spec fn unclassified(rules: Seq<ComparisonView>) -> Seq<CohortAssignmentView> {
    Seq::new(
        rules.len(),
        |i: int|
            CohortAssignmentView {
                label: rules[i].label,
                case: Seq::empty(),
                control: Seq::empty(),
            },
    )
}

/// The cohorts of every comparison of `rules`, in the order of the rules.
pub open spec fn classified(
    rules: Seq<ComparisonView>,
    records: Seq<Map<Seq<char>, Seq<char>>>,
    columns: Seq<Seq<char>>,
) -> Seq<CohortAssignmentView> {
    Seq::new(
        rules.len(),
        |i: int|
            CohortAssignmentView {
                label: rules[i].label,
                case: members(records, columns, rules[i].rule.case_field, rules[i].rule.case_value),
                control: members(
                    records,
                    columns,
                    rules[i].rule.control_field,
                    rules[i].rule.control_value,
                ),
            },
    )
}

/// A rule set in the course of classification, with the cohorts that the
/// records seen so far have given it.
///
/// Its view is the sequence of cohort assignments, one per comparison and in
/// the order of the rule set.
pub struct Classifier {
    rules: RuleSet,
    cohorts: Vec<CohortAssignment>,
}

impl View for Classifier {
    type V = Seq<CohortAssignmentView>;

    closed spec fn view(&self) -> Seq<CohortAssignmentView> {
        self.cohorts.deep_view()
    }
}

/// Whether `record` holds `value` in `field`.
fn holds(record: &Record, field: &String, value: &String) -> (held: bool)
    ensures
        held == passes(record@, field@, value@),
{
    match record.get(field.as_str()) {
        Some(text) => *text == *value,
        None => false,
    }
}

/// Appends `id` to each cohort whose test the record passes.
fn extend(cohort: &mut CohortAssignment, rule: &MatchRule, record: &Record, id: &String)
    ensures
        final(cohort)@.label == old(cohort)@.label,
        final(cohort)@.case == if passes(record@, rule@.case_field, rule@.case_value) {
            old(cohort)@.case.push(id@)
        } else {
            old(cohort)@.case
        },
        final(cohort)@.control == if passes(record@, rule@.control_field, rule@.control_value) {
            old(cohort)@.control.push(id@)
        } else {
            old(cohort)@.control
        },
{
    let ghost before = cohort@;
    if holds(record, &rule.case_field, &rule.case_value) {
        cohort.case.push(id.clone());
        assert(cohort.case.deep_view() =~= before.case.push(id@));
    }
    if holds(record, &rule.control_field, &rule.control_value) {
        cohort.control.push(id.clone());
        assert(cohort.control.deep_view() =~= before.control.push(id@));
    }
}

impl Classifier {
    #[verifier::type_invariant]
    spec fn well_formed(&self) -> bool {
        &&& self.cohorts.len() == self.rules@.len()
        &&& forall|i: int|
            0 <= i < self.cohorts.len() ==> (#[trigger] self.cohorts.deep_view()[i]).label
                == self.rules@[i].label
    }

    /// The rules that the classifier applies.
    pub closed spec fn rules(&self) -> Seq<ComparisonView> {
        self.rules@
    }

    /// A classifier that has seen no record: every cohort is empty.
    pub fn new(rules: RuleSet) -> (classifier: Classifier)
        ensures
            classifier.rules() == rules@,
            classifier@ == unclassified(rules@),
    {
        let mut cohorts: Vec<CohortAssignment> = Vec::new();
        let n: usize = rules.len();
        let mut i: usize = 0;
        while i < n
            invariant
                i <= n,
                n == rules@.len(),
                cohorts.len() == i,
                forall|k: int|
                    0 <= k < i ==> #[trigger] cohorts.deep_view()[k] == (CohortAssignmentView {
                        label: rules@[k].label,
                        case: Seq::empty(),
                        control: Seq::empty(),
                    }),
            decreases n - i,
        {
            let label = rules.at(i).label.clone();
            let cohort = CohortAssignment { label, case: Vec::new(), control: Vec::new() };
            assert(cohort.case.deep_view() =~= Seq::<Seq<char>>::empty());
            assert(cohort.control.deep_view() =~= Seq::<Seq<char>>::empty());
            let ghost earlier = cohorts.deep_view();
            cohorts.push(cohort);
            assert(cohorts.deep_view() =~= earlier.push(cohort@));
            i += 1;
        }
        assert(cohorts.deep_view() =~= unclassified(rules@));
        Classifier { rules, cohorts }
    }

    /// Classifies one more record.
    ///
    /// A record without a sample identifier is refused. A record whose
    /// sample identifier is empty or names no column of the matrix is passed
    /// over. Otherwise the record must hold every field that a rule tests,
    /// and its sample is appended to each cohort whose test it passes.
    #[verifier::loop_isolation(false)]
    pub fn add_record(self, record: &Record, columns: &ColumnLookup) -> (result: Result<
        Classifier,
        SchemaError,
    >)
        ensures
            result is Ok <==> accepted(self.rules(), record@, columns@),
            match result {
                Ok(next) => {
                    &&& next.rules() == self.rules()
                    &&& next@.len() == self@.len()
                    &&& forall|i: int|
                        0 <= i < self@.len() ==> #[trigger] next@[i] == extended(
                            self@[i],
                            self.rules()[i].rule,
                            record@,
                            columns@,
                        )
                },
                Err(fault) => is_fault(self.rules(), record@, columns@, fault@),
            },
    {
        proof {
            use_type_invariant(&self);
        }
        let id = match record.get(SAMPLE_FIELD) {
            Some(id) => id,
            None => {
                return Err(SchemaError::MissingSample);
            },
        };
        if id.as_str().is_empty() || !columns.contains(id.as_str()) {
            return Ok(self);
        }
        let ghost before = self@;
        let ghost applied = self.rules();
        let Classifier { rules, mut cohorts } = self;
        let n: usize = rules.len();
        let mut i: usize = 0;
        while i < n
            invariant
                i <= n,
                n == rules@.len(),
                rules@ == applied,
                takes_part(record@, columns@),
                forall|k: int|
                    0 <= k < i ==> missing_field(#[trigger] rules@[k].rule, record@) is None,
            decreases n - i,
        {
            let comparison = rules.at(i);
            assert(rules@[i as int].label == comparison.label@);
            if record.get(comparison.rule.case_field.as_str()).is_none() {
                assert(first_incomplete(rules@, record@, i as int));
                return Err(
                    SchemaError::MissingField {
                        label: comparison.label.clone(),
                        field: comparison.rule.case_field.clone(),
                    },
                );
            }
            if record.get(comparison.rule.control_field.as_str()).is_none() {
                assert(first_incomplete(rules@, record@, i as int));
                return Err(
                    SchemaError::MissingField {
                        label: comparison.label.clone(),
                        field: comparison.rule.control_field.clone(),
                    },
                );
            }
            i += 1;
        }
        let mut i: usize = 0;
        while i < n
            invariant
                i <= n,
                n == rules@.len(),
                cohorts.len() == n,
                before.len() == n,
                id@ == record@[SAMPLE_FIELD@],
                takes_part(record@, columns@),
                forall|k: int|
                    0 <= k < i ==> #[trigger] cohorts.deep_view()[k] == extended(
                        before[k],
                        rules@[k].rule,
                        record@,
                        columns@,
                    ),
                forall|k: int| i <= k < n ==> #[trigger] cohorts.deep_view()[k] == before[k],
            decreases n - i,
        {
            let ghost earlier = cohorts.deep_view();
            let ghost unchanged = cohorts@;
            assert(earlier[i as int] == cohorts[i as int]@);
            extend(&mut cohorts[i], &rules.at(i).rule, record, id);
            assert(cohorts.deep_view()[i as int] == cohorts[i as int]@);
            assert forall|k: int| 0 <= k < n && k != i implies #[trigger] cohorts.deep_view()[k]
                == earlier[k] by {
                assert(cohorts[k] == unchanged[k]);
            }
            i += 1;
        }
        Ok(Classifier { rules, cohorts })
    }

    /// The cohorts, one assignment per comparison.
    pub fn finish(self) -> (cohorts: Vec<CohortAssignment>)
        ensures
            cohorts.deep_view() == self@,
            cohorts.len() == self.rules().len(),
            forall|i: int|
                0 <= i < cohorts.len() ==> (#[trigger] cohorts.deep_view()[i]).label
                    == self.rules()[i].label,
    {
        proof {
            use_type_invariant(&self);
        }
        let Classifier { rules: _, cohorts } = self;
        cohorts
    }
}

/// The record at place `record` of a batch cannot be classified, and why.
#[derive(Clone, Debug, PartialEq, Eq)]
pub struct ClassifyError {
    pub record: usize,
    pub fault: SchemaError,
}

impl ClassifyError {
    /// The text of the message.
    pub open spec fn text(record: usize, fault: SchemaErrorView) -> Seq<char> {
        "Metadata record "@ + decimal(record as nat) + ": "@ + SchemaError::text(fault)
    }

    /// A message for the operator: the place of the record, counted from
    /// zero, and its fault.
    pub fn message(&self) -> (text: String)
        ensures
            text@ == Self::text(self.record, self.fault@),
    {
        let mut text = String::from_str("Metadata record ");
        text.append(decimal_text(self.record).as_str());
        text.append(": ");
        text.append(self.fault.message().as_str());
        text
    }
}

/// Classifies `records` in their order under `rules`.
///
/// The first record that cannot be classified ends the work: no cohort is
/// returned then, only the place of that record and its fault.
#[verifier::loop_isolation(false)]
pub fn classify(rules: RuleSet, records: &Vec<Record>, columns: &ColumnLookup) -> (result: Result<
    Vec<CohortAssignment>,
    ClassifyError,
>)
    ensures
        result is Ok <==> forall|k: int|
            0 <= k < records.len() ==> accepted(rules@, #[trigger] records.deep_view()[k], columns@),
        match result {
            Ok(cohorts) => cohorts.deep_view() == classified(
                rules@,
                records.deep_view(),
                columns@,
            ),
            Err(error) => {
                &&& error.record < records.len()
                &&& forall|k: int|
                    0 <= k < error.record ==> accepted(
                        rules@,
                        #[trigger] records.deep_view()[k],
                        columns@,
                    )
                &&& is_fault(
                    rules@,
                    records.deep_view()[error.record as int],
                    columns@,
                    error.fault@,
                )
            },
        },
{
    let ghost applied = rules@;
    let ghost all = records.deep_view();
    let mut classifier = Classifier::new(rules);
    proof {
        lemma_no_record(applied, columns@);
        assert(all.take(0) =~= Seq::empty());
    }
    let mut k: usize = 0;
    while k < records.len()
        invariant
            k <= records.len(),
            all == records.deep_view(),
            classifier.rules() == applied,
            classifier@ == classified(applied, all.take(k as int), columns@),
            forall|j: int| 0 <= j < k ==> accepted(applied, #[trigger] all[j], columns@),
        decreases records.len() - k,
    {
        assert(all[k as int] == records[k as int]@);
        match classifier.add_record(&records[k], columns) {
            Ok(next) => {
                proof {
                    assert(all.take(k + 1) =~= all.take(k as int).push(all[k as int]));
                    assert forall|i: int| 0 <= i < applied.len() implies #[trigger] next@[i]
                        == classified(applied, all.take(k + 1), columns@)[i] by {
                        lemma_one_more_record(
                            applied,
                            all.take(k as int),
                            all[k as int],
                            columns@,
                            i,
                        );
                    }
                    assert(next@ =~= classified(applied, all.take(k + 1), columns@));
                }
                classifier = next;
            },
            Err(fault) => {
                return Err(ClassifyError { record: k, fault });
            },
        }
        k += 1;
    }
    assert(all.take(k as int) =~= all);
    Ok(classifier.finish())
}

/// Before any record is read every cohort is empty, whatever the columns.
pub proof fn lemma_no_record(rules: Seq<ComparisonView>, columns: Seq<Seq<char>>)
    ensures
        classified(rules, Seq::empty(), columns) == unclassified(rules),
{
    assert(classified(rules, Seq::empty(), columns) =~= unclassified(rules));
}

/// A record is either accepted or has a fault, never both.
pub proof fn lemma_accepted_or_fault(
    rules: Seq<ComparisonView>,
    record: Map<Seq<char>, Seq<char>>,
    columns: Seq<Seq<char>>,
)
    ensures
        accepted(rules, record, columns) <==> !exists|fault: SchemaErrorView|
            is_fault(rules, record, columns, fault),
{
    if accepted(rules, record, columns) {
        assert forall|fault: SchemaErrorView| !is_fault(rules, record, columns, fault) by {
            if is_fault(rules, record, columns, fault) {
                match fault {
                    SchemaErrorView::MissingSample => {},
                    SchemaErrorView::MissingField { label, field } => {
                        let i = choose|i: int|
                            first_incomplete(rules, record, i) && #[trigger] rules[i].label == label
                                && missing_field(rules[i].rule, record) == Some(field);
                        assert(missing_field(rules[i].rule, record) is None);
                    },
                }
            }
        }
    } else if !record.contains_key(SAMPLE_FIELD@) {
        assert(is_fault(rules, record, columns, SchemaErrorView::MissingSample));
    } else {
        let k = choose|k: int|
            0 <= k < rules.len() && !(missing_field(#[trigger] rules[k].rule, record) is None);
        lemma_first_incomplete(rules, record, k);
        let i = choose|i: int| first_incomplete(rules, record, i);
        let label = rules[i].label;
        let field = missing_field(rules[i].rule, record)->0;
        assert(first_missing_field(rules, record, label, field));
        assert(is_fault(rules, record, columns, SchemaErrorView::MissingField { label, field }));
    }
}

/// Below any comparison that lacks a field there is a first one.
proof fn lemma_first_incomplete(
    rules: Seq<ComparisonView>,
    record: Map<Seq<char>, Seq<char>>,
    k: int,
)
    requires
        0 <= k < rules.len(),
        missing_field(rules[k].rule, record) is Some,
    ensures
        exists|i: int| first_incomplete(rules, record, i),
    decreases k,
{
    if exists|j: int| 0 <= j < k && missing_field(#[trigger] rules[j].rule, record) is Some {
        let j = choose|j: int| 0 <= j < k && missing_field(#[trigger] rules[j].rule, record) is Some;
        lemma_first_incomplete(rules, record, j);
    } else {
        assert(first_incomplete(rules, record, k));
    }
}

/// A record has at most one fault.
pub proof fn lemma_fault_is_unique(
    rules: Seq<ComparisonView>,
    record: Map<Seq<char>, Seq<char>>,
    columns: Seq<Seq<char>>,
    first: SchemaErrorView,
    second: SchemaErrorView,
)
    requires
        is_fault(rules, record, columns, first),
        is_fault(rules, record, columns, second),
    ensures
        first == second,
{
    match (first, second) {
        (
            SchemaErrorView::MissingField { label: l1, field: f1 },
            SchemaErrorView::MissingField { label: l2, field: f2 },
        ) => {
            let i = choose|i: int|
                first_incomplete(rules, record, i) && #[trigger] rules[i].label == l1
                    && missing_field(rules[i].rule, record) == Some(f1);
            let j = choose|j: int|
                first_incomplete(rules, record, j) && #[trigger] rules[j].label == l2
                    && missing_field(rules[j].rule, record) == Some(f2);
            if i < j {
                assert(missing_field(rules[i].rule, record) is None);
            } else if j < i {
                assert(missing_field(rules[j].rule, record) is None);
            }
        },
        _ => {},
    }
}

/// One more record extends the cohorts of each comparison by itself.
pub proof fn lemma_one_more_record(
    rules: Seq<ComparisonView>,
    records: Seq<Map<Seq<char>, Seq<char>>>,
    record: Map<Seq<char>, Seq<char>>,
    columns: Seq<Seq<char>>,
    i: int,
)
    requires
        0 <= i < rules.len(),
    ensures
        classified(rules, records.push(record), columns)[i] == extended(
            classified(rules, records, columns)[i],
            rules[i].rule,
            record,
            columns,
        ),
{
    assert(records.push(record).drop_last() =~= records);
}

/// The two tests of a comparison are applied independently of each other:
/// a record's sample enters the case cohort exactly if the record passes the
/// case test, and the control cohort exactly if it passes the control test.
/// A sample that passes both ends up at the end of both cohorts.
pub proof fn lemma_tests_are_independent(
    rules: Seq<ComparisonView>,
    records: Seq<Map<Seq<char>, Seq<char>>>,
    record: Map<Seq<char>, Seq<char>>,
    columns: Seq<Seq<char>>,
    i: int,
)
    requires
        0 <= i < rules.len(),
        takes_part(record, columns),
    ensures
        ({
            let before = classified(rules, records, columns)[i];
            let after = classified(rules, records.push(record), columns)[i];
            let rule = rules[i].rule;
            let id = record[SAMPLE_FIELD@];
            &&& after.case == if passes(record, rule.case_field, rule.case_value) {
                before.case.push(id)
            } else {
                before.case
            }
            &&& after.control == if passes(record, rule.control_field, rule.control_value) {
                before.control.push(id)
            } else {
                before.control
            }
            &&& passes(record, rule.case_field, rule.case_value) && passes(
                record,
                rule.control_field,
                rule.control_value,
            ) ==> after.case.last() == id && after.control.last() == id
        }),
{
    lemma_one_more_record(rules, records, record, columns, i);
}

/// Every member of a cohort is the sample of a record that joined it, and
/// so names a column of the matrix.
pub proof fn lemma_members_joined(
    records: Seq<Map<Seq<char>, Seq<char>>>,
    columns: Seq<Seq<char>>,
    field: Seq<char>,
    value: Seq<char>,
)
    ensures
        forall|j: int|
            0 <= j < members(records, columns, field, value).len() ==> {
                let id = #[trigger] members(records, columns, field, value)[j];
                &&& id.len() > 0
                &&& columns.contains(id)
                &&& exists|k: int|
                    0 <= k < records.len() && joins(#[trigger] records[k], columns, field, value)
                        && records[k][SAMPLE_FIELD@] == id
            },
    decreases records.len(),
{
    if records.len() > 0 {
        let earlier = members(records.drop_last(), columns, field, value);
        lemma_members_joined(records.drop_last(), columns, field, value);
        assert forall|j: int| 0 <= j < members(records, columns, field, value).len() implies {
            let id = #[trigger] members(records, columns, field, value)[j];
            &&& id.len() > 0
            &&& columns.contains(id)
            &&& exists|k: int|
                0 <= k < records.len() && joins(#[trigger] records[k], columns, field, value)
                    && records[k][SAMPLE_FIELD@] == id
        } by {
            let id = members(records, columns, field, value)[j];
            if j < earlier.len() {
                assert(id == earlier[j]);
                let k = choose|k: int|
                    0 <= k < records.drop_last().len() && joins(
                        #[trigger] records.drop_last()[k],
                        columns,
                        field,
                        value,
                    ) && records.drop_last()[k][SAMPLE_FIELD@] == id;
                assert(records[k] == records.drop_last()[k]);
            } else {
                assert(records[records.len() - 1] == records.last());
            }
        }
    }
}

/// The sample of every record that joins a cohort is a member of it.
pub proof fn lemma_joining_sample_is_member(
    records: Seq<Map<Seq<char>, Seq<char>>>,
    columns: Seq<Seq<char>>,
    field: Seq<char>,
    value: Seq<char>,
    k: int,
)
    requires
        0 <= k < records.len(),
        joins(records[k], columns, field, value),
    ensures
        members(records, columns, field, value).contains(records[k][SAMPLE_FIELD@]),
    decreases records.len(),
{
    let all = members(records, columns, field, value);
    let earlier = members(records.drop_last(), columns, field, value);
    let id = records[k][SAMPLE_FIELD@];
    if k == records.len() - 1 {
        assert(all[all.len() - 1] == id);
    } else {
        assert(records.drop_last()[k] == records[k]);
        lemma_joining_sample_is_member(records.drop_last(), columns, field, value, k);
        let j = choose|j: int| 0 <= j < earlier.len() && earlier[j] == id;
        assert(all[j] == id);
    }
}

/// A sample whose identifier names no column of the matrix is in no cohort
/// of any comparison.
pub proof fn lemma_absent_sample_in_no_cohort(
    rules: Seq<ComparisonView>,
    records: Seq<Map<Seq<char>, Seq<char>>>,
    columns: Seq<Seq<char>>,
    id: Seq<char>,
)
    requires
        !columns.contains(id),
    ensures
        forall|i: int|
            0 <= i < rules.len() ==> {
                let cohort = #[trigger] classified(rules, records, columns)[i];
                !cohort.case.contains(id) && !cohort.control.contains(id)
            },
{
    assert forall|i: int| 0 <= i < rules.len() implies {
        let cohort = #[trigger] classified(rules, records, columns)[i];
        !cohort.case.contains(id) && !cohort.control.contains(id)
    } by {
        let rule = rules[i].rule;
        lemma_members_joined(records, columns, rule.case_field, rule.case_value);
        lemma_members_joined(records, columns, rule.control_field, rule.control_value);
    }
}

} // verus!
