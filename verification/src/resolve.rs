//! The index resolver: from the sample identifiers of each cohort to the
//! positions of their columns in the matrix.

use vstd::prelude::*;
use vstd::string::StringExecFns;
use crate::classify::{classified, lemma_members_joined, CohortAssignment, CohortAssignmentView};
use crate::columns::{first_position, is_first_position, lemma_first_position, ColumnLookup};
use crate::rules::ComparisonView;

verus! {

/// The columns of one comparison: for each sample of its case cohort and of
/// its control cohort, in the order of the cohort, the position of the
/// sample's column in the matrix.
#[derive(Clone, Debug, PartialEq, Eq)]
pub struct ColumnIndex {
    pub label: String,
    pub case: Vec<usize>,
    pub control: Vec<usize>,
}

/// A `ColumnIndex` as plain values.
pub struct ColumnIndexView {
    pub label: Seq<char>,
    pub case: Seq<usize>,
    pub control: Seq<usize>,
}

impl View for ColumnIndex {
    type V = ColumnIndexView;

    open spec fn view(&self) -> ColumnIndexView {
        ColumnIndexView { label: self.label@, case: self.case@, control: self.control@ }
    }
}

impl DeepView for ColumnIndex {
    type V = ColumnIndexView;

    open spec fn deep_view(&self) -> ColumnIndexView {
        self@
    }
}

/// The two cohorts of a comparison.
#[derive(Clone, Copy, Debug, PartialEq, Eq, Structural)]
pub enum Side {
    Case,
    Control,
}

/// A sample of a cohort has no column in the matrix.
#[derive(Clone, Debug, PartialEq, Eq)]
pub struct ResolutionError {
    /// The comparison whose cohort holds the sample.
    pub label: String,
    /// The cohort that holds it.
    pub side: Side,
    /// The sample identifier that names no column.
    pub identifier: String,
}

/// A `ResolutionError` as plain text.
pub struct ResolutionErrorView {
    pub label: Seq<char>,
    pub side: Side,
    pub identifier: Seq<char>,
}

impl View for ResolutionError {
    type V = ResolutionErrorView;

    open spec fn view(&self) -> ResolutionErrorView {
        ResolutionErrorView { label: self.label@, side: self.side, identifier: self.identifier@ }
    }
}

impl Side {
    /// The cohort's name in a message.
    pub open spec fn name(self) -> Seq<char> {
        match self {
            Side::Case => "case"@,
            Side::Control => "control"@,
        }
    }

    /// The cohort's name in a message.
    pub fn as_str(&self) -> (name: &'static str)
        ensures
            name@ == self.name(),
    {
        match self {
            Side::Case => "case",
            Side::Control => "control",
        }
    }
}

impl ResolutionError {
    /// The text of the message: the cohort, the identifier and the
    /// comparison.
    pub open spec fn text(error: ResolutionErrorView) -> Seq<char> {
        "Missing "@ + error.side.name() + " label "@ + error.identifier + " in comparison "@
            + error.label
    }

    /// A message for the operator, which names the identifier that has no
    /// column, its cohort and its comparison.
    pub fn message(&self) -> (text: String)
        ensures
            text@ == Self::text(self@),
    {
        let mut text = String::from_str("Missing ");
        text.append(self.side.as_str());
        text.append(" label ");
        text.append(self.identifier.as_str());
        text.append(" in comparison ");
        text.append(self.label.as_str());
        text
    }
}

/// Every identifier of `ids` names a column.
pub open spec fn all_present(ids: Seq<Seq<char>>, columns: Seq<Seq<char>>) -> bool {
    forall|i: int| 0 <= i < ids.len() ==> columns.contains(#[trigger] ids[i])
}

/// `positions` runs parallel to `ids`: its entry at each place is the
/// position of the first column named by the identifier at that place.
pub open spec fn resolves(
    ids: Seq<Seq<char>>,
    columns: Seq<Seq<char>>,
    positions: Seq<usize>,
) -> bool {
    &&& positions.len() == ids.len()
    &&& forall|i: int|
        0 <= i < ids.len() ==> is_first_position(columns, ids[i], #[trigger] positions[i] as int)
}

/// The identifier at place `k` is the first of `ids` that names no column.
pub open spec fn first_missing(ids: Seq<Seq<char>>, columns: Seq<Seq<char>>, k: int) -> bool {
    &&& 0 <= k < ids.len()
    &&& !columns.contains(ids[k])
    &&& forall|j: int| 0 <= j < k ==> columns.contains(#[trigger] ids[j])
}

/// Both cohorts of the assignment can be resolved.
pub open spec fn resolvable(cohort: CohortAssignmentView, columns: Seq<Seq<char>>) -> bool {
    all_present(cohort.case, columns) && all_present(cohort.control, columns)
}

/// `index` is the assignment `cohort` with each identifier resolved.
pub open spec fn resolved(
    cohort: CohortAssignmentView,
    columns: Seq<Seq<char>>,
    index: ColumnIndexView,
) -> bool {
    &&& index.label == cohort.label
    &&& resolves(cohort.case, columns, index.case)
    &&& resolves(cohort.control, columns, index.control)
}

/// `error` names the identifier at place `k` of a cohort of comparison `i`,
/// and that identifier is the first that cannot be resolved: no earlier
/// comparison has one, nor the case cohort where `error` names the control
/// cohort, nor an earlier place of the cohort itself.
pub open spec fn unresolved_at(
    cohorts: Seq<CohortAssignmentView>,
    columns: Seq<Seq<char>>,
    error: ResolutionErrorView,
    i: int,
    k: int,
) -> bool {
    &&& 0 <= i < cohorts.len()
    &&& forall|j: int| 0 <= j < i ==> resolvable(#[trigger] cohorts[j], columns)
    &&& cohorts[i].label == error.label
    &&& match error.side {
        Side::Case => {
            &&& first_missing(cohorts[i].case, columns, k)
            &&& cohorts[i].case[k] == error.identifier
        },
        Side::Control => {
            &&& all_present(cohorts[i].case, columns)
            &&& first_missing(cohorts[i].control, columns, k)
            &&& cohorts[i].control[k] == error.identifier
        },
    }
}

/// `error` names the first identifier that cannot be resolved: of the first
/// comparison that has one, in its case cohort before its control cohort,
/// and within the cohort the first in order.
pub open spec fn is_unresolved(
    cohorts: Seq<CohortAssignmentView>,
    columns: Seq<Seq<char>>,
    error: ResolutionErrorView,
) -> bool {
    exists|i: int, k: int| unresolved_at(cohorts, columns, error, i, k)
}

/// Resolves the identifiers of one cohort, in their order.
///
/// Where an identifier names no column, the place of the first such
/// identifier is returned instead.
pub fn resolve_cohort(ids: &Vec<String>, columns: &ColumnLookup) -> (result: Result<
    Vec<usize>,
    usize,
>)
    ensures
        result is Ok <==> all_present(ids.deep_view(), columns@),
        match result {
            Ok(positions) => resolves(ids.deep_view(), columns@, positions@),
            Err(k) => first_missing(ids.deep_view(), columns@, k as int),
        },
{
    let mut positions: Vec<usize> = Vec::new();
    let mut i: usize = 0;
    while i < ids.len()
        invariant
            i <= ids.len(),
            positions.len() == i,
            forall|j: int|
                0 <= j < i ==> is_first_position(
                    columns@,
                    ids.deep_view()[j],
                    #[trigger] positions@[j] as int,
                ),
            forall|j: int| 0 <= j < i ==> columns@.contains(#[trigger] ids.deep_view()[j]),
        decreases ids.len() - i,
    {
        assert(ids.deep_view()[i as int] == ids[i as int]@);
        match columns.position(ids[i].as_str()) {
            Some(p) => {
                positions.push(p);
            },
            None => {
                return Err(i);
            },
        }
        i += 1;
    }
    Ok(positions)
}

/// Resolves every cohort of every comparison against the columns of the
/// matrix. The order of the comparisons is kept, and within each cohort the
/// order of its samples.
pub fn resolve(cohorts: &Vec<CohortAssignment>, columns: &ColumnLookup) -> (result: Result<
    Vec<ColumnIndex>,
    ResolutionError,
>)
    ensures
        result is Ok <==> forall|i: int|
            0 <= i < cohorts.len() ==> resolvable(#[trigger] cohorts.deep_view()[i], columns@),
        match result {
            Ok(indexes) => {
                &&& indexes.len() == cohorts.len()
                &&& forall|i: int|
                    0 <= i < cohorts.len() ==> resolved(
                        cohorts.deep_view()[i],
                        columns@,
                        #[trigger] indexes.deep_view()[i],
                    )
            },
            Err(error) => is_unresolved(cohorts.deep_view(), columns@, error@),
        },
{
    let mut indexes: Vec<ColumnIndex> = Vec::new();
    let mut i: usize = 0;
    while i < cohorts.len()
        invariant
            i <= cohorts.len(),
            indexes.len() == i,
            forall|j: int|
                0 <= j < i ==> resolved(
                    cohorts.deep_view()[j],
                    columns@,
                    #[trigger] indexes.deep_view()[j],
                ),
            forall|j: int| 0 <= j < i ==> resolvable(#[trigger] cohorts.deep_view()[j], columns@),
        decreases cohorts.len() - i,
    {
        let cohort = &cohorts[i];
        assert(cohorts.deep_view()[i as int] == cohort@);
        let case = match resolve_cohort(&cohort.case, columns) {
            Ok(positions) => positions,
            Err(k) => {
                assert(cohort.case.deep_view()[k as int] == cohort.case[k as int]@);
                let error = ResolutionError {
                    label: cohort.label.clone(),
                    side: Side::Case,
                    identifier: cohort.case[k].clone(),
                };
                assert(unresolved_at(cohorts.deep_view(), columns@, error@, i as int, k as int));
                return Err(error);
            },
        };
        let control = match resolve_cohort(&cohort.control, columns) {
            Ok(positions) => positions,
            Err(k) => {
                assert(cohort.control.deep_view()[k as int] == cohort.control[k as int]@);
                let error = ResolutionError {
                    label: cohort.label.clone(),
                    side: Side::Control,
                    identifier: cohort.control[k].clone(),
                };
                assert(unresolved_at(cohorts.deep_view(), columns@, error@, i as int, k as int));
                return Err(error);
            },
        };
        let ghost earlier = indexes.deep_view();
        let index = ColumnIndex { label: cohort.label.clone(), case, control };
        indexes.push(index);
        assert(indexes.deep_view() =~= earlier.push(index@));
        i += 1;
    }
    Ok(indexes)
}

/// Cohorts are either all resolvable or have an unresolved identifier,
/// and the error that names it is the only one.
pub proof fn lemma_unresolved_is_unique(
    cohorts: Seq<CohortAssignmentView>,
    columns: Seq<Seq<char>>,
    first: ResolutionErrorView,
    second: ResolutionErrorView,
)
    requires
        is_unresolved(cohorts, columns, first),
        is_unresolved(cohorts, columns, second),
    ensures
        first == second,
        exists|i: int| 0 <= i < cohorts.len() && !resolvable(#[trigger] cohorts[i], columns),
{
    let (i, k) = choose|i: int, k: int| unresolved_at(cohorts, columns, first, i, k);
    let (j, m) = choose|j: int, m: int| unresolved_at(cohorts, columns, second, j, m);
    assert(unresolved_at(cohorts, columns, first, i, k));
    assert(unresolved_at(cohorts, columns, second, j, m));
    lemma_unresolved_cohort(cohorts, columns, first, i, k);
    lemma_unresolved_cohort(cohorts, columns, second, j, m);
    assert(i == j);
    if first.side != second.side {
        let case = cohorts[i].case;
        if first.side == Side::Case {
            assert(!columns.contains(case[k]));
        } else {
            assert(!columns.contains(case[m]));
        }
    }
    let ids = if first.side == Side::Case {
        cohorts[i].case
    } else {
        cohorts[i].control
    };
    assert(first_missing(ids, columns, k));
    assert(first_missing(ids, columns, m));
    if k < m {
        assert(columns.contains(ids[k]));
    } else if m < k {
        assert(columns.contains(ids[m]));
    }
}

/// The comparison that an error names cannot be resolved.
proof fn lemma_unresolved_cohort(
    cohorts: Seq<CohortAssignmentView>,
    columns: Seq<Seq<char>>,
    error: ResolutionErrorView,
    i: int,
    k: int,
)
    requires
        unresolved_at(cohorts, columns, error, i, k),
    ensures
        !resolvable(cohorts[i], columns),
{
    match error.side {
        Side::Case => {
            assert(!columns.contains(cohorts[i].case[k]));
        },
        Side::Control => {
            assert(!columns.contains(cohorts[i].control[k]));
        },
    }
}

/// Resolution is a function of the identifiers and the columns: two lists
/// of positions that both resolve the same identifiers are the same list.
pub proof fn lemma_resolution_is_unique(
    ids: Seq<Seq<char>>,
    columns: Seq<Seq<char>>,
    first: Seq<usize>,
    second: Seq<usize>,
)
    requires
        resolves(ids, columns, first),
        resolves(ids, columns, second),
    ensures
        first == second,
{
    assert forall|i: int| 0 <= i < ids.len() implies first[i] == second[i] by {
        let p = first[i] as int;
        let q = second[i] as int;
        assert(is_first_position(columns, ids[i], p));
        assert(is_first_position(columns, ids[i], q));
        if p < q {
            assert(columns[p] != ids[i]);
        } else if q < p {
            assert(columns[q] != ids[i]);
        }
    }
    assert(first =~= second);
}

/// Resolution keeps the order of a cohort: the position at each place is
/// that of the column which the identifier at the same place names.
pub proof fn lemma_resolution_keeps_order(
    ids: Seq<Seq<char>>,
    columns: Seq<Seq<char>>,
    positions: Seq<usize>,
    i: int,
)
    requires
        resolves(ids, columns, positions),
        0 <= i < ids.len(),
    ensures
        0 <= positions[i] < columns.len(),
        columns[positions[i] as int] == ids[i],
        first_position(columns, ids[i]) == Some(positions[i] as int),
{
    assert(is_first_position(columns, ids[i], positions[i] as int));
    lemma_first_position(columns, ids[i]);
}

/// Cohorts that were classified against the columns of a matrix can be
/// resolved against the same columns: classification lets no sample in
/// that resolution would miss.
pub proof fn lemma_classified_cohorts_resolve(
    rules: Seq<ComparisonView>,
    records: Seq<Map<Seq<char>, Seq<char>>>,
    columns: Seq<Seq<char>>,
)
    ensures
        forall|i: int|
            0 <= i < rules.len() ==> resolvable(
                #[trigger] classified(rules, records, columns)[i],
                columns,
            ),
{
    assert forall|i: int| 0 <= i < rules.len() implies resolvable(
        #[trigger] classified(rules, records, columns)[i],
        columns,
    ) by {
        let rule = rules[i].rule;
        lemma_members_joined(records, columns, rule.case_field, rule.case_value);
        lemma_members_joined(records, columns, rule.control_field, rule.control_value);
    }
}

} // verus!
