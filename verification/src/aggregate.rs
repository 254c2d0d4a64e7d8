//! The streaming aggregator: which cells of a matrix row each comparison
//! reads, and how the output rows are laid out.
//!
//! The order of the comparisons is fixed when the aggregator is made. The
//! header row and every data row follow it.

use vstd::prelude::*;
use vstd::string::StringExecFns;
use csv::StringRecord;
use crate::fields::{field_text, record_fields};
use crate::resolve::{ColumnIndex, ColumnIndexView, Side};
use crate::text::{decimal, decimal_text};

verus! {

/// The name of the first output column, which holds the feature identifier
/// of each row.
pub const FEATURE_COLUMN: &'static str = "feature_id";

/// The cells of one matrix row that one comparison reads: those of its case
/// cohort and those of its control cohort, each in the order of the cohort.
#[derive(Clone, Debug, PartialEq, Eq)]
pub struct CohortCells {
    pub case: Vec<String>,
    pub control: Vec<String>,
}

/// `CohortCells` as plain text.
pub struct CohortCellsView {
    pub case: Seq<Seq<char>>,
    pub control: Seq<Seq<char>>,
}

impl View for CohortCells {
    type V = CohortCellsView;

    open spec fn view(&self) -> CohortCellsView {
        CohortCellsView { case: self.case.deep_view(), control: self.control.deep_view() }
    }
}

impl DeepView for CohortCells {
    type V = CohortCellsView;

    open spec fn deep_view(&self) -> CohortCellsView {
        self@
    }
}

/// What is read of one matrix row: its feature identifier and, for each
/// comparison in the order of the output columns, the cells of its cohorts.
#[derive(Clone, Debug, PartialEq, Eq)]
pub struct RowCells {
    pub feature: String,
    pub cohorts: Vec<CohortCells>,
}

/// Why a row cannot be read or written.
#[derive(Clone, Debug, PartialEq, Eq)]
pub enum StreamError {
    /// The header row was asked for a second time.
    HeaderRepeated,
    /// A data row was asked for before the header row.
    HeaderPending,
    /// The matrix row has no field at all, and so no feature identifier.
    MissingFeature,
    /// The matrix row has no field at `position`, which the cohort `side`
    /// of comparison `label` reads.
    MissingCell { label: String, side: Side, position: usize },
    /// A data row was asked for with `found` statistics, where the header
    /// has `expected` comparisons.
    WrongWidth { expected: usize, found: usize },
}

/// A `StreamError` as plain values.
pub enum StreamErrorView {
    HeaderRepeated,
    HeaderPending,
    MissingFeature,
    MissingCell { label: Seq<char>, side: Side, position: usize },
    WrongWidth { expected: usize, found: usize },
}

impl View for StreamError {
    type V = StreamErrorView;

    open spec fn view(&self) -> StreamErrorView {
        match self {
            StreamError::HeaderRepeated => StreamErrorView::HeaderRepeated,
            StreamError::HeaderPending => StreamErrorView::HeaderPending,
            StreamError::MissingFeature => StreamErrorView::MissingFeature,
            StreamError::MissingCell { label, side, position } => StreamErrorView::MissingCell {
                label: label@,
                side: *side,
                position: *position,
            },
            StreamError::WrongWidth { expected, found } => StreamErrorView::WrongWidth {
                expected: *expected,
                found: *found,
            },
        }
    }
}

impl StreamError {
    /// The text of the message.
    pub open spec fn text(error: StreamErrorView) -> Seq<char> {
        match error {
            StreamErrorView::HeaderRepeated => "The header row was already written"@,
            StreamErrorView::HeaderPending => "The header row is not written yet"@,
            StreamErrorView::MissingFeature => "Matrix row has no feature identifier"@,
            StreamErrorView::MissingCell { label, side, position } => "Matrix row has no field "@
                + decimal(position as nat) + ", which the "@ + side.name() + " cohort of "@ + label
                + " reads"@,
            StreamErrorView::WrongWidth { expected, found } => "Got "@ + decimal(found as nat)
                + " statistics for "@ + decimal(expected as nat) + " comparisons"@,
        }
    }

    /// A message for the operator. For a missing cell it names the
    /// position, counted from zero, the cohort and the comparison.
    pub fn message(&self) -> (text: String)
        ensures
            text@ == Self::text(self@),
    {
        match self {
            StreamError::HeaderRepeated => String::from_str("The header row was already written"),
            StreamError::HeaderPending => String::from_str("The header row is not written yet"),
            StreamError::MissingFeature => String::from_str("Matrix row has no feature identifier"),
            StreamError::MissingCell { label, side, position } => {
                let mut text = String::from_str("Matrix row has no field ");
                text.append(decimal_text(*position).as_str());
                text.append(", which the ");
                text.append(side.as_str());
                text.append(" cohort of ");
                text.append(label.as_str());
                text.append(" reads");
                text
            },
            StreamError::WrongWidth { expected, found } => {
                let mut text = String::from_str("Got ");
                text.append(decimal_text(*found).as_str());
                text.append(" statistics for ");
                text.append(decimal_text(*expected).as_str());
                text.append(" comparisons");
                text
            },
        }
    }
}

/// Every position of `positions` is that of a field of the row.
pub open spec fn in_range(fields: Seq<Seq<char>>, positions: Seq<usize>) -> bool {
    forall|i: int| 0 <= i < positions.len() ==> #[trigger] positions[i] < fields.len()
}

/// The position at place `k` is the first of `positions` at which the row
/// has no field.
pub open spec fn first_out_of_range(fields: Seq<Seq<char>>, positions: Seq<usize>, k: int) -> bool {
    &&& 0 <= k < positions.len()
    &&& positions[k] >= fields.len()
    &&& forall|j: int| 0 <= j < k ==> #[trigger] positions[j] < fields.len()
}

/// The fields of the row at `positions`, in the order of the positions.
pub open spec fn selected(fields: Seq<Seq<char>>, positions: Seq<usize>) -> Seq<Seq<char>> {
    Seq::new(positions.len(), |i: int| fields[positions[i] as int])
}

/// The row has a field at every position that the comparison reads.
pub open spec fn readable(fields: Seq<Seq<char>>, index: ColumnIndexView) -> bool {
    in_range(fields, index.case) && in_range(fields, index.control)
}

/// The cells that the comparison reads of the row.
pub open spec fn cells_of(fields: Seq<Seq<char>>, index: ColumnIndexView) -> CohortCellsView {
    CohortCellsView {
        case: selected(fields, index.case),
        control: selected(fields, index.control),
    }
}

/// The row can be read: it has a feature identifier, and a field at every
/// position that a comparison reads.
pub open spec fn row_readable(fields: Seq<Seq<char>>, indexes: Seq<ColumnIndexView>) -> bool {
    &&& fields.len() > 0
    &&& forall|i: int| 0 <= i < indexes.len() ==> readable(fields, #[trigger] indexes[i])
}

/// Comparison `i` carries `label`, place `k` of its cohort `side` holds
/// `position`, and that is the first position at which the row has no
/// field: no earlier comparison reads one, nor the case cohort where `side`
/// is the control cohort, nor an earlier place of the cohort itself.
pub open spec fn unreadable_at(
    fields: Seq<Seq<char>>,
    indexes: Seq<ColumnIndexView>,
    label: Seq<char>,
    side: Side,
    position: usize,
    i: int,
    k: int,
) -> bool {
    &&& 0 <= i < indexes.len()
    &&& forall|j: int| 0 <= j < i ==> readable(fields, #[trigger] indexes[j])
    &&& indexes[i].label == label
    &&& match side {
        Side::Case => {
            &&& first_out_of_range(fields, indexes[i].case, k)
            &&& indexes[i].case[k] == position
        },
        Side::Control => {
            &&& in_range(fields, indexes[i].case)
            &&& first_out_of_range(fields, indexes[i].control, k)
            &&& indexes[i].control[k] == position
        },
    }
}

/// The row has no field at `position`, and that is the first position
/// without one, read by cohort `side` of the comparison `label`.
pub open spec fn first_unreadable(
    fields: Seq<Seq<char>>,
    indexes: Seq<ColumnIndexView>,
    label: Seq<char>,
    side: Side,
    position: usize,
) -> bool {
    exists|i: int, k: int| unreadable_at(fields, indexes, label, side, position, i, k)
}

/// `error` is what is wrong with a row that cannot be read: the missing
/// feature identifier, or else the first position without a field, with
/// the comparison and the cohort that read it.
pub open spec fn is_row_fault(
    fields: Seq<Seq<char>>,
    indexes: Seq<ColumnIndexView>,
    error: StreamErrorView,
) -> bool {
    match error {
        StreamErrorView::MissingFeature => fields.len() == 0,
        StreamErrorView::MissingCell { label, side, position } => fields.len() > 0
            && first_unreadable(fields, indexes, label, side, position),
        _ => false,
    }
}

/// The comparison labels, in the order of the output columns.
pub open spec fn labels_of(indexes: Seq<ColumnIndexView>) -> Seq<Seq<char>> {
    Seq::new(indexes.len(), |i: int| indexes[i].label)
}

/// The header row: the name of the feature column, then the labels.
pub open spec fn header_line(indexes: Seq<ColumnIndexView>) -> Seq<Seq<char>> {
    seq![FEATURE_COLUMN@] + labels_of(indexes)
}

/// A data row: the feature identifier, then the statistics.
pub open spec fn data_line(feature: Seq<char>, statistics: Seq<Seq<char>>) -> Seq<Seq<char>> {
    seq![feature] + statistics
}

/// The fields of `row` at `positions`, in the order of the positions.
///
/// Where the row has no field at one of them, the place of the first such
/// position is returned instead.
pub fn select(row: &StringRecord, positions: &Vec<usize>) -> (result: Result<Vec<String>, usize>)
    ensures
        result is Ok <==> in_range(record_fields(*row), positions@),
        match result {
            Ok(cells) => cells.deep_view() == selected(record_fields(*row), positions@),
            Err(k) => first_out_of_range(record_fields(*row), positions@, k as int),
        },
{
    let mut cells: Vec<String> = Vec::new();
    let mut i: usize = 0;
    while i < positions.len()
        invariant
            i <= positions.len(),
            cells.len() == i,
            forall|j: int| 0 <= j < i ==> #[trigger] positions@[j] < record_fields(*row).len(),
            forall|j: int|
                0 <= j < i ==> #[trigger] cells.deep_view()[j] == record_fields(
                    *row,
                )[positions@[j] as int],
        decreases positions.len() - i,
    {
        match field_text(row, positions[i]) {
            Some(text) => {
                let ghost earlier = cells.deep_view();
                cells.push(text);
                assert(cells.deep_view() =~= earlier.push(text@));
            },
            None => {
                return Err(i);
            },
        }
        i += 1;
    }
    assert(cells.deep_view() =~= selected(record_fields(*row), positions@));
    Ok(cells)
}

/// The layout of the output, and the stage that the output has reached.
///
/// The comparisons and their order are fixed when the aggregator is made.
/// The header row is handed out once, and data rows only after it.
pub struct Aggregator {
    indexes: Vec<ColumnIndex>,
    started: bool,
}

impl Aggregator {
    /// The comparisons with their columns, in the order of the output
    /// columns.
    pub closed spec fn indexes(&self) -> Seq<ColumnIndexView> {
        self.indexes.deep_view()
    }

    /// The header row has been handed out.
    pub closed spec fn started(&self) -> bool {
        self.started
    }

    /// An aggregator for `indexes`, whose order becomes that of the output
    /// columns. No row has been handed out yet.
    pub fn new(indexes: Vec<ColumnIndex>) -> (aggregator: Aggregator)
        ensures
            aggregator.indexes() == indexes.deep_view(),
            !aggregator.started(),
    {
        Aggregator { indexes, started: false }
    }

    /// The number of comparisons.
    pub fn width(&self) -> (n: usize)
        ensures
            n == self.indexes().len(),
    {
        self.indexes.len()
    }

    /// The header row, on the first call; every later call is refused.
    pub fn header(&mut self) -> (result: Result<Vec<String>, StreamError>)
        ensures
            final(self).indexes() == old(self).indexes(),
            final(self).started(),
            match result {
                Ok(line) => !old(self).started() && line.deep_view() == header_line(
                    old(self).indexes(),
                ),
                Err(error) => old(self).started() && error@ == StreamErrorView::HeaderRepeated,
            },
    {
        if self.started {
            return Err(StreamError::HeaderRepeated);
        }
        self.started = true;
        let mut line: Vec<String> = Vec::new();
        line.push(FEATURE_COLUMN.to_owned());
        let mut i: usize = 0;
        while i < self.indexes.len()
            invariant
                i <= self.indexes.len(),
                line.len() == i + 1,
                line.deep_view()[0] == FEATURE_COLUMN@,
                forall|j: int|
                    0 <= j < i ==> #[trigger] line.deep_view()[j + 1]
                        == self.indexes.deep_view()[j].label,
            decreases self.indexes.len() - i,
        {
            let ghost earlier = line.deep_view();
            let label = self.indexes[i].label.clone();
            line.push(label);
            assert(line.deep_view() =~= earlier.push(label@));
            i += 1;
        }
        assert forall|k: int| 0 <= k < line.len() implies line.deep_view()[k] == header_line(
            self.indexes.deep_view(),
        )[k] by {
            if k > 0 {
                assert(line.deep_view()[(k - 1) + 1] == self.indexes.deep_view()[k - 1].label);
            }
        }
        assert(line.deep_view() =~= header_line(self.indexes.deep_view()));
        Ok(line)
    }

    /// What the comparisons read of `row`: the feature identifier, which is
    /// the row's first field, and the cells of each cohort.
    pub fn cells(&self, row: &StringRecord) -> (result: Result<RowCells, StreamError>)
        ensures
            result is Ok <==> row_readable(record_fields(*row), self.indexes()),
            match result {
                Ok(cells) => {
                    &&& cells.feature@ == record_fields(*row)[0]
                    &&& cells.cohorts.len() == self.indexes().len()
                    &&& forall|i: int|
                        0 <= i < self.indexes().len() ==> #[trigger] cells.cohorts.deep_view()[i]
                            == cells_of(record_fields(*row), self.indexes()[i])
                },
                Err(error) => is_row_fault(record_fields(*row), self.indexes(), error@),
            },
    {
        let feature = match field_text(row, 0) {
            Some(text) => text,
            None => {
                return Err(StreamError::MissingFeature);
            },
        };
        let ghost fields = record_fields(*row);
        let mut cohorts: Vec<CohortCells> = Vec::new();
        let mut i: usize = 0;
        while i < self.indexes.len()
            invariant
                i <= self.indexes.len(),
                cohorts.len() == i,
                fields == record_fields(*row),
                fields.len() > 0,
                forall|j: int|
                    0 <= j < i ==> readable(fields, #[trigger] self.indexes.deep_view()[j]),
                forall|j: int|
                    0 <= j < i ==> #[trigger] cohorts.deep_view()[j] == cells_of(
                        fields,
                        self.indexes.deep_view()[j],
                    ),
            decreases self.indexes.len() - i,
        {
            let index = &self.indexes[i];
            assert(self.indexes.deep_view()[i as int] == index@);
            let case = match select(row, &index.case) {
                Ok(cells) => cells,
                Err(k) => {
                    let position = index.case[k];
                    assert(unreadable_at(
                        fields,
                        self.indexes.deep_view(),
                        index.label@,
                        Side::Case,
                        position,
                        i as int,
                        k as int,
                    ));
                    return Err(
                        StreamError::MissingCell {
                            label: index.label.clone(),
                            side: Side::Case,
                            position,
                        },
                    );
                },
            };
            let control = match select(row, &index.control) {
                Ok(cells) => cells,
                Err(k) => {
                    let position = index.control[k];
                    assert(unreadable_at(
                        fields,
                        self.indexes.deep_view(),
                        index.label@,
                        Side::Control,
                        position,
                        i as int,
                        k as int,
                    ));
                    return Err(
                        StreamError::MissingCell {
                            label: index.label.clone(),
                            side: Side::Control,
                            position,
                        },
                    );
                },
            };
            let ghost earlier = cohorts.deep_view();
            let cells = CohortCells { case, control };
            cohorts.push(cells);
            assert(cohorts.deep_view() =~= earlier.push(cells@));
            i += 1;
        }
        Ok(RowCells { feature, cohorts })
    }

    /// The data row of a feature: its identifier, then its statistics, one
    /// per comparison and in the order of the output columns.
    ///
    /// The row is refused before the header row, and where the number of
    /// statistics is not the number of comparisons.
    pub fn data_row(&self, feature: String, statistics: Vec<String>) -> (result: Result<
        Vec<String>,
        StreamError,
    >)
        ensures
            result is Ok <==> self.started() && statistics.len() == self.indexes().len(),
            match result {
                Ok(line) => line.deep_view() == data_line(feature@, statistics.deep_view()),
                Err(error) => error@ == if !self.started() {
                    StreamErrorView::HeaderPending
                } else {
                    StreamErrorView::WrongWidth {
                        expected: self.indexes().len() as usize,
                        found: statistics.len(),
                    }
                },
            },
    {
        if !self.started {
            return Err(StreamError::HeaderPending);
        }
        if statistics.len() != self.indexes.len() {
            return Err(
                StreamError::WrongWidth { expected: self.indexes.len(), found: statistics.len() },
            );
        }
        let ghost given = statistics.deep_view();
        let mut statistics = statistics;
        let mut line: Vec<String> = Vec::new();
        line.push(feature);
        line.append(&mut statistics);
        assert(line.deep_view() =~= data_line(feature@, given));
        Ok(line)
    }
}

/// A row has at most one fault, and a row with a fault cannot be read.
pub proof fn lemma_row_fault_is_unique(
    fields: Seq<Seq<char>>,
    indexes: Seq<ColumnIndexView>,
    first: StreamErrorView,
    second: StreamErrorView,
)
    requires
        is_row_fault(fields, indexes, first),
        is_row_fault(fields, indexes, second),
    ensures
        first == second,
        !row_readable(fields, indexes),
{
    match (first, second) {
        (
            StreamErrorView::MissingCell { label: l1, side: s1, position: at1 },
            StreamErrorView::MissingCell { label: l2, side: s2, position: at2 },
        ) => {
            let (i, k) = choose|i: int, k: int| unreadable_at(fields, indexes, l1, s1, at1, i, k);
            let (j, m) = choose|j: int, m: int| unreadable_at(fields, indexes, l2, s2, at2, j, m);
            assert(unreadable_at(fields, indexes, l1, s1, at1, i, k));
            assert(unreadable_at(fields, indexes, l2, s2, at2, j, m));
            lemma_unreadable_comparison(fields, indexes, l1, s1, at1, i, k);
            lemma_unreadable_comparison(fields, indexes, l2, s2, at2, j, m);
            assert(i == j);
            if s1 != s2 {
                let case = indexes[i].case;
                if s1 == Side::Case {
                    assert(case[k] >= fields.len());
                } else {
                    assert(case[m] >= fields.len());
                }
            }
            let positions = if s1 == Side::Case {
                indexes[i].case
            } else {
                indexes[i].control
            };
            assert(first_out_of_range(fields, positions, k));
            assert(first_out_of_range(fields, positions, m));
            if k < m {
                assert(positions[k] < fields.len());
            } else if m < k {
                assert(positions[m] < fields.len());
            }
        },
        (StreamErrorView::MissingCell { label, side, position }, _) => {
            let (i, k) = choose|i: int, k: int|
                unreadable_at(fields, indexes, label, side, position, i, k);
            lemma_unreadable_comparison(fields, indexes, label, side, position, i, k);
        },
        _ => {},
    }
}

/// The comparison that a missing cell belongs to cannot be read.
proof fn lemma_unreadable_comparison(
    fields: Seq<Seq<char>>,
    indexes: Seq<ColumnIndexView>,
    label: Seq<char>,
    side: Side,
    position: usize,
    i: int,
    k: int,
)
    requires
        unreadable_at(fields, indexes, label, side, position, i, k),
    ensures
        !readable(fields, indexes[i]),
{
    match side {
        Side::Case => {
            assert(indexes[i].case[k] >= fields.len());
        },
        Side::Control => {
            assert(indexes[i].control[k] >= fields.len());
        },
    }
}

/// The data rows follow the header row: each has as many fields as the
/// header, its first field is the feature identifier under the name of the
/// feature column, and its statistic for a comparison stands under that
/// comparison's label.
pub proof fn lemma_rows_follow_header(
    indexes: Seq<ColumnIndexView>,
    feature: Seq<char>,
    statistics: Seq<Seq<char>>,
)
    requires
        statistics.len() == indexes.len(),
    ensures
        header_line(indexes).len() == indexes.len() + 1,
        data_line(feature, statistics).len() == header_line(indexes).len(),
        header_line(indexes)[0] == FEATURE_COLUMN@,
        data_line(feature, statistics)[0] == feature,
        forall|i: int|
            0 <= i < indexes.len() ==> {
                &&& header_line(indexes)[i + 1] == indexes[i].label
                &&& #[trigger] data_line(feature, statistics)[i + 1] == statistics[i]
            },
{
}

} // verus!
