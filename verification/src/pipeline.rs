//! The stages before the first matrix row, in one call: classify the
//! samples, resolve their columns, and fix the order of the output columns.

use vstd::prelude::*;
use csv::StringRecord;
use crate::aggregate::Aggregator;
use crate::classify::{accepted, classified, classify, is_fault, ClassifyError};
use crate::columns::ColumnLookup;
use crate::fields::record_fields;
use crate::metadata::Record;
use crate::resolve::{lemma_classified_cohorts_resolve, resolve, resolved};
use crate::rules::RuleSet;

verus! {

/// Prepares the aggregator of a run from its rules, its sample metadata and
/// the header of its matrix.
///
/// The samples are classified against the columns of `header` and then
/// resolved against the same columns, so resolution finds every sample:
/// the one way to fail is a metadata record that cannot be classified. The
/// output columns follow the order of `rules`.
pub fn prepare(rules: RuleSet, records: &Vec<Record>, header: &StringRecord) -> (result: Result<
    Aggregator,
    ClassifyError,
>)
    ensures
        result is Ok <==> forall|k: int|
            0 <= k < records.len() ==> accepted(
                rules@,
                #[trigger] records.deep_view()[k],
                record_fields(*header),
            ),
        match result {
            Ok(aggregator) => {
                &&& !aggregator.started()
                &&& aggregator.indexes().len() == rules@.len()
                &&& forall|i: int|
                    0 <= i < rules@.len() ==> resolved(
                        classified(rules@, records.deep_view(), record_fields(*header))[i],
                        record_fields(*header),
                        #[trigger] aggregator.indexes()[i],
                    )
            },
            Err(error) => {
                &&& error.record < records.len()
                &&& forall|k: int|
                    0 <= k < error.record ==> accepted(
                        rules@,
                        #[trigger] records.deep_view()[k],
                        record_fields(*header),
                    )
                &&& is_fault(
                    rules@,
                    records.deep_view()[error.record as int],
                    record_fields(*header),
                    error.fault@,
                )
            },
        },
{
    let ghost applied = rules@;
    let columns = ColumnLookup::new(header);
    let cohorts = match classify(rules, records, &columns) {
        Ok(cohorts) => cohorts,
        Err(error) => {
            return Err(error);
        },
    };
    proof {
        lemma_classified_cohorts_resolve(applied, records.deep_view(), columns@);
    }
    match resolve(&cohorts, &columns) {
        Ok(indexes) => {
            assert(cohorts.deep_view().len() == applied.len());
            Ok(Aggregator::new(indexes))
        },
        Err(_) => vstd::pervasive::unreached(),
    }
}

} // verus!
