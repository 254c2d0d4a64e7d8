//! What the verified code knows of a `csv::StringRecord`: the sequence of
//! its fields, and the two accessors that read it.
//!
//! The header of the matrix and each of its rows reach the library as
//! records of the `csv` crate. Verus does not look inside that crate. The
//! contracts of `len` and `get` below are taken from its source and
//! believed without proof; everything else in the library is proved from
//! them.

use vstd::prelude::*;
use csv::StringRecord;

verus! {

/// `csv::StringRecord`, carried through verified code as an opaque value.
#[verifier::external_type_specification]
#[verifier::external_body]
pub struct ExStringRecord(StringRecord);

/// The fields of a record, in order, each as its sequence of characters.
pub uninterp spec fn record_fields(record: StringRecord) -> Seq<Seq<char>>;

/// Believed of `StringRecord::len`: it returns the number of fields in the
/// record.
pub assume_specification[ StringRecord::len ](record: &StringRecord) -> (n: usize)
    ensures
        n == record_fields(*record).len(),
;

/// Believed of `StringRecord::get`: it returns the field at index `i`, and
/// `None` exactly when the record has no field at that index.
pub assume_specification<'a>[ StringRecord::get ](record: &'a StringRecord, i: usize) -> (field:
    Option<&'a str>)
    ensures
        match field {
            Some(text) => i < record_fields(*record).len()
                && text@ == record_fields(*record)[i as int],
            None => i >= record_fields(*record).len(),
        },
;

/// The text of field `i`, owned, or `None` when the record is too short.
pub fn field_text(record: &StringRecord, i: usize) -> (text: Option<String>)
    ensures
        match text {
            Some(t) => i < record_fields(*record).len() && t@ == record_fields(*record)[i as int],
            None => i >= record_fields(*record).len(),
        },
{
    match record.get(i) {
        Some(t) => Some(t.to_owned()),
        None => None,
    }
}

} // verus!
