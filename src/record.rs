//! Rows of the sheet, as the `csv` crate hands them out.
use vstd::prelude::*;

verus! {

#[verifier::external_type_specification]
#[verifier::external_body]
pub struct ExStringRecord(csv::StringRecord);

/// The cells of a record, in order.
pub uninterp spec fn record_fields(r: csv::StringRecord) -> Seq<Seq<char>>;

/// Relies on csv::StringRecord::len: the number of fields of the record.
pub assume_specification[ csv::StringRecord::len ](r: &csv::StringRecord) -> (n: usize)
    ensures
        n == record_fields(*r).len(),
;

/// Relies on csv::StringRecord::get: the field at `i`, or `None` past the end.
pub assume_specification<'a>[ csv::StringRecord::get ](r: &'a csv::StringRecord, i: usize) -> (f:
    Option<&'a str>)
    ensures
        i < record_fields(*r).len() ==> f is Some && f->0@ == record_fields(*r)[i as int],
        i >= record_fields(*r).len() ==> f is None,
;

} // verus!
