use crate::errors::BloomFilterError;
use crate::state::{BloomFilter, FilterView, NewFilter, MAX_FILTER_SIZE};
use vstd::prelude::*;

verus! {

/// Creates a filter record from a request: checks the request, then sets the
/// record up with every bit clear and no element inserted. A refused request
/// leaves the record untouched.
pub fn init(filter: &mut BloomFilter, new_filter: NewFilter) -> (r: Result<
    (),
    BloomFilterError,
>)
    ensures
        r is Ok <==> new_filter.valid(),
        r == Err::<(), BloomFilterError>(BloomFilterError::InvalidParameters) <==> (new_filter.size
            == 0 || new_filter.num_hashes == 0),
        r == Err::<(), BloomFilterError>(BloomFilterError::FilterTooLarge) <==> (new_filter.size
            != 0 && new_filter.num_hashes != 0 && new_filter.size > MAX_FILTER_SIZE),
        r is Ok ==> final(filter)@ == FilterView::fresh(
            new_filter.name@,
            new_filter.size,
            new_filter.num_hashes,
        ),
        r is Ok ==> final(filter)@.wf(),
        r is Err ==> final(filter)@ == old(filter)@,
{
    match new_filter.validate() {
        Ok(()) => filter.init(new_filter),
        Err(e) => Err(e),
    }
}

} // verus!
