//! The durability log's record format: one `key,value` line per committed
//! put. The log is an append-only audit trail; it is never read back to
//! rebuild the store.

use vstd::prelude::*;

verus! {

/// One durability-log record: the key and the value, comma-separated.
pub open spec fn spec_record(key: Seq<char>, value: Seq<char>) -> Seq<char> {
    key + ","@ + value
}

/// Formats the record for one committed put.
pub fn format_record(key: &str, value: &str) -> (r: String)
    ensures
        r@ == spec_record(key@, value@),
{
    let mut out = key.to_owned();
    out.append(",");
    out.append(value);
    proof {
        assert(out@ =~= spec_record(key@, value@));
    }
    out
}

} // verus!
