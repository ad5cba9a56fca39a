//! The change cursor as the cache keeps it between two steps.

use crate::cache::Cache;
use crate::decimal::{decimal_i64, parse_i64};
use crate::text::{trim, trimmed};
use vstd::prelude::*;

verus! {

/// The key under which the cache keeps the change cursor.
pub open spec fn cursor_key() -> Seq<char> {
    "last_history_id"@
}

/// The cursor that the scalar state `meta` holds: the decimal number
/// under the cursor key, white space around it aside.
pub open spec fn stored_cursor(meta: Map<Seq<char>, Seq<char>>) -> Option<i64> {
    if meta.contains_key(cursor_key()) {
        decimal_i64(trimmed(meta[cursor_key()]))
    } else {
        None
    }
}

/// Reads the stored cursor. A stored value that is no decimal number is
/// deleted.
pub fn read_cursor(cache: &mut Cache) -> (r: Option<i64>)
    ensures
        r == stored_cursor(old(cache).meta()),
        final(cache).rows() == old(cache).rows(),
        final(cache).meta() == if r.is_some() {
            old(cache).meta()
        } else {
            old(cache).meta().remove(cursor_key())
        },
{
    match cache.get_meta("last_history_id") {
        Some(value) => {
            match parse_i64(trim(value.as_str())) {
                Some(v) => Some(v),
                None => {
                    cache.delete_meta("last_history_id");
                    None
                },
            }
        },
        None => {
            proof {
                assert(cache.meta() =~= cache.meta().remove(cursor_key()));
            }
            None
        },
    }
}

} // verus!
