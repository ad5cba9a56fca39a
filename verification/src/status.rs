//! HTTP status codes as the library reads them.

use vstd::prelude::*;

verus! {

/// The status with which the service rejects a change cursor.
pub const BAD_REQUEST: u16 = 400;

/// Whether a status lies in the success class, 200 to 299.
pub open spec fn success_status(status: u16) -> bool {
    200 <= status <= 299
}

/// Whether `status` lies in the success class.
pub fn is_success(status: u16) -> (r: bool)
    ensures
        r == success_status(status),
{
    200 <= status && status <= 299
}

} // verus!
