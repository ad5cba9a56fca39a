//! The label buckets that a pass over the mailbox lists, one after the
//! other.

use vstd::prelude::*;

verus! {

/// The number of label buckets that a full pass lists.
pub const BUCKET_COUNT: usize = 11;

/// The page size of the listings of a recovery pass.
pub const RESYNC_PAGE_SIZE: u32 = 200;

/// The label of the bucket numbered `i`.
pub open spec fn bucket_name(i: int) -> Seq<char> {
    if i == 0 {
        "INBOX"@
    } else if i == 1 {
        "SENT"@
    } else if i == 2 {
        "DRAFT"@
    } else if i == 3 {
        "STARRED"@
    } else if i == 4 {
        "TRASH"@
    } else if i == 5 {
        "SPAM"@
    } else if i == 6 {
        "CATEGORY_PERSONAL"@
    } else if i == 7 {
        "CATEGORY_SOCIAL"@
    } else if i == 8 {
        "CATEGORY_PROMOTIONS"@
    } else if i == 9 {
        "CATEGORY_UPDATES"@
    } else {
        "CATEGORY_FORUMS"@
    }
}

/// The label of the bucket numbered `i`; `None` from `BUCKET_COUNT` on.
pub fn bucket_label(i: usize) -> (r: Option<&'static str>)
    ensures
        match r {
            Some(l) => i < BUCKET_COUNT && l@ == bucket_name(i as int),
            None => i >= BUCKET_COUNT,
        },
{
    if i == 0 {
        Some("INBOX")
    } else if i == 1 {
        Some("SENT")
    } else if i == 2 {
        Some("DRAFT")
    } else if i == 3 {
        Some("STARRED")
    } else if i == 4 {
        Some("TRASH")
    } else if i == 5 {
        Some("SPAM")
    } else if i == 6 {
        Some("CATEGORY_PERSONAL")
    } else if i == 7 {
        Some("CATEGORY_SOCIAL")
    } else if i == 8 {
        Some("CATEGORY_PROMOTIONS")
    } else if i == 9 {
        Some("CATEGORY_UPDATES")
    } else if i == 10 {
        Some("CATEGORY_FORUMS")
    } else {
        None
    }
}

} // verus!
