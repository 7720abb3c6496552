//! Pagination over a mailbox ordered by 1-based sequence numbers
//! (1 = oldest, `total` = newest).

use vstd::prelude::*;

verus! {

/// Newest sequence number of the page: the `skip` newest messages are
/// passed over, so the page ends at `total - skip`.
pub open spec fn spec_fetch_end(total: u32, skip: u32) -> int {
    total - skip
}

/// Oldest sequence number of the page, clamped to 1.
pub open spec fn spec_fetch_start(total: u32, skip: u32, max: u32) -> int {
    if spec_fetch_end(total, skip) - max + 1 > 1 {
        spec_fetch_end(total, skip) - max + 1
    } else {
        1
    }
}

/// Computes the inclusive sequence-number range `[start, end]` for one page.
///
/// Returns `None` exactly when the page is empty: the mailbox is empty,
/// all messages are skipped, or no messages are requested.
pub fn fetch_range(total: u32, skip: u32, max: u32) -> (r: Option<(u32, u32)>)
    ensures
        r is Some <==> skip < total && max > 0,
        r matches Some(p) ==> {
            &&& p.1 == spec_fetch_end(total, skip)
            &&& p.0 == spec_fetch_start(total, skip, max)
            &&& 1 <= p.0 <= p.1
        },
{
    if total == 0 || skip >= total || max == 0 {
        return None;
    }
    let end = total - skip;
    let start = if max < end { end - max + 1 } else { 1 };
    Some((start, end))
}

/// The `skip`/`max` window of a listing: at most `max` entries starting
/// after the first `skip`, and empty when everything is skipped.
pub open spec fn spec_page<T>(l: Seq<T>, skip: nat, max: nat) -> Seq<T> {
    if skip >= l.len() {
        Seq::empty()
    } else if skip + max <= l.len() {
        l.subrange(skip as int, (skip + max) as int)
    } else {
        l.subrange(skip as int, l.len() as int)
    }
}

} // verus!
