//! Pagination parameters and the error taxonomy shared by the stores.

use vstd::prelude::*;

verus! {

/// Window onto a listing: skip `offset` rows, then yield at most `limit` rows.
/// Negative values are treated as zero; listings are bounded server-side.
#[derive(Clone, Copy, Debug)]
pub struct Pagination {
    pub offset: i32,
    pub limit: i32,
}

impl Default for Pagination {
    /// The default window: start at the beginning, ten rows.
    fn default() -> (r: Self)
        ensures
            r.offset == 0,
            r.limit == 10,
    {
        Pagination { offset: 0, limit: 10 }
    }
}

impl Pagination {
    /// The window start as a mathematical index (negatives clamp to zero).
    pub open spec fn spec_offset(self) -> int {
        if self.offset < 0 {
            0
        } else {
            self.offset as int
        }
    }

    /// The window length as a mathematical count (negatives clamp to zero).
    pub open spec fn spec_limit(self) -> int {
        if self.limit < 0 {
            0
        } else {
            self.limit as int
        }
    }

    /// The window start, clamped for use as an index.
    pub fn offset_bound(&self) -> (r: usize)
        ensures
            r == self.spec_offset(),
    {
        if self.offset < 0 {
            0
        } else {
            self.offset as usize
        }
    }

    /// The window length, clamped for use as a count.
    pub fn limit_bound(&self) -> (r: usize)
        ensures
            r == self.spec_limit(),
    {
        if self.limit < 0 {
            0
        } else {
            self.limit as usize
        }
    }
}

/// Why a store operation was refused.
#[derive(Clone, Copy, Debug, PartialEq, Eq, Structural)]
pub enum StoreError {
    /// The requested row does not exist, or an update supplied nothing to change.
    NotFound,
    /// A supplied value cannot be stored in the slot its property is mapped to.
    BadRequest,
}

/// The rows of `s` that fall inside the window `[offset, offset + limit)`.
pub open spec fn paged<T>(s: Seq<T>, offset: int, limit: int) -> Seq<T> {
    let start = if offset <= s.len() {
        offset
    } else {
        s.len() as int
    };
    let end = if offset + limit <= s.len() {
        offset + limit
    } else {
        s.len() as int
    };
    if start <= end {
        s.subrange(start, end)
    } else {
        s.subrange(start, start)
    }
}

/// Pagination is exact: a window of length `k` taken at the start yields
/// `min(len, k)` rows, and the window starting at `k` yields exactly the
/// remainder, in the same order, so that the two windows together restore
/// the whole listing.
pub proof fn lemma_pagination_exact<T>(s: Seq<T>, k: int)
    requires
        0 <= k,
    ensures
        paged(s, 0, k).len() == if s.len() <= k {
            s.len() as int
        } else {
            k
        },
        paged(s, 0, k) + paged(s, k, s.len() as int) =~= s,
{
}

} // verus!
