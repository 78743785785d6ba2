//! Pagination of the question list: 1-based pages of a fixed size, rejected
//! when the offset they ask for lies beyond the stored rows.

use vstd::prelude::*;
use crate::errors::QuestionBankErr;

verus! {

/// The query parameters of a paginated request: a 1-based page number and a
/// page size.
#[derive(Debug, Clone, PartialEq, Eq, Structural)]
pub struct Pagination {
    pub page: u64,
    pub limit: u64,
}

impl Pagination {
    /// The row offset this page starts at.
    pub open spec fn spec_offset(self) -> int {
        (self.page - 1) * self.limit
    }

    /// Turns the parameters into a window over `total` rows: the starting
    /// offset `(page - 1) * limit` and the number of rows in the page,
    /// `min(limit, total - offset)`. An offset beyond `total` is rejected.
    pub fn window(&self, total: usize) -> (r: Result<(usize, usize), QuestionBankErr>)
        requires
            self.page >= 1,
        ensures
            r is Ok <==> self.spec_offset() <= total,
            match r {
                Ok(w) => {
                    &&& w.0 == self.spec_offset()
                    &&& w.1 == vstd::math::min(self.limit as int, total - w.0)
                    &&& w.0 + w.1 <= total
                },
                Err(e) => e == QuestionBankErr::PaginationInvalid,
            },
    {
        let offset: u64 = match (self.page - 1).checked_mul(self.limit) {
            Some(v) => v,
            None => {
                return Err(QuestionBankErr::PaginationInvalid);
            },
        };
        if offset > total as u64 {
            return Err(QuestionBankErr::PaginationInvalid);
        }
        let start: usize = offset as usize;
        let rest: usize = total - start;
        let count: usize = if self.limit < rest as u64 {
            self.limit as usize
        } else {
            rest
        };
        Ok((start, count))
    }
}

} // verus!
