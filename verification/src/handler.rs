//! Parameter shapes of the HTTP layer, and the paging arithmetic behind it.
use vstd::prelude::*;

use crate::api::QueryParams;

verus! {

/// Paging bounds a list request may carry.
pub struct PaginationParams {
    pub page: Option<u32>,
    pub limit: Option<u32>,
}

/// A word-search request.
pub struct SearchParams {
    pub q: String,
}

/// The envelope the reading-library endpoints answer with: a payload
/// rendered elsewhere, kept as text here.
pub struct CommonplaceApiResponse {
    pub data: String,
}

/// The error envelope of the reading-library endpoints.
pub struct ErrorResponse {
    pub error: String,
}

/// The page size used when a request does not name one, and its cap.
pub open spec fn default_limit() -> u32 {
    50
}

/// The paging values a handler works with, derived from the raw query.
pub struct HandlerParams {
    pub query: Option<String>,
    pub page: u32,
    pub limit: u32,
    pub offset: u32,
    pub state: Option<String>,
}

impl QueryParams {
    /// Normalizes the raw query: the page is at least one, the limit is
    /// clamped between one and the default, and the offset addresses the
    /// page's first row (saturating at the numeric ceiling).
    pub fn into_handler_params(self) -> (r: HandlerParams)
        ensures
            r.query == self.q,
            r.state == self.state,
            r.page == (match self.page {
                Some(p) => if p >= 1 {
                    p
                } else {
                    1u32
                },
                None => 1u32,
            }),
            r.limit == (match self.limit {
                Some(l) => if l < 1 {
                    1u32
                } else if l > default_limit() {
                    default_limit()
                } else {
                    l
                },
                None => default_limit(),
            }),
            r.offset == (if (r.page - 1) * r.limit <= u32::MAX {
                (r.page - 1) * r.limit
            } else {
                u32::MAX as int
            }),
    {
        let page = match self.page {
            Some(p) => if p >= 1 {
                p
            } else {
                1
            },
            None => 1,
        };
        let limit = match self.limit {
            Some(l) => if l < 1 {
                1
            } else if l > 50 {
                50
            } else {
                l
            },
            None => 50,
        };
        let offset = match (page - 1).checked_mul(limit) {
            Some(o) => o,
            None => u32::MAX,
        };
        HandlerParams { query: self.q, page, limit, offset, state: self.state }
    }
}

} // verus!
