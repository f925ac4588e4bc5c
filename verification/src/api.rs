//! The service's API envelope and query-string shapes.
use vstd::prelude::*;

use crate::db::MetadataAggregate;
use crate::model::Book;

verus! {

/// The query parameters the list endpoints take.
pub struct QueryParams {
    pub q: Option<String>,
    pub page: Option<u32>,
    pub limit: Option<u32>,
    pub state: Option<String>,
}

/// The common answer envelope of the book endpoints.
pub struct APIResponse {
    pub status: String,
    pub books: Vec<Book>,
    pub upload_id: Option<String>,
    pub metadata: Option<MetadataAggregate>,
}

impl APIResponse {
    /// An envelope carrying just a status message.
    pub fn new_from_msg(msg: &str) -> (r: APIResponse)
        ensures
            r.status@ == msg@,
            r.books@.len() == 0,
            r.upload_id is None,
            r.metadata is None,
    {
        APIResponse {
            status: String::from_str(msg),
            books: Vec::new(),
            upload_id: None,
            metadata: None,
        }
    }
}

} // verus!
