use vstd::prelude::*;

use super::FileId;

verus! {

/// Result code of a record that the service found.
pub const RESULT_OK: u32 = 1;

/// The answer of the detail lookup.
pub struct Response {
    pub count: usize,
    pub details: Vec<Detail>,
}

/// The metadata of one item, present when the lookup found it.
pub struct DetailInner {
    pub app_id: FileId,
    pub title: String,
    pub description: String,
    /// Seconds since the Unix epoch.
    pub time_created: i64,
    /// Seconds since the Unix epoch.
    pub time_updated: i64,
}

/// One record of the detail lookup.
pub struct Detail {
    pub file_id: FileId,
    pub result: u32,
    pub inner: Option<DetailInner>,
}

impl Detail {
    /// A record is usable when its result code says success and its metadata
    /// is there; both are checked.
    pub open spec fn valid(&self) -> bool {
        self.result == RESULT_OK && self.inner is Some
    }

    pub fn is_valid_item(&self) -> (r: bool)
        ensures
            r == self.valid(),
    {
        self.result == RESULT_OK && self.inner.is_some()
    }
}

} // verus!
