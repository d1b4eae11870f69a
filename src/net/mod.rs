use vstd::prelude::*;

pub mod get_collection_details;
pub mod get_published_file_details;

verus! {

/// Identifier of a workshop item: a mod or a collection.
pub type FileId = u64;

/// The envelope in which the remote service returns every answer.
pub struct Wrapper<T> {
    pub response: T,
}

} // verus!
