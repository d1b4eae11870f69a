//! Resolution of Steam Workshop items and collections into a deduplicated,
//! ordered list of downloads, and the review pass that assembles the
//! download instructions.

pub mod files;
pub mod net;
pub mod review;
pub mod text;
