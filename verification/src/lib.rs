//! Label indexing and search for a video catalogue.
//!
//! Detected labels are normalized into a canonical, sorted, duplicate-free
//! token set; an inverted index maps each label token to the set of video
//! identifiers carrying it; searches invert that index back into per-video
//! result records. The index is updated through bounded atomic batches, so
//! the write planner and the posting-map semantics are modelled and proved
//! here, while process wiring and the store transport live outside.

pub mod error;
pub mod ident;
pub mod labels;
pub mod routes;
pub mod postings;
pub mod search;
pub mod store;
pub mod text;
