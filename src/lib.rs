//! Object-store archive of write-ahead-log segments: the key schema, the
//! framing of segment index objects, and the decisions taken while storing,
//! fetching, listing and restoring segments.

pub mod backend;
pub mod body;
pub mod error;
pub mod index;
pub mod key;
pub mod le;
pub mod restore;
pub mod segment;
