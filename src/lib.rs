//! Comment retrieval and threading engine for a comment-hosting service.
//!
//! The library holds the logic of a fetch: the timestamp codec of the comment store, the
//! moderation-mode filter, the filtered, ordered and paginated comment listing, the per-parent
//! reply counts, the join of those two operations, and the assembly of the client-facing view.
//! Reading the store, running the two operations concurrently and serialising the result are
//! left to the caller.

pub mod api;
pub mod mode;
pub mod models;
pub mod render;
pub mod timestamp;
