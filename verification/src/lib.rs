//! Core scheduling primitives for a concurrent document-indexing path:
//! an approximate priority queue that picks which in-memory writer buffer
//! to flush first, and a bounded slot bitmap that tracks which per-thread
//! writer slots are claimed.

pub mod approx_priority_queue;
pub mod doc;
pub mod doc_writer_per_thread_pool;
pub mod indexable_field;
pub mod internal_err;
