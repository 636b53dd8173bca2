//! Bootstrapping a node's history from the distributed storage network.
//!
//! The import of archived history: which segments to fetch (`segment_cursor`),
//! how pieces are numbered and what a segment header says (`segments`), the
//! stored headers and the check of each fetched piece against its segment's
//! commitment (`header_store`), the bounded set of fetches that gathers enough
//! usable pieces of a segment (`piece_collection`), and the ordered, bounded
//! hand-over of decoded blocks to an import queue (`block_queue`).
//!
//! Around it: which peers may hold which pieces (`archival_storage_info`), the
//! command line values a node reads (`cpu_cores`, `entropy`, `node_options`),
//! and the decisions of a domain executor (`active_leaves`, `pre_validation`).
pub mod segments;
pub mod errors;
pub mod header_store;
pub mod piece_collection;
pub mod block_queue;
pub mod segment_cursor;
pub mod archival_storage_info;
pub mod cpu_cores;
pub mod entropy;
pub mod node_options;
pub mod active_leaves;
pub mod pre_validation;
