//! The core of a staged video-analytics pipeline: frames and their
//! objects with typed, namespaced attributes; a multi-stage container
//! that moves, packs and unpacks them and carries deferred updates; a
//! serializable predicate language over objects with its evaluator; a
//! checksum-indexed local mirror of remote configuration; and a bounded
//! durable FIFO over a cell store with crash-safe dual-index
//! persistence. Every operation carries a contract, and the laws the
//! container obeys are proved alongside it.

pub mod attribute;
pub mod attrset;
pub mod batch;
pub mod bbox;
pub mod cellmap;
pub mod content;
pub mod errors;
pub mod float_value;
pub mod frame;
pub mod frame_update;
pub mod idmap;
pub mod match_query;
pub mod object;
pub mod param_store;
pub mod pipeline;
pub mod polygon;
pub mod proto;
pub mod queue;
pub mod strutil;
pub mod udf;
