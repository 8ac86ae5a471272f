//! A single-file archive container: a fixed 512-byte header, per-entry
//! compressed data blocks, a length-prefixed index, and a fixed 64-byte end
//! record, all tied together by a whole-archive digest that excludes its own
//! storage fields.

pub mod bytes;
pub mod compress;
pub mod digest;
pub mod errors;
pub mod models;
pub mod numfmt;
pub mod paths;
pub mod reader;
pub mod validation;
pub mod writer;
