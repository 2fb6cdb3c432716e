//! Decoding of columnar alignment containers: the order-0 rANS entropy codec, container,
//! block and compression-header metadata, read-sequence reconstruction from reference edits,
//! and the seek/scan state machine behind indexed region queries; with the auxiliary-field
//! tags and annotation fields that records carry.

pub mod block;
pub mod container;
pub mod error;
pub mod feature;
pub mod gtf;
pub mod header_text;
pub mod num;
pub mod preservation_map;
pub mod query;
pub mod rans;
pub mod rans_inverse;
pub mod sequence;
pub mod substitution_matrix;
pub mod tag;
