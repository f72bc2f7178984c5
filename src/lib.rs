//! A packet reflection engine: it recognises a TCP segment that carries a fixed
//! signature, rewrites it in place into a reply from the destination it was bound for,
//! and recomputes its checksums.

pub mod checksum;
pub mod packet;
pub mod transform;
pub mod frame_csum;
pub mod engine;
pub mod laws;
