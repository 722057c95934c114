//! A byte-range editing toolkit for flat binary files: cutting a byte
//! range out of a file, stitching files together at fixed offsets with
//! padded gaps, grafting replacement bytes into a range, and signing and
//! verifying whole files through an appended Ed25519 signature trailer.
//!
//! Every operation works on in-memory byte buffers; reading and writing
//! the files themselves is the caller's business.

pub mod cmd_serialize;
pub mod concat;
pub mod cut;
pub mod errors;
pub mod graft;
pub mod signature;
pub mod stitch;
