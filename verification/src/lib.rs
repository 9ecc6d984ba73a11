//! A verified library for turning raw 16-bit PCM audio into a framed
//! container of Opus packets, optionally prefixed with a JSON metadata
//! header.
//!
//! The library covers the pure logic of the pipeline: slicing a PCM
//! sample stream into fixed-size frames (zero-padding the last short
//! frame), validating the codec configuration and sizing its packet
//! buffers, building and serializing the metadata document, and
//! laying out the container bytes (magic tag, metadata length and
//! document, then length-prefixed packets).  The codec itself, I/O,
//! subprocesses and threading live outside the library.

pub mod chunker;
pub mod json;
pub mod metadata;
pub mod container;
pub mod encode;
pub mod settings;

