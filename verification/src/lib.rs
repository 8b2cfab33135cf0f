//! Boot-ROM checksum computation and patching for LPC-family microcontroller
//! firmware images.
//!
//! The boot ROM of these processors validates a firmware image by summing a
//! fixed number of leading 32-bit little-endian words and requiring the sum to
//! be zero modulo 2^32; one word slot in that region is reserved for the
//! checksum value itself. This crate holds the scheme table for the supported
//! processor families, the resolver from a part number to its scheme, and the
//! engine that computes and patches the checksum.

pub mod engine;
pub mod registry;
