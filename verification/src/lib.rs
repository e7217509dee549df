//! Read side of a content-addressed object store: framing, hashing,
//! decompression, abbreviated-hash resolution and rendering of objects.

pub mod bytes;
pub mod codec;
pub mod digest;
pub mod error;
pub mod hexfmt;
pub mod inflate;
pub mod object;
pub mod render;
pub mod repo;
pub mod resolve;
pub mod roundtrip;
