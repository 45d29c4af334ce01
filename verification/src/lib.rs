//! A buffered adapter over any pull-based byte source.
//!
//! [`ReadIter`] wraps a [`ByteSource`] and layers three read styles over one
//! shared fixed-size buffer and cursor: byte-at-a-time production, whole-buffer
//! reads, and a peek/consume interface. All three respect the same logical
//! stream, so they can be interleaved without losing or duplicating bytes.

pub mod source;
pub mod buffered;

pub use buffered::ReadIter;
pub use buffered::BUFFER_SIZE;
pub use source::ByteSource;
pub use source::MemSource;
pub use source::FailSource;
