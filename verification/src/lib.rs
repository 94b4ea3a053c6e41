//! Verified core of a directory-scoped image-to-PDF bundling pipeline.
//!
//! The library decides everything the pipeline does: which files count as
//! images, which need conversion to JPEG, how a directory's images are
//! ordered, which directories get a PDF, and when a source file may be
//! deleted. Filesystem traversal, reading and writing are left to a thin
//! caller that hands the library plain values.

pub mod codec;
pub mod entries;
pub mod order;
pub mod paths;
pub mod pdf;
pub mod plan;
pub mod progress;
pub mod roots;
