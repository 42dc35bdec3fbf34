//! A safety boundary around a pack/unpack compression capability, as used by a
//! two-file (header/data) archive container.
//!
//! The codec boundary in [`compression`] validates buffer sizes against the
//! archive format's 32-bit length fields, transfers ownership of buffers
//! allocated by the compression capability (releasing each exactly once), and
//! maps low-level status codes into a typed error space. The capability itself
//! lives in [`capability`]; its compression scheme is specified in [`rle`].
//! [`error`] holds the error taxonomy of the surrounding archive layer.

pub mod capability;
pub mod compression;
pub mod error;
pub mod rle;
