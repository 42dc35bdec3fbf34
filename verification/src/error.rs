//! The error taxonomy of the archive layer that consumes the codec boundary.

use vstd::prelude::*;

verus! {

/// Classification of every failure the archive read/write path can report:
/// one variant per failure locus. Codec-level failures ([`crate::compression::Error`])
/// are folded into `UnpackError` by the archive layer. No variant carries a
/// message; classification alone is the contract.
#[derive(Debug, PartialEq, Eq)]
pub enum ArchiveError {
    HEDReadError,
    HEDCreateError,
    HEDWriteError,
    HEDFormatError,
    DATReadError,
    DATCreateError,
    DATWriteError,
    NamesFormatError,
    OffsetError,
    LengthError,
    UnpackError,
    FileNotPresentError,
}

} // verus!
