use vstd::prelude::*;

verus! {

/// What went wrong while decoding a hive, at one offset.
#[derive(Debug, Clone, Copy, PartialEq, Eq, Structural)]
pub enum ErrorKind {
    /// A base-block or bin-header signature is not the expected constant.
    InvalidSignature,
    /// A hive bin extends past the end of the buffer.
    Truncated,
    /// A hive bin declares a size too small to hold its own header.
    InvalidBinSize,
    /// An allocated cell carries a signature that no record has.
    UnknownCellType,
    /// A read needs more bytes than remain: a buffer shorter than a base
    /// block, or a record whose fields run past the end of its cell.
    UnexpectedEnd,
    /// A cell declares a size that is smaller than its size field or runs past its bin.
    InvalidCellSize,
    /// A name does not fit in its cell or is not UTF-8; a placeholder stands for it.
    MalformedName,
    /// An offset does not lead to a record of the expected kind.
    DanglingReference,
    /// An offset is reached again on the path that led to it.
    CyclicReference,
    /// The bins' sizes do not add up to the size that the base block declares.
    SizeMismatch,
}

/// A decoding error: its classification and the file offset at which it occurred.
#[derive(Debug, Clone, Copy, PartialEq, Eq, Structural)]
pub struct HiveParseError {
    pub offset: u64,
    pub kind: ErrorKind,
}

} // verus!
