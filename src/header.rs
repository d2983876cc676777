use vstd::prelude::*;
use vstd::slice::{slice_subrange, slice_to_vec};
use crate::cursor::{le32, le64, u32_at, u64_at};
use crate::error::{ErrorKind, HiveParseError};
use crate::hive::{ascii_lower, lower};

verus! {

/// Size in bytes of the base block that opens every hive file.
pub const BASE_BLOCK_SIZE: usize = 4096;

/// Size in bytes of a hive bin's header.
pub const BIN_HEADER_SIZE: usize = 32;

/// Size in bytes of the file name embedded in the base block.
pub const FILE_NAME_SIZE: usize = 64;

/// Whether the four bytes at `p` spell `a b c d`, ignoring ASCII case.
pub open spec fn has_signature(s: Seq<u8>, p: int, a: u8, b: u8, c: u8, d: u8) -> bool {
    lower(s[p]) == a && lower(s[p + 1]) == b && lower(s[p + 2]) == c && lower(s[p + 3]) == d
}

fn signature_is(buf: &[u8], p: usize, a: u8, b: u8, c: u8, d: u8) -> (r: bool)
    requires
        p + 4 <= buf@.len(),
    ensures
        r == has_signature(buf@, p as int, a, b, c, d),
{
    ascii_lower(buf[p]) == a && ascii_lower(buf[p + 1]) == b && ascii_lower(buf[p + 2]) == c
        && ascii_lower(buf[p + 3]) == d
}

/// Whether a base block starts at 0: the signature `regf`.
pub open spec fn is_regf(s: Seq<u8>) -> bool {
    has_signature(s, 0, 0x72, 0x65, 0x67, 0x66)
}

/// Whether a bin header starts at `p`: the signature `hbin`.
pub open spec fn is_hbin(s: Seq<u8>, p: int) -> bool {
    has_signature(s, p, 0x68, 0x62, 0x69, 0x6E)
}

/// The file header: what the hive says of itself.
#[derive(Debug)]
pub struct HiveBaseBlock {
    pub primary_sequence_number: u32,
    pub secondary_sequence_number: u32,
    pub last_written_timestamp: u64,
    pub major_version: u32,
    pub minor_version: u32,
    pub file_type: u32,
    pub file_format: u32,
    /// Offset of the root key's cell, relative to the end of the base block.
    pub root_cell_offset: u32,
    /// Declared total size of the hive bins.
    pub hive_bins_data_size: u32,
    pub clustering_factor: u32,
    /// The embedded file name, as its raw UTF-16LE bytes.
    pub file_name_bytes: Vec<u8>,
    pub checksum: u32,
    pub boot_type: u32,
    pub boot_recover: u32,
}

/// What a [`HiveBaseBlock`] holds.
pub struct HiveBaseBlockView {
    pub primary_sequence_number: u32,
    pub secondary_sequence_number: u32,
    pub last_written_timestamp: u64,
    pub major_version: u32,
    pub minor_version: u32,
    pub file_type: u32,
    pub file_format: u32,
    pub root_cell_offset: u32,
    pub hive_bins_data_size: u32,
    pub clustering_factor: u32,
    pub file_name_bytes: Seq<u8>,
    pub checksum: u32,
    pub boot_type: u32,
    pub boot_recover: u32,
}

impl View for HiveBaseBlock {
    type V = HiveBaseBlockView;

    open spec fn view(&self) -> HiveBaseBlockView {
        HiveBaseBlockView {
            primary_sequence_number: self.primary_sequence_number,
            secondary_sequence_number: self.secondary_sequence_number,
            last_written_timestamp: self.last_written_timestamp,
            major_version: self.major_version,
            minor_version: self.minor_version,
            file_type: self.file_type,
            file_format: self.file_format,
            root_cell_offset: self.root_cell_offset,
            hive_bins_data_size: self.hive_bins_data_size,
            clustering_factor: self.clustering_factor,
            file_name_bytes: self.file_name_bytes@,
            checksum: self.checksum,
            boot_type: self.boot_type,
            boot_recover: self.boot_recover,
        }
    }
}

/// The base block at the start of `s`: fields at fixed offsets, with two
/// reserved spans (396 bytes after the file name, 3576 after the checksum) left
/// uninterpreted.
pub open spec fn spec_base_block(s: Seq<u8>) -> Result<HiveBaseBlockView, HiveParseError> {
    if s.len() < BASE_BLOCK_SIZE {
        Err(HiveParseError { offset: 0, kind: ErrorKind::UnexpectedEnd })
    } else if !is_regf(s) {
        Err(HiveParseError { offset: 0, kind: ErrorKind::InvalidSignature })
    } else {
        Ok(
            HiveBaseBlockView {
                primary_sequence_number: le32(s, 4),
                secondary_sequence_number: le32(s, 8),
                last_written_timestamp: le64(s, 12),
                major_version: le32(s, 20),
                minor_version: le32(s, 24),
                file_type: le32(s, 28),
                file_format: le32(s, 32),
                root_cell_offset: le32(s, 36),
                hive_bins_data_size: le32(s, 40),
                clustering_factor: le32(s, 44),
                file_name_bytes: s.subrange(48, 48 + FILE_NAME_SIZE),
                checksum: le32(s, 508),
                boot_type: le32(s, 4088),
                boot_recover: le32(s, 4092),
            },
        )
    }
}

/// What `WString::<LittleEndian>::from_utf16le` gives on these bytes, as characters:
/// `None` where they are not valid UTF-16LE.
pub uninterp spec fn utf16le_text(b: Seq<u8>) -> Option<Seq<char>>;

/// Relies on `utf16string::WString::<LittleEndian>::from_utf16le`, which validates the
/// bytes as UTF-16LE and fails on an odd length, and on `WStr::to_utf8` for the characters.
#[verifier::external_body]
fn decode_utf16le(bytes: Vec<u8>) -> (r: Option<String>)
    ensures
        r is Some <==> utf16le_text(bytes@) is Some,
        r is Some ==> r->Some_0@ == utf16le_text(bytes@)->Some_0,
        bytes@.len() % 2 == 1 ==> r is None,
{
    match utf16string::WString::<utf16string::LittleEndian>::from_utf16le(bytes) {
        Ok(w) => Some(w.to_utf8()),
        Err(_) => None,
    }
}

impl HiveBaseBlock {
    /// Decodes the base block at the start of the buffer.
    pub fn build(buf: &[u8]) -> (r: Result<HiveBaseBlock, HiveParseError>)
        ensures
            match spec_base_block(buf@) {
                Ok(v) => r is Ok && r->Ok_0@ == v,
                Err(e) => r == Err::<HiveBaseBlock, HiveParseError>(e),
            },
    {
        if buf.len() < BASE_BLOCK_SIZE {
            return Err(HiveParseError { offset: 0, kind: ErrorKind::UnexpectedEnd });
        }
        if !signature_is(buf, 0, 0x72, 0x65, 0x67, 0x66) {
            return Err(HiveParseError { offset: 0, kind: ErrorKind::InvalidSignature });
        }
        Ok(HiveBaseBlock {
            primary_sequence_number: u32_at(buf, 4),
            secondary_sequence_number: u32_at(buf, 8),
            last_written_timestamp: u64_at(buf, 12),
            major_version: u32_at(buf, 20),
            minor_version: u32_at(buf, 24),
            file_type: u32_at(buf, 28),
            file_format: u32_at(buf, 32),
            root_cell_offset: u32_at(buf, 36),
            hive_bins_data_size: u32_at(buf, 40),
            clustering_factor: u32_at(buf, 44),
            file_name_bytes: slice_to_vec(slice_subrange(buf, 48, 48 + FILE_NAME_SIZE)),
            checksum: u32_at(buf, 508),
            boot_type: u32_at(buf, 4088),
            boot_recover: u32_at(buf, 4092),
        })
    }

    /// The embedded file name, or `None` where its bytes are not valid UTF-16LE.
    pub fn file_name(&self) -> (r: Option<String>)
        ensures
            r is Some <==> utf16le_text(self.file_name_bytes@) is Some,
            r is Some ==> r->Some_0@ == utf16le_text(self.file_name_bytes@)->Some_0,
    {
        decode_utf16le(self.file_name_bytes.clone())
    }
}

/// The header that opens each hive bin.
#[derive(Debug, Clone, Copy, PartialEq, Eq, Structural)]
pub struct HiveBinHeader {
    /// The bin's offset as it records it, relative to the end of the base block.
    pub offset: u32,
    /// The bin's declared size, header included.
    pub size: u32,
    pub timestamp: u64,
    pub spare: u32,
}

/// The bin header at `p`: signature `hbin`, offset, size, eight reserved bytes,
/// timestamp and spare field.
pub open spec fn spec_bin_header(s: Seq<u8>, p: int) -> Result<HiveBinHeader, ErrorKind> {
    if p + BIN_HEADER_SIZE > s.len() {
        Err(ErrorKind::UnexpectedEnd)
    } else if !is_hbin(s, p) {
        Err(ErrorKind::InvalidSignature)
    } else {
        Ok(
            HiveBinHeader {
                offset: le32(s, p + 4),
                size: le32(s, p + 8),
                timestamp: le64(s, p + 20),
                spare: le32(s, p + 28),
            },
        )
    }
}

impl HiveBinHeader {
    /// Decodes the bin header at `p`.
    pub fn build(buf: &[u8], p: usize) -> (r: Result<HiveBinHeader, ErrorKind>)
        ensures
            r == spec_bin_header(buf@, p as int),
    {
        if buf.len() < BIN_HEADER_SIZE || p > buf.len() - BIN_HEADER_SIZE {
            return Err(ErrorKind::UnexpectedEnd);
        }
        if !signature_is(buf, p, 0x68, 0x62, 0x69, 0x6E) {
            return Err(ErrorKind::InvalidSignature);
        }
        Ok(HiveBinHeader {
            offset: u32_at(buf, p + 4),
            size: u32_at(buf, p + 8),
            timestamp: u64_at(buf, p + 20),
            spare: u32_at(buf, p + 28),
        })
    }

    /// The bin's offset as it records it.
    pub fn offset(&self) -> (r: u32)
        ensures
            r == self.offset,
    {
        self.offset
    }

    /// The bin's declared size.
    pub fn size(&self) -> (r: u32)
        ensures
            r == self.size,
    {
        self.size
    }
}

} // verus!
