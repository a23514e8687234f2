//! The record vocabulary of the stream and the mathematical model of a scan.
use vstd::prelude::*;

verus! {

/// Tag of a library-name record.
pub const LIBNAME_TAG: u8 = 0x02;

/// Tag of a structure-name record (a cell definition).
pub const STRNAME_TAG: u8 = 0x06;

/// Tag of a structure-reference-name record (the cell named by an instance).
pub const SNAME_TAG: u8 = 0x12;

/// Data-type tag of an ASCII string payload.
pub const ASCII_STRING_TAG: u8 = 0x06;

/// Size of a record header: two length bytes, the record type, the data type.
pub const HEADER_SIZE: usize = 4;

/// The record types that the extractor reads; every other tag is skipped.
#[derive(Clone, Copy, Debug, PartialEq, Eq, Structural)]
pub enum RecordType {
    LibName,
    StructureName,
    StructureRefName,
    Other(u8),
}

/// The payload encodings that the extractor tells apart.
#[derive(Clone, Copy, Debug, PartialEq, Eq, Structural)]
pub enum DataType {
    AsciiString,
    Other(u8),
}

/// Why a scan stopped before the end of the buffer.
#[derive(Clone, Copy, Debug, PartialEq, Eq, Structural)]
pub enum ScanError {
    /// Fewer than four bytes remain after the last complete record.
    TruncatedHeader,
    /// A header declares a total length below the header's own size.
    InvalidRecordLength,
    /// A header declares a length that runs past the end of the buffer.
    TruncatedPayload,
}

/// One record of the stream. The payload is `buffer[start..end]`; the header
/// occupies the four bytes before `start`, and the next record begins at `end`.
#[derive(Clone, Copy, Debug, PartialEq, Eq, Structural)]
pub struct Record {
    pub record_type: RecordType,
    pub data_type: DataType,
    pub start: usize,
    pub end: usize,
}

pub open spec fn record_type_of(tag: u8) -> RecordType {
    if tag == LIBNAME_TAG {
        RecordType::LibName
    } else if tag == STRNAME_TAG {
        RecordType::StructureName
    } else if tag == SNAME_TAG {
        RecordType::StructureRefName
    } else {
        RecordType::Other(tag)
    }
}

pub open spec fn data_type_of(tag: u8) -> DataType {
    if tag == ASCII_STRING_TAG {
        DataType::AsciiString
    } else {
        DataType::Other(tag)
    }
}

impl RecordType {
    /// Classifies a record-type tag byte.
    pub fn from_tag(tag: u8) -> (r: RecordType)
        ensures
            r == record_type_of(tag),
    {
        if tag == LIBNAME_TAG {
            RecordType::LibName
        } else if tag == STRNAME_TAG {
            RecordType::StructureName
        } else if tag == SNAME_TAG {
            RecordType::StructureRefName
        } else {
            RecordType::Other(tag)
        }
    }
}

impl DataType {
    /// Classifies a data-type tag byte.
    pub fn from_tag(tag: u8) -> (r: DataType)
        ensures
            r == data_type_of(tag),
    {
        if tag == ASCII_STRING_TAG {
            DataType::AsciiString
        } else {
            DataType::Other(tag)
        }
    }
}

/// The declared total length of the record whose header starts at `pos`
/// (big-endian, header included).
pub open spec fn header_length(buf: Seq<u8>, pos: int) -> int {
    buf[pos] as int * 256 + buf[pos + 1] as int
}

/// A complete, well-formed record starts at `pos`.
pub open spec fn record_fits(buf: Seq<u8>, pos: int) -> bool {
    &&& 0 <= pos
    &&& pos + 4 <= buf.len()
    &&& 4 <= header_length(buf, pos)
    &&& pos + header_length(buf, pos) <= buf.len()
}

/// The record whose header starts at `pos`.
pub open spec fn record_at(buf: Seq<u8>, pos: int) -> Record {
    Record {
        record_type: record_type_of(buf[pos + 2]),
        data_type: data_type_of(buf[pos + 3]),
        start: (pos + 4) as usize,
        end: (pos + header_length(buf, pos)) as usize,
    }
}

/// The failure met at `pos` when no complete record starts there.
pub open spec fn failure_at(buf: Seq<u8>, pos: int) -> ScanError {
    if pos + 4 > buf.len() {
        ScanError::TruncatedHeader
    } else if header_length(buf, pos) < 4 {
        ScanError::InvalidRecordLength
    } else {
        ScanError::TruncatedPayload
    }
}

/// One step of the scan at cursor `pos`: `None` when the buffer is exhausted,
/// the record found there, or the failure that stops the scan.
pub open spec fn step(buf: Seq<u8>, pos: int) -> Option<Result<Record, ScanError>> {
    if pos >= buf.len() {
        None
    } else if record_fits(buf, pos) {
        Some(Ok(record_at(buf, pos)))
    } else {
        Some(Err(failure_at(buf, pos)))
    }
}

/// The records that a scan from `pos` yields, in stream order.
pub open spec fn records_from(buf: Seq<u8>, pos: int) -> Seq<Record>
    decreases buf.len() - pos,
{
    if record_fits(buf, pos) {
        seq![record_at(buf, pos)] + records_from(buf, pos + header_length(buf, pos))
    } else {
        seq![]
    }
}

/// How a scan from `pos` ends: `None` when it reaches the end of the buffer
/// exactly, otherwise the failure that stops it.
pub open spec fn scan_end(buf: Seq<u8>, pos: int) -> Option<ScanError>
    decreases buf.len() - pos,
{
    if record_fits(buf, pos) {
        scan_end(buf, pos + header_length(buf, pos))
    } else if pos >= buf.len() {
        None
    } else {
        Some(failure_at(buf, pos))
    }
}

/// The payload bytes of `r` within `buf`.
pub open spec fn payload_of(buf: Seq<u8>, r: Record) -> Seq<u8> {
    buf.subrange(r.start as int, r.end as int)
}

/// `r` has record type `t` and carries an ASCII string.
pub open spec fn carries_text(r: Record, t: RecordType) -> bool {
    r.record_type == t && r.data_type == DataType::AsciiString
}

} // verus!
