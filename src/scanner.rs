//! A pull-based scanner over the record stream.
use vstd::prelude::*;
use crate::record::{
    DataType, Record, RecordType, ScanError, HEADER_SIZE, header_length, record_at, record_fits,
    step,
};

verus! {

/// Walks a buffer record by record, strictly forward. Once a step fails, every
/// later step reports the same failure.
pub struct Scanner<'a> {
    buf: &'a [u8],
    pos: usize,
}

impl<'a> Scanner<'a> {
    /// The bytes being scanned.
    pub closed spec fn buffer(&self) -> Seq<u8> {
        self.buf@
    }

    /// The offset of the next header.
    pub closed spec fn cursor(&self) -> int {
        self.pos as int
    }

    pub closed spec fn wf(&self) -> bool {
        self.pos <= self.buf@.len()
    }

    /// A scanner at the start of `buf`.
    pub fn new(buf: &'a [u8]) -> (s: Self)
        ensures
            s.wf(),
            s.buffer() == buf@,
            s.cursor() == 0,
    {
        Scanner { buf, pos: 0 }
    }

    /// The offset of the next header.
    pub fn position(&self) -> (r: usize)
        ensures
            r == self.cursor(),
    {
        self.pos
    }

    /// Reads the record at the cursor and moves past it. Returns `None` when
    /// the cursor is at the end of the buffer, and the failure when no
    /// complete record starts at the cursor; in both cases the cursor stays.
    pub fn next_record(&mut self) -> (r: Option<Result<Record, ScanError>>)
        requires
            old(self).wf(),
        ensures
            final(self).wf(),
            final(self).buffer() == old(self).buffer(),
            r == step(old(self).buffer(), old(self).cursor()),
            match r {
                Some(Ok(rec)) => {
                    &&& final(self).cursor() == rec.end
                    &&& final(self).cursor() == old(self).cursor() + header_length(
                        old(self).buffer(),
                        old(self).cursor(),
                    )
                    &&& final(self).cursor() >= old(self).cursor() + 4
                },
                _ => final(self).cursor() == old(self).cursor(),
            },
    {
        let len = self.buf.len();
        let pos = self.pos;
        if pos == len {
            return None;
        }
        if len - pos < HEADER_SIZE {
            return Some(Err(ScanError::TruncatedHeader));
        }
        let length = (self.buf[pos] as usize) * 256 + (self.buf[pos + 1] as usize);
        if length < HEADER_SIZE {
            return Some(Err(ScanError::InvalidRecordLength));
        }
        if length > len - pos {
            return Some(Err(ScanError::TruncatedPayload));
        }
        let rec = Record {
            record_type: RecordType::from_tag(self.buf[pos + 2]),
            data_type: DataType::from_tag(self.buf[pos + 3]),
            start: pos + HEADER_SIZE,
            end: pos + length,
        };
        assert(length == header_length(self.buf@, pos as int));
        assert(record_fits(self.buf@, pos as int));
        assert(rec == record_at(self.buf@, pos as int));
        self.pos = pos + length;
        Some(Ok(rec))
    }
}

} // verus!
