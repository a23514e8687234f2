use gdsii_parser::record::{DataType, Record, RecordType, ScanError};
use gdsii_parser::scanner::Scanner;

fn record_bytes(record_type: u8, data_type: u8, payload: &[u8]) -> Vec<u8> {
    let n = payload.len() + 4;
    let mut out = vec![(n / 256) as u8, (n % 256) as u8, record_type, data_type];
    out.extend_from_slice(payload);
    out
}

fn scan_all(buf: &[u8]) -> (Vec<Record>, Option<ScanError>) {
    let mut scanner = Scanner::new(buf);
    let mut records = Vec::new();
    loop {
        match scanner.next_record() {
            None => return (records, None),
            Some(Err(e)) => return (records, Some(e)),
            Some(Ok(r)) => records.push(r),
        }
    }
}

#[test]
fn scanner_yields_records_in_order() {
    let mut buf = record_bytes(0x00, 0x02, &[0x02, 0x58]);
    buf.extend(record_bytes(0x02, 0x06, b"LIB\0"));
    buf.extend(record_bytes(0x04, 0x00, &[]));
    let (records, failure) = scan_all(&buf);
    assert_eq!(failure, None);
    assert_eq!(records.len(), 3);
    assert_eq!(records[0].record_type, RecordType::Other(0x00));
    assert_eq!(records[0].data_type, DataType::Other(0x02));
    assert_eq!(&buf[records[0].start..records[0].end], &[0x02, 0x58]);
    assert_eq!(records[1].record_type, RecordType::LibName);
    assert_eq!(records[1].data_type, DataType::AsciiString);
    assert_eq!(&buf[records[1].start..records[1].end], b"LIB\0");
    assert_eq!(records[2].record_type, RecordType::Other(0x04));
    assert_eq!(records[2].start, records[2].end);
    let total: usize = records.iter().map(|r| r.end - r.start + 4).sum();
    assert_eq!(total, buf.len());
}

#[test]
fn scanner_cursor_advances_by_record_length() {
    let mut buf = record_bytes(0x06, 0x06, b"AB");
    buf.extend(record_bytes(0x12, 0x06, b"CDEF"));
    let mut scanner = Scanner::new(&buf);
    assert_eq!(scanner.position(), 0);
    assert!(matches!(scanner.next_record(), Some(Ok(_))));
    assert_eq!(scanner.position(), 6);
    assert!(matches!(scanner.next_record(), Some(Ok(_))));
    assert_eq!(scanner.position(), 14);
    assert_eq!(scanner.next_record(), None);
    assert_eq!(scanner.position(), 14);
}

#[test]
fn scanner_empty_buffer_is_exhausted() {
    let (records, failure) = scan_all(&[]);
    assert!(records.is_empty());
    assert_eq!(failure, None);
}

#[test]
fn scanner_truncated_header() {
    let mut buf = record_bytes(0x02, 0x06, b"AB");
    buf.extend_from_slice(&[0x00, 0x08, 0x06]);
    let (records, failure) = scan_all(&buf);
    assert_eq!(records.len(), 1);
    assert_eq!(failure, Some(ScanError::TruncatedHeader));
}

#[test]
fn scanner_truncated_payload() {
    let full = record_bytes(0x06, 0x06, b"CELLNAME");
    let (records, failure) = scan_all(&full[..9]);
    assert!(records.is_empty());
    assert_eq!(failure, Some(ScanError::TruncatedPayload));
}

#[test]
fn scanner_every_cut_inside_a_record_fails() {
    let mut buf = record_bytes(0x02, 0x06, b"LIBRARY\0");
    buf.extend(record_bytes(0x06, 0x06, b"TOP\0"));
    let boundaries = [0usize, 12, 20];
    for k in 0..buf.len() {
        let (_, failure) = scan_all(&buf[..k]);
        if boundaries.contains(&k) {
            assert_eq!(failure, None);
        } else {
            assert!(
                failure == Some(ScanError::TruncatedHeader)
                    || failure == Some(ScanError::TruncatedPayload)
            );
        }
    }
}

#[test]
fn scanner_rejects_zero_length() {
    let buf = [0x00u8, 0x00, 0x02, 0x06, 0x41, 0x42];
    let mut scanner = Scanner::new(&buf);
    assert_eq!(scanner.next_record(), Some(Err(ScanError::InvalidRecordLength)));
    assert_eq!(scanner.position(), 0);
    assert_eq!(scanner.next_record(), Some(Err(ScanError::InvalidRecordLength)));
}

#[test]
fn scanner_rejects_length_below_header() {
    let mut buf = record_bytes(0x00, 0x02, &[0x02, 0x58]);
    buf.extend_from_slice(&[0x00, 0x03, 0x06, 0x06]);
    let (records, failure) = scan_all(&buf);
    assert_eq!(records.len(), 1);
    assert_eq!(failure, Some(ScanError::InvalidRecordLength));
}

#[test]
fn scanner_big_endian_length() {
    let payload = vec![0u8; 0x0100];
    let buf = record_bytes(0x10, 0x03, &payload);
    assert_eq!(&buf[..2], &[0x01, 0x04]);
    let (records, failure) = scan_all(&buf);
    assert_eq!(failure, None);
    assert_eq!(records.len(), 1);
    assert_eq!(records[0].end, 0x0104);
}

#[test]
fn record_type_tags() {
    assert_eq!(RecordType::from_tag(0x02), RecordType::LibName);
    assert_eq!(RecordType::from_tag(0x06), RecordType::StructureName);
    assert_eq!(RecordType::from_tag(0x12), RecordType::StructureRefName);
    assert_eq!(RecordType::from_tag(0x0a), RecordType::Other(0x0a));
    assert_eq!(DataType::from_tag(0x06), DataType::AsciiString);
    assert_eq!(DataType::from_tag(0x02), DataType::Other(0x02));
}
