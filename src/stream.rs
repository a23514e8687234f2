//! Encoded record streams, and what a scan makes of them.
use vstd::prelude::*;
use crate::record::{
    Record, ScanError, data_type_of, header_length, payload_of, record_at, record_fits,
    record_type_of, records_from, scan_end, step,
};

verus! {

/// A record to encode: record-type tag, data-type tag, payload.
pub type RecordParts = (u8, u8, Seq<u8>);

/// The bytes of one record: a big-endian length that counts the header, the
/// two tags, the payload.
pub open spec fn encode_record(p: RecordParts) -> Seq<u8> {
    let n = p.2.len() + 4;
    seq![(n / 256) as u8, (n % 256) as u8, p.0, p.1] + p.2
}

/// The bytes of a stream of records, one after the other.
pub open spec fn encode_stream(rs: Seq<RecordParts>) -> Seq<u8>
    decreases rs.len(),
{
    if rs.len() == 0 {
        seq![]
    } else {
        encode_record(rs[0]) + encode_stream(rs.drop_first())
    }
}

/// Every payload is short enough for its length to fit the 16-bit field.
pub open spec fn encodable(rs: Seq<RecordParts>) -> bool {
    forall|i: int| 0 <= i < rs.len() ==> rs[i].2.len() + 4 <= 0xffff
}

/// The total number of bytes, headers included, that `recs` occupy.
pub open spec fn consumed(recs: Seq<Record>) -> int
    decreases recs.len(),
{
    if recs.len() == 0 {
        0
    } else {
        recs[0].end - recs[0].start + 4 + consumed(recs.drop_first())
    }
}

/// `k` is the offset at which some record of the stream `rs` ends, or zero.
pub open spec fn is_boundary(rs: Seq<RecordParts>, k: int) -> bool {
    exists|j: int| 0 <= j <= rs.len() && encode_stream(rs.take(j)).len() == k
}

proof fn lemma_length_bytes(n: int)
    requires
        0 <= n <= 0xffff,
    ensures
        ((n / 256) as u8) as int * 256 + ((n % 256) as u8) as int == n,
{
    assert(((n / 256) as u8) as int * 256 + ((n % 256) as u8) as int == n) by (nonlinear_arith)
        requires
            0 <= n <= 0xffff,
    ;
}

proof fn lemma_header_of_encoding(buf: Seq<u8>, pos: int, p: RecordParts, rest: Seq<u8>)
    requires
        0 <= pos <= buf.len(),
        p.2.len() + 4 <= 0xffff,
        buf.subrange(pos, buf.len() as int) == encode_record(p) + rest,
    ensures
        header_length(buf, pos) == p.2.len() + 4,
        buf[pos + 2] == p.0,
        buf[pos + 3] == p.1,
        record_fits(buf, pos),
        buf.subrange(pos + 4, pos + p.2.len() + 4) == p.2,
        buf.subrange(pos + p.2.len() + 4, buf.len() as int) == rest,
{
    let n = p.2.len() + 4;
    let e = encode_record(p);
    let s = buf.subrange(pos, buf.len() as int);
    assert(e.len() == n);
    assert(s.len() == n + rest.len());
    assert(s[0] == buf[pos] && s[1] == buf[pos + 1] && s[2] == buf[pos + 2] && s[3] == buf[pos
        + 3]);
    lemma_length_bytes(n as int);
    assert(buf.subrange(pos + 4, pos + n) =~= p.2) by {
        assert forall|i: int| 0 <= i < p.2.len() implies buf.subrange(pos + 4, pos + n)[i]
            == p.2[i] by {
            assert(s[4 + i] == buf[pos + 4 + i]);
            assert(e[4 + i] == p.2[i]);
        }
    }
    assert(buf.subrange(pos + n, buf.len() as int) =~= rest) by {
        assert forall|i: int| 0 <= i < rest.len() implies buf.subrange(
            pos + n,
            buf.len() as int,
        )[i] == rest[i] by {
            assert(s[n + i] == buf[pos + n + i]);
        }
    }
}

proof fn lemma_scan_encoded_suffix(buf: Seq<u8>, pos: int, rs: Seq<RecordParts>)
    requires
        0 <= pos <= buf.len(),
        buf.len() <= usize::MAX,
        encodable(rs),
        buf.subrange(pos, buf.len() as int) == encode_stream(rs),
    ensures
        scan_end(buf, pos) is None,
        records_from(buf, pos).len() == rs.len(),
        forall|i: int|
            0 <= i < rs.len() ==> {
                let r = #[trigger] records_from(buf, pos)[i];
                &&& r.record_type == record_type_of(rs[i].0)
                &&& r.data_type == data_type_of(rs[i].1)
                &&& payload_of(buf, r) == rs[i].2
            },
        consumed(records_from(buf, pos)) == buf.len() - pos,
    decreases rs.len(),
{
    if rs.len() == 0 {
        assert(buf.subrange(pos, buf.len() as int).len() == 0);
        assert(!record_fits(buf, pos));
    } else {
        let p = rs[0];
        let rest = rs.drop_first();
        let n = p.2.len() + 4;
        lemma_header_of_encoding(buf, pos, p, encode_stream(rest));
        assert(encodable(rest)) by {
            assert forall|i: int| 0 <= i < rest.len() implies rest[i].2.len() + 4 <= 0xffff by {
                assert(rest[i] == rs[i + 1]);
            }
        }
        lemma_scan_encoded_suffix(buf, pos + n, rest);
        let recs = records_from(buf, pos);
        let tail = records_from(buf, pos + n);
        assert(recs == seq![record_at(buf, pos)] + tail);
        assert(recs.drop_first() =~= tail);
        assert forall|i: int| 0 <= i < rs.len() implies {
            let r = #[trigger] records_from(buf, pos)[i];
            &&& r.record_type == record_type_of(rs[i].0)
            &&& r.data_type == data_type_of(rs[i].1)
            &&& payload_of(buf, r) == rs[i].2
        } by {
            if i > 0 {
                assert(recs[i] == tail[i - 1]);
                assert(rs[i] == rest[i - 1]);
            }
        }
    }
}

/// A buffer made of well-formed records, one after the other, scans to its
/// end without failure and yields exactly those records, in stream order; the
/// lengths of the yielded records add up to the size of the buffer.
pub proof fn lemma_scan_well_formed_stream(rs: Seq<RecordParts>)
    requires
        encodable(rs),
        encode_stream(rs).len() <= usize::MAX,
    ensures
        ({
            let buf = encode_stream(rs);
            let recs = records_from(buf, 0);
            &&& scan_end(buf, 0) is None
            &&& recs.len() == rs.len()
            &&& forall|i: int|
                0 <= i < rs.len() ==> {
                    let r = #[trigger] recs[i];
                    &&& r.record_type == record_type_of(rs[i].0)
                    &&& r.data_type == data_type_of(rs[i].1)
                    &&& payload_of(buf, r) == rs[i].2
                }
            &&& consumed(recs) == buf.len()
        }),
{
    let buf = encode_stream(rs);
    assert(buf.subrange(0, buf.len() as int) =~= buf);
    lemma_scan_encoded_suffix(buf, 0, rs);
}

proof fn lemma_boundary_shift(rs: Seq<RecordParts>, m: int)
    requires
        rs.len() > 0,
        is_boundary(rs.drop_first(), m),
    ensures
        is_boundary(rs, m + encode_record(rs[0]).len()),
{
    let rest = rs.drop_first();
    let j = choose|j: int| 0 <= j <= rest.len() && encode_stream(rest.take(j)).len() == m;
    let pre = rs.take(j + 1);
    assert(pre[0] == rs[0]);
    assert(pre.drop_first() =~= rest.take(j));
    assert(encode_stream(pre).len() == m + encode_record(rs[0]).len());
}

proof fn lemma_scan_truncated_suffix(buf: Seq<u8>, pos: int, rs: Seq<RecordParts>)
    requires
        0 <= pos <= buf.len(),
        encodable(rs),
        buf.len() - pos < encode_stream(rs).len(),
        buf.subrange(pos, buf.len() as int) == encode_stream(rs).take(buf.len() - pos),
        !is_boundary(rs, buf.len() - pos),
    ensures
        scan_end(buf, pos) == Some(ScanError::TruncatedHeader) || scan_end(buf, pos) == Some(
            ScanError::TruncatedPayload,
        ),
    decreases rs.len(),
{
    let k = buf.len() - pos;
    let p = rs[0];
    let rest = rs.drop_first();
    let n = p.2.len() + 4;
    let e = encode_record(p);
    let full = encode_stream(rs);
    assert(rs.take(0) =~= Seq::<RecordParts>::empty());
    assert(k != 0);
    assert(rs.take(1).drop_first() =~= Seq::<RecordParts>::empty());
    assert(encode_stream(rs.take(1)).len() == n);
    assert(k != n);
    assert(e.len() == n);
    if k < 4 {
        assert(!record_fits(buf, pos));
    } else if k < n {
        let s = buf.subrange(pos, buf.len() as int);
        assert(s[0] == buf[pos] && s[1] == buf[pos + 1]);
        assert(s[0] == full[0] && s[1] == full[1]);
        lemma_length_bytes(n as int);
        assert(header_length(buf, pos) == n);
        assert(!record_fits(buf, pos));
    } else {
        let tail = encode_stream(rest).take(k - n);
        assert(full.take(k) =~= e + tail);
        lemma_header_of_encoding(buf, pos, p, tail);
        assert(encodable(rest)) by {
            assert forall|i: int| 0 <= i < rest.len() implies rest[i].2.len() + 4 <= 0xffff by {
                assert(rest[i] == rs[i + 1]);
            }
        }
        if is_boundary(rest, k - n) {
            lemma_boundary_shift(rs, k - n);
        }
        lemma_scan_truncated_suffix(buf, pos + n, rest);
    }
}

/// A stream of well-formed records cut inside one of its records, within the
/// header or within the payload, makes the scan stop with a truncation failure.
pub proof fn lemma_scan_truncated_stream(rs: Seq<RecordParts>, k: int)
    requires
        encodable(rs),
        0 <= k < encode_stream(rs).len(),
        !is_boundary(rs, k),
    ensures
        scan_end(encode_stream(rs).take(k), 0) == Some(ScanError::TruncatedHeader) || scan_end(
            encode_stream(rs).take(k),
            0,
        ) == Some(ScanError::TruncatedPayload),
{
    let buf = encode_stream(rs).take(k);
    assert(buf.subrange(0, k) =~= buf);
    lemma_scan_truncated_suffix(buf, 0, rs);
}

/// A header that declares a length below four is rejected where it stands:
/// the step there fails, and so does the scan.
pub proof fn lemma_short_length_rejected(buf: Seq<u8>, pos: int)
    requires
        0 <= pos,
        pos + 4 <= buf.len(),
        header_length(buf, pos) < 4,
    ensures
        step(buf, pos) == Some(Err::<Record, ScanError>(ScanError::InvalidRecordLength)),
        scan_end(buf, pos) == Some(ScanError::InvalidRecordLength),
{
}

} // verus!
