//! Extraction of the library name and of the top-level cells.
use vstd::prelude::*;
use vstd::slice::slice_subrange;
use crate::cells::{distinct_names, lemma_name_set_push, name_set, top_cell_names, top_cell_set};
use crate::record::{
    DataType, RecordType, ScanError, carries_text, failure_at, header_length, payload_of,
    record_at, record_fits, records_from, scan_end,
};
use crate::scanner::Scanner;
use crate::text::{decode_field, field_text};

verus! {

/// What a search for the library name finds from `pos` on: the text of the
/// first ASCII-tagged library-name record, nothing when the stream ends first,
/// or the failure that stops the scan before such a record.
pub open spec fn library_name_from(buf: Seq<u8>, pos: int) -> Result<Option<Seq<char>>, ScanError>
    decreases buf.len() - pos,
{
    if record_fits(buf, pos) {
        let r = record_at(buf, pos);
        if carries_text(r, RecordType::LibName) {
            Ok(Some(field_text(payload_of(buf, r))))
        } else {
            library_name_from(buf, pos + header_length(buf, pos))
        }
    } else if pos >= buf.len() {
        Ok(None)
    } else {
        Err(failure_at(buf, pos))
    }
}

/// The library name of a whole buffer.
pub open spec fn library_name(buf: Seq<u8>) -> Result<Option<Seq<char>>, ScanError> {
    library_name_from(buf, 0)
}

/// The texts of the ASCII-tagged records of type `t` from `pos` on, up to the
/// end of the scan.
pub open spec fn names_from(buf: Seq<u8>, pos: int, t: RecordType) -> Set<Seq<char>>
    decreases buf.len() - pos,
{
    if record_fits(buf, pos) {
        let r = record_at(buf, pos);
        let rest = names_from(buf, pos + header_length(buf, pos), t);
        if carries_text(r, t) {
            rest.insert(field_text(payload_of(buf, r)))
        } else {
            rest
        }
    } else {
        Set::empty()
    }
}

/// The cells that `buf` defines.
pub open spec fn defined_cells(buf: Seq<u8>) -> Set<Seq<char>> {
    names_from(buf, 0, RecordType::StructureName)
}

/// The cells that `buf` references.
pub open spec fn referenced_cells(buf: Seq<u8>) -> Set<Seq<char>> {
    names_from(buf, 0, RecordType::StructureRefName)
}

/// The top-level cells of a whole buffer, or the failure that stops its scan.
pub open spec fn top_cells(buf: Seq<u8>) -> Result<Set<Seq<char>>, ScanError> {
    match scan_end(buf, 0) {
        Some(e) => Err(e),
        None => Ok(top_cell_set(defined_cells(buf), referenced_cells(buf))),
    }
}

/// The text of the first ASCII-tagged library-name record. Stops at that
/// record; a failure of the scan before it is returned as the error.
pub fn find_library_name(buffer: &[u8]) -> (r: Result<Option<String>, ScanError>)
    ensures
        match r {
            Ok(Some(s)) => library_name(buffer@) == Ok::<Option<Seq<char>>, ScanError>(Some(s@)),
            Ok(None) => library_name(buffer@) == Ok::<Option<Seq<char>>, ScanError>(None),
            Err(e) => library_name(buffer@) == Err::<Option<Seq<char>>, ScanError>(e),
        },
{
    let mut scanner = Scanner::new(buffer);
    loop
        invariant
            scanner.wf(),
            scanner.buffer() == buffer@,
            library_name_from(buffer@, scanner.cursor()) == library_name(buffer@),
        decreases buffer@.len() - scanner.cursor(),
    {
        match scanner.next_record() {
            None => return Ok(None),
            Some(Err(e)) => return Err(e),
            Some(Ok(rec)) => {
                if rec.record_type == RecordType::LibName && rec.data_type
                    == DataType::AsciiString {
                    let payload = slice_subrange(buffer, rec.start, rec.end);
                    return Ok(Some(decode_field(payload)));
                }
            },
        }
    }
}

/// The top-level cells of the whole buffer, each once: `None` when every
/// defined cell is referenced (or none is defined), the failure when the scan
/// does not reach the end of the buffer.
pub fn get_top_cells(buffer: &[u8]) -> (r: Result<Option<Vec<String>>, ScanError>)
    ensures
        match r {
            Ok(Some(v)) => {
                &&& top_cells(buffer@) == Ok::<Set<Seq<char>>, ScanError>(name_set(v@))
                &&& v@.len() > 0
                &&& distinct_names(v@)
            },
            Ok(None) => top_cells(buffer@) == Ok::<Set<Seq<char>>, ScanError>(Set::empty()),
            Err(e) => top_cells(buffer@) == Err::<Set<Seq<char>>, ScanError>(e),
        },
{
    let mut defined: Vec<String> = Vec::new();
    let mut referenced: Vec<String> = Vec::new();
    let mut scanner = Scanner::new(buffer);
    assert(name_set(defined@) =~= Set::empty());
    assert(name_set(referenced@) =~= Set::empty());
    loop
        invariant
            scanner.wf(),
            scanner.buffer() == buffer@,
            scan_end(buffer@, scanner.cursor()) == scan_end(buffer@, 0),
            name_set(defined@) + names_from(buffer@, scanner.cursor(), RecordType::StructureName)
                == defined_cells(buffer@),
            name_set(referenced@) + names_from(
                buffer@,
                scanner.cursor(),
                RecordType::StructureRefName,
            ) == referenced_cells(buffer@),
        decreases buffer@.len() - scanner.cursor(),
    {
        let ghost pos = scanner.cursor();
        let ghost before_defined = defined@;
        let ghost before_referenced = referenced@;
        match scanner.next_record() {
            None => {
                assert(name_set(defined@) =~= defined_cells(buffer@));
                assert(name_set(referenced@) =~= referenced_cells(buffer@));
                let top = top_cell_names(&defined, &referenced);
                if top.len() == 0 {
                    assert(name_set(top@) =~= Set::empty());
                    return Ok(None);
                }
                return Ok(Some(top));
            },
            Some(Err(e)) => return Err(e),
            Some(Ok(rec)) => {
                let ghost r = record_at(buffer@, pos);
                let ghost next = pos + header_length(buffer@, pos);
                if rec.data_type == DataType::AsciiString && (rec.record_type
                    == RecordType::StructureName || rec.record_type
                    == RecordType::StructureRefName) {
                    let payload = slice_subrange(buffer, rec.start, rec.end);
                    let name = decode_field(payload);
                    if rec.record_type == RecordType::StructureName {
                        proof {
                            lemma_name_set_push(defined@, name);
                        }
                        defined.push(name);
                    } else {
                        proof {
                            lemma_name_set_push(referenced@, name);
                        }
                        referenced.push(name);
                    }
                }
                assert(name_set(defined@) + names_from(
                    buffer@,
                    next,
                    RecordType::StructureName,
                ) =~= defined_cells(buffer@));
                assert(name_set(referenced@) + names_from(
                    buffer@,
                    next,
                    RecordType::StructureRefName,
                ) =~= referenced_cells(buffer@));
            },
        }
    }
}

/// What one buffer yields: the library name when one was found before any
/// failure, the top-level cells when the whole stream was read and some cell is
/// unreferenced, and the failure that stopped the scan, if any.
pub struct Metadata {
    pub library_name: Option<String>,
    pub top_cells: Option<Vec<String>>,
    pub failure: Option<ScanError>,
}

/// Reads the library name and the top-level cells of `buffer`, telling a
/// corrupt stream (`failure` is set) from one that lacks the metadata.
pub fn extract_metadata(buffer: &[u8]) -> (m: Metadata)
    ensures
        m.failure == scan_end(buffer@, 0),
        match library_name(buffer@) {
            Ok(Some(n)) => m.library_name is Some && m.library_name->0@ == n,
            _ => m.library_name is None,
        },
        match top_cells(buffer@) {
            Ok(t) => if t.is_empty() {
                m.top_cells is None
            } else {
                &&& m.top_cells is Some
                &&& name_set(m.top_cells->0@) == t
                &&& distinct_names(m.top_cells->0@)
            },
            Err(_) => m.top_cells is None,
        },
{
    let library_name = match find_library_name(buffer) {
        Ok(found) => found,
        Err(_) => None,
    };
    let (top_cells, failure) = match get_top_cells(buffer) {
        Ok(found) => (found, None),
        Err(e) => (None, Some(e)),
    };
    proof {
        if top_cells is Some {
            let v = top_cells->0;
            assert(name_set(v@).contains(v@[0]@));
        }
    }
    Metadata { library_name, top_cells, failure }
}

proof fn lemma_library_name_from_first(buf: Seq<u8>, pos: int, i: int)
    requires
        0 <= i < records_from(buf, pos).len(),
        carries_text(records_from(buf, pos)[i], RecordType::LibName),
        forall|j: int|
            0 <= j < i ==> !carries_text(#[trigger] records_from(buf, pos)[j], RecordType::LibName),
    ensures
        library_name_from(buf, pos) == Ok::<Option<Seq<char>>, ScanError>(
            Some(field_text(payload_of(buf, records_from(buf, pos)[i]))),
        ),
    decreases i,
{
    let recs = records_from(buf, pos);
    let next = pos + header_length(buf, pos);
    assert(record_fits(buf, pos));
    assert(recs[0] == record_at(buf, pos));
    if i > 0 {
        let tail = records_from(buf, next);
        assert forall|j: int| 0 <= j < i - 1 implies !carries_text(
            #[trigger] tail[j],
            RecordType::LibName,
        ) by {
            assert(tail[j] == recs[j + 1]);
        }
        assert(tail[i - 1] == recs[i]);
        lemma_library_name_from_first(buf, next, i - 1);
    }
}

/// The library name is the text of the first ASCII-tagged library-name record
/// that the scan yields; any later one is ignored.
pub proof fn lemma_library_name_is_first(buf: Seq<u8>, i: int)
    requires
        0 <= i < records_from(buf, 0).len(),
        carries_text(records_from(buf, 0)[i], RecordType::LibName),
        forall|j: int|
            0 <= j < i ==> !carries_text(#[trigger] records_from(buf, 0)[j], RecordType::LibName),
    ensures
        library_name(buf) == Ok::<Option<Seq<char>>, ScanError>(
            Some(field_text(payload_of(buf, records_from(buf, 0)[i]))),
        ),
{
    lemma_library_name_from_first(buf, 0, i);
}

/// When every defined cell is also referenced, a stream that scans to its end
/// has no top-level cell.
pub proof fn lemma_all_referenced_no_top(buf: Seq<u8>)
    requires
        scan_end(buf, 0) is None,
        defined_cells(buf).subset_of(referenced_cells(buf)),
    ensures
        top_cells(buf) == Ok::<Set<Seq<char>>, ScanError>(Set::empty()),
{
    assert(top_cell_set(defined_cells(buf), referenced_cells(buf)) =~= Set::empty());
}

proof fn lemma_names_from_contains(buf: Seq<u8>, pos: int, i: int, t: RecordType)
    requires
        0 <= i < records_from(buf, pos).len(),
        carries_text(records_from(buf, pos)[i], t),
    ensures
        names_from(buf, pos, t).contains(field_text(payload_of(buf, records_from(buf, pos)[i]))),
    decreases i,
{
    let recs = records_from(buf, pos);
    let next = pos + header_length(buf, pos);
    assert(record_fits(buf, pos));
    if i > 0 {
        assert(records_from(buf, next)[i - 1] == recs[i]);
        lemma_names_from_contains(buf, next, i - 1, t);
    }
}

/// A cell definition and a cell reference whose payloads are the same bytes
/// name the same cell, and that cell is not a top-level cell.
pub proof fn lemma_defined_and_referenced_not_top(buf: Seq<u8>, i: int, j: int)
    requires
        0 <= i < records_from(buf, 0).len(),
        0 <= j < records_from(buf, 0).len(),
        carries_text(records_from(buf, 0)[i], RecordType::StructureName),
        carries_text(records_from(buf, 0)[j], RecordType::StructureRefName),
        payload_of(buf, records_from(buf, 0)[i]) == payload_of(buf, records_from(buf, 0)[j]),
    ensures
        ({
            let name = field_text(payload_of(buf, records_from(buf, 0)[i]));
            &&& defined_cells(buf).contains(name)
            &&& referenced_cells(buf).contains(name)
            &&& match top_cells(buf) {
                Ok(t) => !t.contains(name),
                Err(_) => true,
            }
        }),
{
    lemma_names_from_contains(buf, 0, i, RecordType::StructureName);
    lemma_names_from_contains(buf, 0, j, RecordType::StructureRefName);
}

} // verus!
