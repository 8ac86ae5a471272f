//! The archive reader: defensive parsers for the header, the end record and
//! the index, and entry extraction from the data section.
use vstd::prelude::*;

use crate::bytes::{be32_val, be64_val, extend_range, read_be16, read_be32, read_be64};
use crate::compress::{decompress_data, spec_decompress};
use crate::errors::ArchiveError;
use crate::models::{
    end_magic, entry_wf, header_magic, header_version, spec_alg_of_byte, spec_end_bytes,
    spec_entry_body, spec_entry_bytes, spec_header_bytes, ArchiveHeader, ArchiveIndexEntry,
    CompressionAlgorithm, EndV, EntryV, HeaderV,
};

verus! {

/// The header encoded at the start of `b`, if its magic and version match.
pub open spec fn spec_parse_header(b: Seq<u8>) -> Option<HeaderV> {
    if b.len() >= 512 && b.subrange(0, 4) == header_magic() && b.subrange(4, 8)
        == header_version() {
        Option::Some(
            HeaderV {
                data_section_start: be64_val(b.subrange(8, 16)),
                index_section_start: be64_val(b.subrange(16, 24)),
                total_files: be32_val(b.subrange(24, 28)),
                created_timestamp: be64_val(b.subrange(28, 36)),
                archive_checksum: b.subrange(36, 68),
            },
        )
    } else {
        Option::None
    }
}

/// The end record encoded in the last 64 bytes of `b`, if its magic matches.
pub open spec fn spec_parse_end(b: Seq<u8>) -> Option<EndV> {
    let n = b.len() as int;
    if b.len() >= 64 && b.subrange(n - 64, n - 60) == end_magic() {
        Option::Some(
            EndV {
                index_offset: be64_val(b.subrange(n - 60, n - 52)),
                index_length: be64_val(b.subrange(n - 52, n - 44)),
                archive_checksum: b.subrange(n - 44, n - 12),
            },
        )
    } else {
        Option::None
    }
}

/// The entry encoded by a length-stripped body, if it is long enough and its
/// algorithm byte is known.
pub open spec fn spec_parse_entry_body(body: Seq<u8>) -> Option<EntryV> {
    if body.len() < 4 {
        Option::None
    } else {
        let plen = be32_val(body.subrange(0, 4)) as int;
        if 4 + plen + 69 <= body.len() {
            let o = 4 + plen;
            match spec_alg_of_byte(body[o + 24]) {
                Option::Some(alg) => Option::Some(
                    EntryV {
                        path: body.subrange(4, o),
                        data_offset: be64_val(body.subrange(o, o + 8)),
                        uncompressed_size: be64_val(body.subrange(o + 8, o + 16)),
                        compressed_size: be64_val(body.subrange(o + 16, o + 24)),
                        compression_algorithm: alg,
                        modification_time: be64_val(body.subrange(o + 25, o + 33)),
                        uid: body[o + 33],
                        gid: body[o + 34],
                        permissions: crate::bytes::be16_val(body.subrange(o + 35, o + 37)),
                        checksum: body.subrange(o + 37, o + 69),
                    },
                ),
                Option::None => Option::None,
            }
        } else {
            Option::None
        }
    }
}

/// The entry whose length-prefixed encoding starts at `pos` in `b`, and the
/// position just after it.
pub open spec fn spec_parse_entry_at(b: Seq<u8>, pos: int) -> Option<(EntryV, int)> {
    if 0 <= pos && pos + 4 <= b.len() {
        let elen = be32_val(b.subrange(pos, pos + 4)) as int;
        if pos + 4 + elen <= b.len() {
            match spec_parse_entry_body(b.subrange(pos + 4, pos + 4 + elen)) {
                Option::Some(e) => Option::Some((e, pos + 4 + elen)),
                Option::None => Option::None,
            }
        } else {
            Option::None
        }
    } else {
        Option::None
    }
}

/// `n` consecutive entries starting at `pos`, and the position after them.
/// One short or malformed entry aborts the whole parse, since entry
/// boundaries are only discoverable sequentially.
pub open spec fn spec_parse_entries(b: Seq<u8>, pos: int, n: nat) -> Option<(Seq<EntryV>, int)>
    decreases n,
{
    if n == 0 {
        Option::Some((Seq::empty(), pos))
    } else {
        match spec_parse_entry_at(b, pos) {
            Option::Some((e, p2)) => match spec_parse_entries(b, p2, (n - 1) as nat) {
                Option::Some((es, p3)) => Option::Some((seq![e] + es, p3)),
                Option::None => Option::None,
            },
            Option::None => Option::None,
        }
    }
}

/// The stored entry count and the entries of the index section named by `h`.
pub open spec fn spec_parse_index(b: Seq<u8>, h: HeaderV) -> Option<(u32, Seq<EntryV>)> {
    let ist = h.index_section_start as int;
    if ist + 4 <= b.len() {
        let cnt = be32_val(b.subrange(ist, ist + 4));
        match spec_parse_entries(b, ist + 4, cnt as nat) {
            Option::Some((es, _)) => Option::Some((cnt, es)),
            Option::None => Option::None,
        }
    } else {
        Option::None
    }
}

/// Read and parse the archive header from the first 512 bytes.
pub fn read_header(bytes: &Vec<u8>) -> (r: Result<ArchiveHeader, ArchiveError>)
    ensures
        r is Ok <==> spec_parse_header(bytes@) is Some,
        r matches Ok(h) ==> spec_parse_header(bytes@) == Option::Some(h@) && h.wf(),
        r matches Err(e) ==> e == ArchiveError::Format,
{
    if bytes.len() < 512 {
        return Err(ArchiveError::Format);
    }
    if !(bytes[0] == 0x44 && bytes[1] == 0x41 && bytes[2] == 0x52 && bytes[3] == 0x00) {
        proof {
            assert(bytes@.subrange(0, 4) != header_magic());
        }
        return Err(ArchiveError::Format);
    }
    if !(bytes[4] == 0x30 && bytes[5] == 0x30 && bytes[6] == 0x30 && bytes[7] == 0x34) {
        proof {
            assert(bytes@.subrange(4, 8) != header_version());
        }
        return Err(ArchiveError::Format);
    }
    proof {
        assert(bytes@.subrange(0, 4) =~= header_magic());
        assert(bytes@.subrange(4, 8) =~= header_version());
    }
    let data_section_start = read_be64(bytes, 8);
    let index_section_start = read_be64(bytes, 16);
    let total_files = read_be32(bytes, 24);
    let created_timestamp = read_be64(bytes, 28);
    let mut archive_checksum: Vec<u8> = Vec::new();
    extend_range(&mut archive_checksum, bytes, 36, 68);
    let h = ArchiveHeader {
        data_section_start,
        index_section_start,
        total_files,
        created_timestamp,
        archive_checksum,
    };
    Ok(h)
}

/// Read and parse the end record from the last 64 bytes.
pub fn read_end_record(bytes: &Vec<u8>) -> (r: Result<crate::models::ArchiveEndRecord, ArchiveError>)
    ensures
        r is Ok <==> spec_parse_end(bytes@) is Some,
        r matches Ok(e) ==> spec_parse_end(bytes@) == Option::Some(e@) && e.wf(),
        r matches Err(e) ==> e == ArchiveError::Format,
{
    if bytes.len() < 64 {
        return Err(ArchiveError::Format);
    }
    let base = bytes.len() - 64;
    if !(bytes[base] == 0x44 && bytes[base + 1] == 0x45 && bytes[base + 2] == 0x4e && bytes[base
        + 3] == 0x44) {
        proof {
            let n = bytes@.len() as int;
            assert(bytes@.subrange(n - 64, n - 60) != end_magic());
        }
        return Err(ArchiveError::Format);
    }
    proof {
        let n = bytes@.len() as int;
        assert(bytes@.subrange(n - 64, n - 60) =~= end_magic());
    }
    let index_offset = read_be64(bytes, base + 4);
    let index_length = read_be64(bytes, base + 12);
    let mut archive_checksum: Vec<u8> = Vec::new();
    extend_range(&mut archive_checksum, bytes, base + 20, base + 52);
    let e = crate::models::ArchiveEndRecord { index_offset, index_length, archive_checksum };
    Ok(e)
}

/// Parse one length-prefixed index entry at `pos`; on success also return
/// the position just after it.
pub fn parse_index_entry(bytes: &Vec<u8>, pos: usize) -> (r: Result<
    (ArchiveIndexEntry, usize),
    ArchiveError,
>)
    ensures
        r is Ok <==> spec_parse_entry_at(bytes@, pos as int) is Some,
        r matches Ok((e, p)) ==> spec_parse_entry_at(bytes@, pos as int) == Option::Some(
            (e@, p as int),
        ) && e.wf() && pos < p <= bytes.len(),
        r matches Err(e) ==> e == ArchiveError::Format,
{
    if bytes.len() < 4 || pos > bytes.len() - 4 {
        return Err(ArchiveError::Format);
    }
    let elen32 = read_be32(bytes, pos);
    let elen = elen32 as usize;
    if elen > bytes.len() - (pos + 4) {
        return Err(ArchiveError::Format);
    }
    let mut body: Vec<u8> = Vec::new();
    extend_range(&mut body, bytes, pos + 4, pos + 4 + elen);
    let ghost bs = bytes@.subrange(pos as int + 4, pos as int + 4 + elen as int);
    if body.len() < 4 {
        return Err(ArchiveError::Format);
    }
    let plen32 = read_be32(&body, 0);
    let plen = plen32 as usize;
    if body.len() < 73 || plen > body.len() - 73 {
        return Err(ArchiveError::Format);
    }
    let o = 4 + plen;
    let mut path: Vec<u8> = Vec::new();
    extend_range(&mut path, &body, 4, o);
    let data_offset = read_be64(&body, o);
    let uncompressed_size = read_be64(&body, o + 8);
    let compressed_size = read_be64(&body, o + 16);
    let alg_b = body[o + 24];
    let compression_algorithm = match CompressionAlgorithm::from_byte(alg_b) {
        Ok(a) => a,
        Err(_) => {
            return Err(ArchiveError::Format);
        },
    };
    let modification_time = read_be64(&body, o + 25);
    let uid = body[o + 33];
    let gid = body[o + 34];
    let permissions = read_be16(&body, o + 35);
    let mut checksum: Vec<u8> = Vec::new();
    extend_range(&mut checksum, &body, o + 37, o + 69);
    let e = ArchiveIndexEntry {
        path,
        data_offset,
        uncompressed_size,
        compressed_size,
        compression_algorithm,
        modification_time,
        uid,
        gid,
        permissions,
        checksum,
    };
    proof {
        assert(spec_parse_entry_body(bs) == Option::Some(e@));
    }
    Ok((e, pos + 4 + elen))
}

/// Views of a sequence of parsed entries.
pub open spec fn entry_views(s: Seq<ArchiveIndexEntry>) -> Seq<EntryV> {
    s.map_values(|e: ArchiveIndexEntry| e@)
}

/// Parsing `i + m` entries is parsing `i`, then `m` more from where the
/// first parse stopped.
pub proof fn lemma_parse_entries_compose(b: Seq<u8>, pos: int, i: nat, m: nat)
    ensures
        match spec_parse_entries(b, pos, i) {
            Option::Some((es1, p1)) => match spec_parse_entries(b, p1, m) {
                Option::Some((es2, p2)) => spec_parse_entries(b, pos, i + m) == Option::Some(
                    (es1 + es2, p2),
                ),
                Option::None => spec_parse_entries(b, pos, i + m) is None,
            },
            Option::None => spec_parse_entries(b, pos, i + m) is None,
        },
    decreases i,
{
    if i == 0 {
        match spec_parse_entries(b, pos, 0) {
            Option::Some((es1, p1)) => {
                assert(es1 == Seq::<EntryV>::empty() && p1 == pos);
                match spec_parse_entries(b, p1, m) {
                    Option::Some((es2, p2)) => {
                        assert(es1 + es2 =~= es2);
                        assert(spec_parse_entries(b, pos, 0 + m) == Option::Some((es1 + es2, p2)));
                    },
                    Option::None => {},
                }
            },
            Option::None => {},
        }
    } else {
        match spec_parse_entry_at(b, pos) {
            Option::Some((e, pnext)) => {
                lemma_parse_entries_compose(b, pnext, (i - 1) as nat, m);
                match spec_parse_entries(b, pnext, (i - 1) as nat) {
                    Option::Some((es1t, p1)) => {
                        assert(spec_parse_entries(b, pos, i) == Option::Some(
                            (seq![e] + es1t, p1),
                        ));
                        match spec_parse_entries(b, p1, m) {
                            Option::Some((es2, p2)) => {
                                assert(spec_parse_entries(b, pnext, ((i - 1) + m) as nat)
                                    == Option::Some((es1t + es2, p2)));
                                assert(spec_parse_entries(b, pos, i + m) == Option::Some(
                                    (seq![e] + (es1t + es2), p2),
                                ));
                                assert(seq![e] + (es1t + es2) =~= (seq![e] + es1t) + es2);
                            },
                            Option::None => {
                                assert(spec_parse_entries(b, pnext, ((i - 1) + m) as nat) is None);
                                assert(spec_parse_entries(b, pos, i + m) is None);
                            },
                        }
                    },
                    Option::None => {
                        assert(spec_parse_entries(b, pos, i) is None);
                        assert(spec_parse_entries(b, pnext, ((i - 1) + m) as nat) is None);
                        assert(spec_parse_entries(b, pos, i + m) is None);
                    },
                }
            },
            Option::None => {
                assert(spec_parse_entries(b, pos, i) is None);
                assert(spec_parse_entries(b, pos, i + m) is None);
            },
        }
    }
}

/// Parse the whole index named by `header`: the stored 32-bit entry count,
/// then that many length-prefixed entries.
pub fn validate_index(bytes: &Vec<u8>, header: &ArchiveHeader) -> (r: Result<
    (u32, Vec<ArchiveIndexEntry>),
    ArchiveError,
>)
    ensures
        r is Ok <==> spec_parse_index(bytes@, header@) is Some,
        r matches Ok((cnt, es)) ==> spec_parse_index(bytes@, header@) == Option::Some(
            (cnt, entry_views(es@)),
        ) && es@.len() == cnt && (forall|j: int| 0 <= j < es@.len() ==> (#[trigger] es@[j]).wf()),
        r matches Err(e) ==> e == ArchiveError::Format,
{
    let n = bytes.len();
    if n < 4 || header.index_section_start > (n - 4) as u64 {
        return Err(ArchiveError::Format);
    }
    let ist = header.index_section_start as usize;
    let count = read_be32(bytes, ist);
    let start = ist + 4;
    let mut entries: Vec<ArchiveIndexEntry> = Vec::new();
    let mut pos: usize = start;
    let mut i: u32 = 0;
    proof {
        assert(entry_views(entries@) =~= Seq::<EntryV>::empty());
    }
    while i < count
        invariant
            i <= count,
            bytes@.len() == n,
            ist == header.index_section_start,
            start == ist + 4,
            start <= n,
            count == be32_val(bytes@.subrange(ist as int, start as int)),
            start <= pos <= n,
            entries@.len() == i,
            forall|j: int| 0 <= j < entries@.len() ==> (#[trigger] entries@[j]).wf(),
            spec_parse_entries(bytes@, start as int, i as nat) == Option::Some(
                (entry_views(entries@), pos as int),
            ),
        decreases count - i,
    {
        match parse_index_entry(bytes, pos) {
            Ok((e, p2)) => {
                proof {
                    lemma_parse_entries_compose(bytes@, start as int, i as nat, 1);
                    assert(seq![e@] + Seq::<EntryV>::empty() =~= seq![e@]);
                    assert(spec_parse_entries(bytes@, p2 as int, 0) == Option::Some(
                        (Seq::<EntryV>::empty(), p2 as int),
                    ));
                    assert(spec_parse_entries(bytes@, pos as int, 1) == Option::Some(
                        (seq![e@], p2 as int),
                    ));
                    assert(entry_views(entries@) + seq![e@] =~= entry_views(entries@.push(e)));
                }
                entries.push(e);
                pos = p2;
                i = i + 1;
            },
            Err(_) => {
                proof {
                    lemma_parse_entries_compose(
                        bytes@,
                        start as int,
                        i as nat,
                        (count - i) as nat,
                    );
                    assert(spec_parse_entries(bytes@, pos as int, (count - i) as nat) is None);
                    assert(i as nat + (count - i) as nat == count as nat);
                    assert(spec_parse_entries(bytes@, start as int, count as nat) is None);
                    assert(spec_parse_index(bytes@, header@) is None);
                }
                return Err(ArchiveError::Format);
            },
        }
    }
    proof {
        assert(spec_parse_index(bytes@, header@) == Option::Some(
            (count, entry_views(entries@)),
        ));
    }
    Ok((count, entries))
}

/// What reading one entry's data block from `b` yields: its plaintext on
/// success, or the exact error. The block must lie inside the file, its
/// 8-byte length prefix must equal the recorded compressed size, the stream
/// must decompress, and the plaintext must have the recorded size.
pub open spec fn spec_extract_entry(b: Seq<u8>, ds: int, e: EntryV) -> Result<Seq<u8>, ArchiveError> {
    let p = ds + e.data_offset;
    if !(p + 8 <= b.len()) {
        Result::Err(ArchiveError::Bounds)
    } else if be64_val(b.subrange(p, p + 8)) != e.compressed_size {
        Result::Err(ArchiveError::Integrity)
    } else if !(p + 8 + e.compressed_size <= b.len()) {
        Result::Err(ArchiveError::Bounds)
    } else {
        match spec_decompress(
            b.subrange(p + 8, p + 8 + e.compressed_size),
            e.compression_algorithm,
        ) {
            Option::Some(u) => if u.len() == e.uncompressed_size {
                Result::Ok(u)
            } else {
                Result::Err(ArchiveError::Integrity)
            },
            Option::None => Result::Err(ArchiveError::Codec),
        }
    }
}

/// Read, cross-check and decompress one entry's data block.
pub fn extract_entry(bytes: &Vec<u8>, data_section_start: u64, entry: &ArchiveIndexEntry) -> (r:
    Result<Vec<u8>, ArchiveError>)
    ensures
        r matches Ok(v) ==> spec_extract_entry(bytes@, data_section_start as int, entry@)
            == Result::<Seq<u8>, ArchiveError>::Ok(v@) && v@.len() == entry.uncompressed_size,
        r matches Err(er) ==> spec_extract_entry(bytes@, data_section_start as int, entry@)
            == Result::<Seq<u8>, ArchiveError>::Err(er),
{
    let n = bytes.len();
    let ds = data_section_start;
    let off = entry.data_offset;
    if ds > n as u64 || off > (n as u64) - ds {
        return Err(ArchiveError::Bounds);
    }
    let p = (ds + off) as usize;
    if n - p < 8 {
        return Err(ArchiveError::Bounds);
    }
    let prefix = read_be64(bytes, p);
    if prefix != entry.compressed_size {
        return Err(ArchiveError::Integrity);
    }
    if entry.compressed_size > (n - (p + 8)) as u64 {
        return Err(ArchiveError::Bounds);
    }
    let csize = entry.compressed_size as usize;
    let mut compressed: Vec<u8> = Vec::new();
    extend_range(&mut compressed, bytes, p + 8, p + 8 + csize);
    let plain = match decompress_data(&compressed, entry.compression_algorithm) {
        Ok(v) => v,
        Err(er) => {
            return Err(er);
        },
    };
    if plain.len() as u64 != entry.uncompressed_size {
        return Err(ArchiveError::Integrity);
    }
    Ok(plain)
}

/// One file recovered from an archive: its sanitized relative path and its
/// decompressed content.
#[derive(Clone, Debug, PartialEq, Eq)]
pub struct ExtractedFile {
    pub path: Vec<u8>,
    pub data: Vec<u8>,
}

/// A failure during whole-archive extraction, wrapped with the context the
/// error taxonomy asks for: which entry failed, and under which algorithm.
#[derive(Clone, Debug, PartialEq, Eq)]
pub enum ExtractError {
    /// The container itself did not parse.
    Container(ArchiveError),
    /// One entry's data block failed: its stored path, its recorded
    /// algorithm, and the underlying error.
    Entry { path: Vec<u8>, algorithm: CompressionAlgorithm, error: ArchiveError },
}

/// Whether every structure needed for extraction parses and every entry's
/// data block extracts cleanly.
pub open spec fn spec_can_extract(b: Seq<u8>) -> bool {
    match spec_parse_header(b) {
        Option::Some(h) => match spec_parse_index(b, h) {
            Option::Some((cnt, es)) => forall|j: int|
                0 <= j < es.len() ==> (#[trigger] spec_extract_entry(
                    b,
                    h.data_section_start as int,
                    es[j],
                )) is Ok,
            Option::None => false,
        },
        Option::None => false,
    }
}

/// Extract every entry of the archive: parse the header and index, then
/// read, cross-check and decompress each data block. Each result carries the
/// entry's path, sanitized so it cannot leave the extraction root.
pub fn extract_entries(bytes: &Vec<u8>) -> (r: Result<Vec<ExtractedFile>, ExtractError>)
    ensures
        r is Ok <==> spec_can_extract(bytes@),
        r matches Err(er) ==> (er matches ExtractError::Container(e) ==> e == ArchiveError::Format
            && (spec_parse_header(bytes@) is None || spec_parse_index(
            bytes@,
            spec_parse_header(bytes@).unwrap(),
        ) is None)),
        r matches Err(er) ==> (er matches ExtractError::Entry { path, algorithm, error } ==> ({
            let h = spec_parse_header(bytes@).unwrap();
            let es = spec_parse_index(bytes@, h).unwrap().1;
            exists|j: int|
                0 <= j < es.len() && (#[trigger] spec_extract_entry(
                    bytes@,
                    h.data_section_start as int,
                    es[j],
                )) == Result::<Seq<u8>, ArchiveError>::Err(error) && es[j].path == path@
                    && es[j].compression_algorithm == algorithm && (forall|k: int|
                    0 <= k < j ==> spec_extract_entry(
                        bytes@,
                        h.data_section_start as int,
                        #[trigger] es[k],
                    ) is Ok)
        })),
        r matches Ok(out) ==> ({
            let h = spec_parse_header(bytes@).unwrap();
            let es = spec_parse_index(bytes@, h).unwrap().1;
            &&& out@.len() == es.len()
            &&& forall|j: int|
                0 <= j < es.len() ==> (#[trigger] out@[j]).path@ == crate::paths::spec_sanitize(
                    es[j].path,
                ) && out@[j].data@ == spec_extract_entry(
                    bytes@,
                    h.data_section_start as int,
                    es[j],
                )->Ok_0 && out@[j].data@.len() == es[j].uncompressed_size
        }),
{
    let header = match read_header(bytes) {
        Ok(h) => h,
        Err(er) => {
            return Err(ExtractError::Container(er));
        },
    };
    let (count, entries) = match validate_index(bytes, &header) {
        Ok(t) => t,
        Err(er) => {
            return Err(ExtractError::Container(er));
        },
    };
    let ghost es = spec_parse_index(bytes@, header@).unwrap().1;
    let mut out: Vec<ExtractedFile> = Vec::new();
    let mut i: usize = 0;
    while i < entries.len()
        invariant
            i <= entries.len(),
            out@.len() == i,
            spec_parse_header(bytes@) == Option::Some(header@),
            spec_parse_index(bytes@, header@) is Some,
            es == spec_parse_index(bytes@, header@).unwrap().1,
            entry_views(entries@) == es,
            forall|j: int|
                0 <= j < i ==> (#[trigger] spec_extract_entry(
                    bytes@,
                    header@.data_section_start as int,
                    es[j],
                )) is Ok,
            forall|j: int|
                0 <= j < i ==> (#[trigger] out@[j]).path@ == crate::paths::spec_sanitize(
                    es[j].path,
                ) && out@[j].data@ == spec_extract_entry(
                    bytes@,
                    header@.data_section_start as int,
                    es[j],
                )->Ok_0 && out@[j].data@.len() == es[j].uncompressed_size,
        decreases entries.len() - i,
    {
        let entry = &entries[i];
        let data = match extract_entry(bytes, header.data_section_start, entry) {
            Ok(v) => v,
            Err(er) => {
                let failed_path = entry.path.clone();
                proof {
                    assert(spec_extract_entry(
                        bytes@,
                        header@.data_section_start as int,
                        es[i as int],
                    ) == Result::<Seq<u8>, ArchiveError>::Err(er));
                    assert(es[i as int].path == failed_path@);
                    assert(es[i as int].compression_algorithm == entry.compression_algorithm);
                }
                return Err(
                    ExtractError::Entry {
                        path: failed_path,
                        algorithm: entry.compression_algorithm,
                        error: er,
                    },
                );
            },
        };
        let path = crate::paths::sanitize_path(&entry.path);
        out.push(ExtractedFile { path, data });
        i = i + 1;
    }
    Ok(out)
}

/// Decoding an encoded header gives the header back, whatever follows it.
pub proof fn lemma_parse_header_round_trip(h: HeaderV, rest: Seq<u8>)
    requires
        h.archive_checksum.len() == 32,
    ensures
        spec_parse_header(spec_header_bytes(h) + rest) == Option::Some(h),
{
    let b = spec_header_bytes(h) + rest;
    crate::models::lemma_header_bytes_len(h);
    assert(b.subrange(0, 4) =~= header_magic());
    assert(b.subrange(4, 8) =~= header_version());
    assert(b.subrange(8, 16) =~= crate::bytes::be64_bytes(h.data_section_start));
    assert(b.subrange(16, 24) =~= crate::bytes::be64_bytes(h.index_section_start));
    assert(b.subrange(24, 28) =~= crate::bytes::be32_bytes(h.total_files));
    assert(b.subrange(28, 36) =~= crate::bytes::be64_bytes(h.created_timestamp));
    assert(b.subrange(36, 68) =~= h.archive_checksum);
    crate::bytes::lemma_be64_round_trip(h.data_section_start);
    crate::bytes::lemma_be64_round_trip(h.index_section_start);
    crate::bytes::lemma_be32_round_trip(h.total_files);
    crate::bytes::lemma_be64_round_trip(h.created_timestamp);
}

/// Decoding an encoded end record gives it back, whatever precedes it.
pub proof fn lemma_parse_end_round_trip(front: Seq<u8>, e: EndV)
    requires
        e.archive_checksum.len() == 32,
    ensures
        spec_parse_end(front + spec_end_bytes(e)) == Option::Some(e),
{
    let b = front + spec_end_bytes(e);
    crate::models::lemma_end_bytes_len(e);
    let n = b.len() as int;
    assert(b.subrange(n - 64, n - 60) =~= end_magic());
    assert(b.subrange(n - 60, n - 52) =~= crate::bytes::be64_bytes(e.index_offset));
    assert(b.subrange(n - 52, n - 44) =~= crate::bytes::be64_bytes(e.index_length));
    assert(b.subrange(n - 44, n - 12) =~= e.archive_checksum);
    crate::bytes::lemma_be64_round_trip(e.index_offset);
    crate::bytes::lemma_be64_round_trip(e.index_length);
}

/// Decoding an encoded entry body gives the entry back.
pub proof fn lemma_parse_entry_body_round_trip(e: EntryV)
    requires
        entry_wf(e),
    ensures
        spec_parse_entry_body(spec_entry_body(e)) == Option::Some(e),
{
    let body = spec_entry_body(e);
    crate::models::lemma_entry_body_len(e);
    assert(body.subrange(0, 4) =~= crate::bytes::be32_bytes(e.path.len() as u32));
    crate::bytes::lemma_be32_round_trip(e.path.len() as u32);
    let plen = e.path.len() as int;
    let o = 4 + plen;
    assert(body.subrange(4, o) =~= e.path);
    assert(body.subrange(o, o + 8) =~= crate::bytes::be64_bytes(e.data_offset));
    assert(body.subrange(o + 8, o + 16) =~= crate::bytes::be64_bytes(e.uncompressed_size));
    assert(body.subrange(o + 16, o + 24) =~= crate::bytes::be64_bytes(e.compressed_size));
    assert(body[o + 24] == crate::models::alg_byte(e.compression_algorithm));
    assert(body.subrange(o + 25, o + 33) =~= crate::bytes::be64_bytes(e.modification_time));
    assert(body[o + 33] == e.uid);
    assert(body[o + 34] == e.gid);
    assert(body.subrange(o + 35, o + 37) =~= crate::bytes::be16_bytes(e.permissions));
    assert(body.subrange(o + 37, o + 69) =~= e.checksum);
    crate::bytes::lemma_be64_round_trip(e.data_offset);
    crate::bytes::lemma_be64_round_trip(e.uncompressed_size);
    crate::bytes::lemma_be64_round_trip(e.compressed_size);
    crate::bytes::lemma_be64_round_trip(e.modification_time);
    crate::bytes::lemma_be16_round_trip(e.permissions);
    crate::models::lemma_alg_byte_round_trip(e.compression_algorithm);
}

/// Parsing at the start of an encoded entry embedded in a larger buffer
/// yields the entry and stops right after it.
pub proof fn lemma_parse_entry_at_round_trip(b: Seq<u8>, pos: int, e: EntryV)
    requires
        entry_wf(e),
        0 <= pos,
        pos + e.path.len() + 77 <= b.len(),
        b.subrange(pos, pos + e.path.len() + 77) == spec_entry_bytes(e),
    ensures
        spec_parse_entry_at(b, pos) == Option::Some((e, pos + e.path.len() + 77)),
{
    let enc = spec_entry_bytes(e);
    crate::models::lemma_entry_body_len(e);
    let plen = e.path.len() as int;
    assert(b.subrange(pos, pos + 4) =~= crate::bytes::be32_bytes((e.path.len() + 73) as u32));
    crate::bytes::lemma_be32_round_trip((e.path.len() + 73) as u32);
    let elen = plen + 73;
    assert((e.path.len() + 73) as u32 == plen + 73);
    assert(be32_val(b.subrange(pos, pos + 4)) == elen);
    let whole = b.subrange(pos, pos + plen + 77);
    assert forall|k: int| 0 <= k < elen implies b[pos + 4 + k] == spec_entry_body(e)[k] by {
        assert(whole[4 + k] == b[pos + 4 + k]);
        assert(whole[4 + k] == spec_entry_body(e)[k]);
    };
    assert(b.subrange(pos + 4, pos + 4 + elen) =~= spec_entry_body(e));
    lemma_parse_entry_body_round_trip(e);
}

} // verus!
