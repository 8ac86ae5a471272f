//! The archive writer: assemble a complete archive in one buffer — header,
//! length-prefixed data blocks, counted index, end record — then backpatch
//! the whole-archive digest into its two storage fields.
use vstd::prelude::*;

use crate::bytes::{be32_bytes, be64_bytes, extend_range, push_be32, push_be64, zeros};
use crate::compress::{compress_data, spec_compress, spec_decompress};
use crate::digest::{checksum_input, digest_of};
use crate::errors::ArchiveError;
use crate::models::{
    entry_wf, spec_end_bytes, spec_entry_bytes, spec_header_bytes, ArchiveEndRecord, ArchiveHeader,
    ArchiveIndexEntry, CompressionAlgorithm, EndV, EntryV, HeaderV,
};
use crate::paths::{sanitize_path, spec_sanitize};
use crate::reader::{
    entry_views, spec_extract_entry, spec_parse_end, spec_parse_entries, spec_parse_header,
    spec_parse_index,
};

verus! {

/// One file handed to the writer: its archive path before sanitization, its
/// content, the chosen compression algorithm, and its platform metadata.
pub struct InputFile {
    pub path: Vec<u8>,
    pub data: Vec<u8>,
    pub algorithm: CompressionAlgorithm,
    pub modification_time: u64,
    pub uid: u8,
    pub gid: u8,
    pub permissions: u16,
}

/// Mathematical model of one writer input.
pub struct InputFileV {
    pub path: Seq<u8>,
    pub data: Seq<u8>,
    pub algorithm: CompressionAlgorithm,
    pub modification_time: u64,
    pub uid: u8,
    pub gid: u8,
    pub permissions: u16,
}

impl View for InputFile {
    type V = InputFileV;

    open spec fn view(&self) -> InputFileV {
        InputFileV {
            path: self.path@,
            data: self.data@,
            algorithm: self.algorithm,
            modification_time: self.modification_time,
            uid: self.uid,
            gid: self.gid,
            permissions: self.permissions,
        }
    }
}

/// Views of a sequence of writer inputs.
pub open spec fn input_views(fs: Seq<InputFile>) -> Seq<InputFileV> {
    fs.map_values(|f: InputFile| f@)
}

/// The data block one input contributes: an 8-byte length prefix, then the
/// compressed bytes.
pub open spec fn block_of(f: InputFileV) -> Seq<u8> {
    be64_bytes(spec_compress(f.data, f.algorithm).len() as u64) + spec_compress(f.data, f.algorithm)
}

/// The whole data section: every input's block, concatenated in order.
pub open spec fn data_section_bytes(fs: Seq<InputFileV>) -> Seq<u8>
    decreases fs.len(),
{
    if fs.len() == 0 {
        Seq::empty()
    } else {
        data_section_bytes(fs.drop_last()) + block_of(fs.last())
    }
}

/// Where input `j`'s block starts, relative to the data-section start.
pub open spec fn data_offset_of(fs: Seq<InputFileV>, j: int) -> int {
    data_section_bytes(fs.take(j)).len() as int
}

/// The encoded index entries, concatenated in order.
pub open spec fn entries_bytes(es: Seq<EntryV>) -> Seq<u8>
    decreases es.len(),
{
    if es.len() == 0 {
        Seq::empty()
    } else {
        spec_entry_bytes(es[0]) + entries_bytes(es.skip(1))
    }
}

/// Appending one entry appends its encoding.
pub proof fn lemma_entries_bytes_push(es: Seq<EntryV>, e: EntryV)
    ensures
        entries_bytes(es.push(e)) == entries_bytes(es) + spec_entry_bytes(e),
    decreases es.len(),
{
    if es.len() == 0 {
        assert(es.push(e)[0] == e);
        assert(es.push(e).skip(1) =~= Seq::<EntryV>::empty());
        assert(entries_bytes(Seq::<EntryV>::empty()) == Seq::<u8>::empty());
        assert(entries_bytes(es.push(e)) == spec_entry_bytes(e) + Seq::<u8>::empty());
        assert(spec_entry_bytes(e) + Seq::<u8>::empty() =~= spec_entry_bytes(e));
        assert(Seq::<u8>::empty() + spec_entry_bytes(e) =~= spec_entry_bytes(e));
    } else {
        lemma_entries_bytes_push(es.skip(1), e);
        assert(es.push(e)[0] == es[0]);
        assert(es.push(e).skip(1) =~= es.skip(1).push(e));
        assert(entries_bytes(es.push(e)) == spec_entry_bytes(es[0]) + entries_bytes(
            es.skip(1).push(e),
        ));
        assert(spec_entry_bytes(es[0]) + (entries_bytes(es.skip(1)) + spec_entry_bytes(e)) =~= (
        spec_entry_bytes(es[0]) + entries_bytes(es.skip(1))) + spec_entry_bytes(e));
    }
}

/// Parsing at the start of a run of encoded entries yields exactly those
/// entries and stops right after them.
#[verifier::rlimit(80)]
pub proof fn lemma_parse_entries_of_encoding(b: Seq<u8>, pos: int, es: Seq<EntryV>)
    requires
        forall|j: int| 0 <= j < es.len() ==> entry_wf(#[trigger] es[j]),
        0 <= pos,
        pos + entries_bytes(es).len() <= b.len(),
        b.subrange(pos, pos + entries_bytes(es).len()) == entries_bytes(es),
    ensures
        spec_parse_entries(b, pos, es.len() as nat) == Option::Some(
            (es, pos + entries_bytes(es).len()),
        ),
    decreases es.len(),
{
    if es.len() == 0 {
        assert(es =~= Seq::<EntryV>::empty());
    } else {
        let e0 = es[0];
        let enc0 = spec_entry_bytes(e0);
        crate::models::lemma_entry_body_len(e0);
        let total = entries_bytes(es).len();
        assert(entries_bytes(es) == enc0 + entries_bytes(es.skip(1)));
        assert forall|k: int| 0 <= k < enc0.len() implies b[pos + k] == enc0[k] by {
            assert(b.subrange(pos, pos + total)[k] == b[pos + k]);
            assert(entries_bytes(es)[k] == enc0[k]);
        }
        assert(b.subrange(pos, pos + enc0.len()) =~= enc0);
        crate::reader::lemma_parse_entry_at_round_trip(b, pos, e0);
        let p2 = pos + e0.path.len() + 77;
        assert(enc0.len() == e0.path.len() + 77);
        let rest = entries_bytes(es.skip(1));
        assert forall|k: int| 0 <= k < rest.len() implies b[p2 + k] == rest[k] by {
            assert(b.subrange(pos, pos + total)[enc0.len() + k] == b[pos + enc0.len() + k]);
            assert(entries_bytes(es)[enc0.len() + k] == rest[k]);
        }
        assert(b.subrange(p2, p2 + rest.len()) =~= rest);
        assert(forall|j: int| 0 <= j < es.skip(1).len() ==> entry_wf(#[trigger] es.skip(1)[j]));
        lemma_parse_entries_of_encoding(b, p2, es.skip(1));
        assert(spec_parse_entries(b, p2, es.skip(1).len() as nat) == Option::Some(
            (es.skip(1), p2 + rest.len()),
        ));
        assert(seq![e0] + es.skip(1) =~= es);
        assert(p2 + rest.len() == pos + total);
    }
}

/// Each input's block sits at its recorded offset inside the data section.
pub proof fn lemma_data_section_block(fs: Seq<InputFileV>, j: int)
    requires
        0 <= j < fs.len(),
    ensures
        data_offset_of(fs, j) + block_of(fs[j]).len() <= data_section_bytes(fs).len(),
        data_section_bytes(fs).subrange(
            data_offset_of(fs, j),
            data_offset_of(fs, j) + block_of(fs[j]).len(),
        ) == block_of(fs[j]),
        data_offset_of(fs, j) >= 0,
    decreases fs.len(),
{
    let whole = data_section_bytes(fs);
    if j == fs.len() - 1 {
        assert(fs.take(j) =~= fs.drop_last());
        assert(whole == data_section_bytes(fs.take(j)) + block_of(fs[j]));
        assert(whole.subrange(
            data_offset_of(fs, j),
            data_offset_of(fs, j) + block_of(fs[j]).len(),
        ) =~= block_of(fs[j]));
    } else {
        lemma_data_section_block(fs.drop_last(), j);
        assert(fs.drop_last().take(j) =~= fs.take(j));
        assert(fs.drop_last()[j] == fs[j]);
        let inner = data_section_bytes(fs.drop_last());
        let off = data_offset_of(fs, j);
        let blen = block_of(fs[j]).len() as int;
        assert(whole == inner + block_of(fs.last()));
        assert forall|k: int| 0 <= k < blen implies whole[off + k] == block_of(fs[j])[k] by {
            assert(whole[off + k] == inner[off + k]);
            assert(inner.subrange(off, off + blen)[k] == inner[off + k]);
        }
        assert(whole.subrange(off, off + blen) =~= block_of(fs[j]));
    }
}

/// What one index entry of a fresh archive says about its input: sanitized
/// path, exact sizes, algorithm, metadata, content digest — and its data
/// block extracts back to the input's bytes.
pub open spec fn entry_matches_input(out: Seq<u8>, e: EntryV, f: InputFileV) -> bool {
    &&& e.path == spec_sanitize(f.path)
    &&& e.data_offset + 8 + e.compressed_size <= spec_parse_header(
        out,
    ).unwrap().index_section_start - 512
    &&& e.uncompressed_size == f.data.len()
    &&& e.compressed_size == spec_compress(f.data, f.algorithm).len()
    &&& e.compression_algorithm == f.algorithm
    &&& e.modification_time == f.modification_time
    &&& e.uid == f.uid
    &&& e.gid == f.gid
    &&& e.permissions == f.permissions
    &&& e.checksum == digest_of(f.data)
    &&& spec_extract_entry(out, 512, e) == Result::<Seq<u8>, ArchiveError>::Ok(f.data)
}

/// Everything `create_archive` promises of a fresh archive: the header
/// parses with the right offsets, count, time and digest; the end record
/// agrees with the header; the index parses to one entry per input, in
/// order; and every entry round-trips to its input's exact bytes.
pub open spec fn created_archive_ok(fs: Seq<InputFileV>, ts: u64, out: Seq<u8>) -> bool {
    &&& out.len() >= 580
    &&& spec_parse_header(out) is Some
    &&& {
        let h = spec_parse_header(out).unwrap();
        &&& h.data_section_start == 512
        &&& 512 <= h.index_section_start < out.len()
        &&& h.index_section_start as int == 512 + data_section_bytes(fs).len()
        &&& out.subrange(512, h.index_section_start as int) == data_section_bytes(fs)
        &&& out.len() == 580 + data_section_bytes(fs).len() + entries_bytes(
            spec_parse_index(out, h).unwrap().1,
        ).len()
        &&& h.total_files == fs.len()
        &&& h.created_timestamp == ts
        &&& h.archive_checksum == digest_of(checksum_input(out))
        &&& spec_parse_end(out) is Some
        &&& spec_parse_end(out).unwrap().index_offset == h.index_section_start
        &&& spec_parse_end(out).unwrap().archive_checksum == h.archive_checksum
        &&& spec_parse_index(out, h) is Some
        &&& spec_parse_index(out, h).unwrap().0 == fs.len()
        &&& spec_parse_index(out, h).unwrap().1.len() == fs.len()
        &&& forall|j: int|
            0 <= j < fs.len() ==> entry_matches_input(
                out,
                #[trigger] spec_parse_index(out, h).unwrap().1[j],
                fs[j],
            ) && spec_parse_index(out, h).unwrap().1[j].data_offset as int == data_offset_of(
                fs,
                j,
            )
    }
}

/// What the writer's first pass records for one input: a well-formed entry
/// with the sanitized path, exact sizes, metadata, the content digest, and a
/// compressed block that decompresses back to the content.
pub open spec fn entry_ready(e: EntryV, f: InputFileV, off: int) -> bool {
    &&& entry_wf(e)
    &&& e.path == spec_sanitize(f.path)
    &&& e.data_offset as int == off
    &&& e.uncompressed_size == f.data.len()
    &&& e.compressed_size == spec_compress(f.data, f.algorithm).len()
    &&& e.compression_algorithm == f.algorithm
    &&& e.modification_time == f.modification_time
    &&& e.uid == f.uid
    &&& e.gid == f.gid
    &&& e.permissions == f.permissions
    &&& e.checksum == digest_of(f.data)
    &&& spec_decompress(spec_compress(f.data, f.algorithm), f.algorithm) == Option::Some(f.data)
}

/// The byte-level effect of backpatching the digest into both checksum
/// fields, one buffer rewrite after the other.
proof fn lemma_two_patches(pre: Seq<u8>, d: Seq<u8>, mid: Seq<u8>, fin: Seq<u8>)
    requires
        pre.len() >= 576,
        d.len() == 32,
        mid == pre.subrange(0, 36) + d + pre.subrange(68, pre.len() as int),
        fin == mid.subrange(0, pre.len() - 44) + d + mid.subrange(pre.len() - 12, pre.len() as int),
    ensures
        fin.len() == pre.len(),
        forall|j: int|
            0 <= j < pre.len() ==> fin[j] == (if 36 <= j < 68 {
                d[j - 36]
            } else if pre.len() - 44 <= j < pre.len() - 12 {
                d[j - (pre.len() - 44)]
            } else {
                pre[j]
            }),
{
    let n = pre.len() as int;
    assert(mid.len() == n);
    assert(fin.len() == n);
    assert forall|j: int| 0 <= j < n implies mid[j] == (if 36 <= j < 68 {
        d[j - 36]
    } else {
        pre[j]
    }) by {
        if j < 36 {
            assert(mid[j] == pre.subrange(0, 36)[j]);
        } else if j < 68 {
        } else {
            assert(mid[j] == pre.subrange(68, n)[j - 68]);
        }
    }
    assert forall|j: int| 0 <= j < n implies fin[j] == (if 36 <= j < 68 {
        d[j - 36]
    } else if n - 44 <= j < n - 12 {
        d[j - (n - 44)]
    } else {
        pre[j]
    }) by {
        if j < n - 44 {
            assert(fin[j] == mid.subrange(0, n - 44)[j]);
        } else if j < n - 12 {
        } else {
            assert(fin[j] == mid.subrange(n - 12, n)[j - (n - 12)]);
        }
    }
}

/// Swapping the digest into both checksum fields turns the zero-field
/// layout into the same layout around the new fields.
#[verifier::rlimit(100)]
proof fn lemma_patch_swaps_checksums(
    hb0: Seq<u8>,
    hb1: Seq<u8>,
    midsec: Seq<u8>,
    eb0: Seq<u8>,
    eb1: Seq<u8>,
    pre: Seq<u8>,
    d: Seq<u8>,
    fin: Seq<u8>,
)
    requires
        hb0.len() == 512,
        hb1.len() == 512,
        eb0.len() == 64,
        eb1.len() == 64,
        d.len() == 32,
        hb1 == hb0.subrange(0, 36) + d + hb0.subrange(68, 512),
        eb1 == eb0.subrange(0, 20) + d + eb0.subrange(52, 64),
        pre == hb0 + midsec + eb0,
        fin.len() == pre.len(),
        forall|j: int|
            0 <= j < fin.len() ==> fin[j] == (if 36 <= j < 68 {
                d[j - 36]
            } else if pre.len() - 44 <= j < pre.len() - 12 {
                d[j - (pre.len() - 44)]
            } else {
                pre[j]
            }),
    ensures
        fin =~= hb1 + midsec + eb1,
{
    let n = pre.len() as int;
    assert(n == 576 + midsec.len());
    let tgt = hb1 + midsec + eb1;
    assert forall|j: int| 0 <= j < n implies tgt[j] == fin[j] by {
        if j < 512 {
            assert(tgt[j] == hb1[j]);
            if j < 36 {
                assert(hb1[j] == hb0.subrange(0, 36)[j]);
                assert(fin[j] == pre[j]);
                assert(pre[j] == hb0[j]);
            } else if j < 68 {
                assert(hb1[j] == d[j - 36]);
                assert(fin[j] == d[j - 36]);
            } else {
                assert(hb1[j] == hb0.subrange(68, 512)[j - 68]);
                assert(fin[j] == pre[j]);
                assert(pre[j] == hb0[j]);
            }
        } else if j < n - 64 {
            assert(tgt[j] == midsec[j - 512]);
            assert(pre[j] == midsec[j - 512]);
            assert(fin[j] == pre[j]);
        } else {
            let k = j - (n - 64);
            assert(tgt[j] == eb1[k]);
            assert(pre[j] == eb0[k]);
            if k < 20 {
                assert(eb1[k] == eb0.subrange(0, 20)[k]);
                assert(fin[j] == pre[j]);
            } else if k < 52 {
                assert(eb1[k] == d[k - 20]);
                assert(fin[j] == d[j - (n - 44)]);
            } else {
                assert(eb1[k] == eb0.subrange(52, 64)[k - 52]);
                assert(fin[j] == pre[j]);
            }
        }
    }
}

/// An entry the writer recorded extracts back to its input's bytes from any
/// buffer whose data section holds the assembled blocks.
#[verifier::rlimit(100)]
proof fn lemma_entry_extracts(fvs: Seq<InputFileV>, e: EntryV, j: int, fin: Seq<u8>)
    requires
        0 <= j < fvs.len(),
        entry_ready(e, fvs[j], data_offset_of(fvs, j)),
        fin.len() >= 512 + data_section_bytes(fvs).len(),
        forall|k: int|
            0 <= k < data_section_bytes(fvs).len() ==> fin[512 + k] == data_section_bytes(fvs)[k],
    ensures
        spec_extract_entry(fin, 512, e) == Result::<Seq<u8>, ArchiveError>::Ok(fvs[j].data),
{
    let f = fvs[j];
    let dsec = data_section_bytes(fvs);
    let dlen = dsec.len() as int;
    lemma_data_section_block(fvs, j);
    let off = data_offset_of(fvs, j);
    let blk = block_of(f);
    let comp = spec_compress(f.data, f.algorithm);
    let cl = comp.len() as int;
    assert(blk.len() == 8 + cl);
    assert(off + 8 + cl <= dlen);
    let p = 512 + off;
    assert forall|k: int| 0 <= k < blk.len() implies fin[p + k] == blk[k] by {
        assert(fin[512 + (off + k)] == dsec[off + k]);
        assert(dsec.subrange(off, off + blk.len())[k] == dsec[off + k]);
    }
    assert(comp.len() as u64 == e.compressed_size);
    assert forall|k: int| 0 <= k < 8 implies fin.subrange(p, p + 8)[k] == be64_bytes(
        e.compressed_size,
    )[k] by {
        assert(fin.subrange(p, p + 8)[k] == fin[p + k]);
        assert(blk[k] == be64_bytes(comp.len() as u64)[k]);
    }
    assert(fin.subrange(p, p + 8) =~= be64_bytes(e.compressed_size));
    crate::bytes::lemma_be64_round_trip(e.compressed_size);
    assert forall|k: int| 0 <= k < cl implies fin.subrange(p + 8, p + 8 + cl)[k] == comp[k] by {
        assert(fin.subrange(p + 8, p + 8 + cl)[k] == fin[p + 8 + k]);
        assert(blk[8 + k] == comp[k]);
    }
    assert(fin.subrange(p + 8, p + 8 + cl) =~= comp);
    assert(p + 8 + e.compressed_size <= fin.len());
}

/// Every recorded entry of an assembled buffer matches its input and sits
/// at its recorded offset, wholly inside the data section.
#[verifier::rlimit(100)]
proof fn lemma_entries_match_inputs(
    fvs: Seq<InputFileV>,
    evs: Seq<EntryV>,
    h1: HeaderV,
    fin: Seq<u8>,
)
    requires
        evs.len() == fvs.len(),
        forall|j: int|
            0 <= j < fvs.len() ==> entry_ready(#[trigger] evs[j], fvs[j], data_offset_of(fvs, j)),
        spec_parse_header(fin) == Option::Some(h1),
        h1.index_section_start as int == 512 + data_section_bytes(fvs).len(),
        fin.len() >= 512 + data_section_bytes(fvs).len(),
        forall|k: int|
            0 <= k < data_section_bytes(fvs).len() ==> fin[512 + k] == data_section_bytes(fvs)[k],
    ensures
        forall|j: int|
            0 <= j < fvs.len() ==> entry_matches_input(fin, #[trigger] evs[j], fvs[j])
                && evs[j].data_offset as int == data_offset_of(fvs, j),
{
    let dlen = data_section_bytes(fvs).len() as int;
    assert forall|j: int| 0 <= j < fvs.len() implies entry_matches_input(
        fin,
        #[trigger] evs[j],
        fvs[j],
    ) && evs[j].data_offset as int == data_offset_of(fvs, j) by {
        assert(entry_ready(evs[j], fvs[j], data_offset_of(fvs, j)));
        lemma_data_section_block(fvs, j);
        assert(block_of(fvs[j]).len() == 8 + spec_compress(fvs[j].data, fvs[j].algorithm).len());
        assert(evs[j].data_offset + 8 + evs[j].compressed_size <= dlen);
        lemma_entry_extracts(fvs, evs[j], j, fin);
    }
}

/// The one big step of `create_archive`: a buffer assembled as header, data
/// section, counted index and end record, with the digest of its zero-field
/// form backpatched into both checksum fields, satisfies everything the
/// writer promises.
#[verifier::rlimit(100)]
pub proof fn lemma_assembled_archive(
    fvs: Seq<InputFileV>,
    ts: u64,
    h0: HeaderV,
    e0: EndV,
    evs: Seq<EntryV>,
    pre: Seq<u8>,
    d: Seq<u8>,
    fin: Seq<u8>,
)
    requires
        fvs.len() <= u32::MAX,
        evs.len() == fvs.len(),
        forall|j: int|
            0 <= j < fvs.len() ==> entry_ready(#[trigger] evs[j], fvs[j], data_offset_of(fvs, j)),
        h0.data_section_start == 512,
        h0.index_section_start as int == 512 + data_section_bytes(fvs).len(),
        h0.total_files as int == fvs.len() as int,
        h0.created_timestamp == ts,
        h0.archive_checksum == zeros(32),
        e0.index_offset == h0.index_section_start,
        e0.archive_checksum == zeros(32),
        pre == spec_header_bytes(h0) + data_section_bytes(fvs) + be32_bytes(h0.total_files)
            + entries_bytes(evs) + spec_end_bytes(e0),
        d == digest_of(checksum_input(pre)),
        d.len() == 32,
        fin.len() == pre.len(),
        forall|j: int|
            0 <= j < fin.len() ==> fin[j] == (if 36 <= j < 68 {
                d[j - 36]
            } else if pre.len() - 44 <= j < pre.len() - 12 {
                d[j - (pre.len() - 44)]
            } else {
                pre[j]
            }),
    ensures
        created_archive_ok(fvs, ts, fin),
{
    let dsec = data_section_bytes(fvs);
    let dlen = dsec.len() as int;
    let cnt = be32_bytes(h0.total_files);
    let idx = entries_bytes(evs);
    let ilen = idx.len() as int;
    let hb0 = spec_header_bytes(h0);
    let eb0 = spec_end_bytes(e0);
    crate::models::lemma_header_bytes_len(h0);
    crate::models::lemma_end_bytes_len(e0);
    let n = pre.len() as int;
    assert(n == 580 + dlen + ilen);
    let h1 = HeaderV { archive_checksum: d, ..h0 };
    let e1 = EndV { archive_checksum: d, ..e0 };
    crate::models::lemma_header_bytes_checksum_patch(h0, h1);
    crate::models::lemma_end_bytes_checksum_patch(e0, e1);
    crate::models::lemma_header_bytes_len(h1);
    crate::models::lemma_end_bytes_len(e1);
    let hb1 = spec_header_bytes(h1);
    let eb1 = spec_end_bytes(e1);
    let midsec = dsec + cnt + idx;
    assert(pre =~= hb0 + midsec + eb0);
    lemma_patch_swaps_checksums(hb0, hb1, midsec, eb0, eb1, hb0 + midsec + eb0, d, fin);
    assert(fin =~= hb1 + midsec + eb1);
    // The header, end record and index all parse back.
    crate::reader::lemma_parse_header_round_trip(h1, midsec + eb1);
    assert(fin =~= hb1 + (midsec + eb1));
    assert(spec_parse_header(fin) == Option::Some(h1));
    crate::reader::lemma_parse_end_round_trip(hb1 + midsec, e1);
    assert(fin =~= (hb1 + midsec) + eb1);
    assert(spec_parse_end(fin) == Option::Some(e1));
    let ist = 512 + dlen;
    assert forall|k: int| 0 <= k < 4 + ilen implies fin[ist + k] == (cnt + idx)[k] by {
        assert(fin[ist + k] == (hb1 + midsec + eb1)[ist + k]);
        assert((hb1 + midsec + eb1)[ist + k] == midsec[dlen + k]);
        assert(midsec[dlen + k] == (cnt + idx)[k]);
    }
    assert(fin.subrange(ist, ist + 4) =~= cnt);
    crate::bytes::lemma_be32_round_trip(h0.total_files);
    assert forall|k: int| 0 <= k < ilen implies fin.subrange(ist + 4, ist + 4 + ilen)[k]
        == idx[k] by {
        assert(fin.subrange(ist + 4, ist + 4 + ilen)[k] == fin[ist + 4 + k]);
        assert((cnt + idx)[4 + k] == idx[k]);
    }
    assert(fin.subrange(ist + 4, ist + 4 + ilen) =~= idx);
    assert(forall|j: int| 0 <= j < evs.len() ==> entry_wf(#[trigger] evs[j]));
    lemma_parse_entries_of_encoding(fin, ist + 4, evs);
    assert(spec_parse_index(fin, h1) == Option::Some((h0.total_files, evs)));
    // Backpatching the digest fields does not change the digest input.
    crate::digest::lemma_checksum_input_ignores_fields(pre, fin);
    assert(h1.archive_checksum == digest_of(checksum_input(fin)));
    // Every entry's block extracts back to its input's bytes.
    assert forall|k: int| 0 <= k < dlen implies fin[512 + k] == dsec[k] by {
        assert(fin[512 + k] == (hb1 + midsec + eb1)[512 + k]);
        assert((hb1 + midsec + eb1)[512 + k] == midsec[k]);
        assert(midsec[k] == dsec[k]);
    }
    lemma_entries_match_inputs(fvs, evs, h1, fin);
    assert forall|j: int| 0 <= j < fvs.len() implies entry_matches_input(
        fin,
        #[trigger] spec_parse_index(fin, spec_parse_header(fin).unwrap()).unwrap().1[j],
        fvs[j],
    ) && spec_parse_index(fin, spec_parse_header(fin).unwrap()).unwrap().1[j].data_offset as int
        == data_offset_of(fvs, j) by {
        assert(spec_parse_index(fin, h1).unwrap().1[j] == evs[j]);
    }
    assert(512 <= h1.index_section_start < fin.len());
    assert(fin.subrange(512, h1.index_section_start as int) =~= dsec);
    assert(fin.len() == 580 + dlen + entries_bytes(spec_parse_index(fin, h1).unwrap().1).len());
}

/// Digest the content, compress it, and append its length-prefixed data
/// block to `archive_bytes`. The returned entry carries the sizes, the
/// algorithm and the content digest; path, offset and metadata stay at
/// their defaults for the caller to fill in. On failure the buffer is
/// untouched.
pub fn add_file(data: &Vec<u8>, algorithm: CompressionAlgorithm, archive_bytes: &mut Vec<u8>) -> (r:
    Result<ArchiveIndexEntry, ArchiveError>)
    ensures
        r matches Ok(e) ==> ({
            &&& final(archive_bytes)@ == old(archive_bytes)@ + be64_bytes(e.compressed_size)
                + spec_compress(data@, algorithm)
            &&& e@.compressed_size == spec_compress(data@, algorithm).len()
            &&& spec_decompress(spec_compress(data@, algorithm), algorithm) == Option::Some(data@)
            &&& e@.uncompressed_size == data@.len()
            &&& e@.checksum == digest_of(data@)
            &&& e@.compression_algorithm == algorithm
            &&& e@.path == Seq::<u8>::empty()
            &&& e@.data_offset == 0
            &&& e.wf()
        }),
        r is Err ==> final(archive_bytes)@ == old(archive_bytes)@ && r == Result::<
            ArchiveIndexEntry,
            ArchiveError,
        >::Err(ArchiveError::Codec),
        algorithm == CompressionAlgorithm::Stored ==> r is Ok,
{
    let checksum = crate::digest::blake3_digest(data);
    let compressed = match compress_data(data, algorithm) {
        Ok(v) => v,
        Err(er) => {
            return Err(er);
        },
    };
    let compressed_size = compressed.len() as u64;
    push_be64(archive_bytes, compressed_size);
    extend_range(archive_bytes, &compressed, 0, compressed.len());
    proof {
        assert(compressed@.subrange(0, compressed@.len() as int) =~= compressed@);
    }
    let e = ArchiveIndexEntry {
        path: Vec::new(),
        data_offset: 0,
        uncompressed_size: data.len() as u64,
        compressed_size,
        compression_algorithm: algorithm,
        modification_time: 0,
        uid: 0,
        gid: 0,
        permissions: 0o644,
        checksum,
    };
    Ok(e)
}


/// Inputs on which creation owes success: every entry is stored verbatim,
/// so no codec can refuse, and every sanitized path fits the 32-bit length
/// prefixes of the index.
pub open spec fn inputs_owe_success(fs: Seq<InputFile>) -> bool {
    forall|j: int|
        0 <= j < fs.len() ==> (#[trigger] fs[j])@.algorithm == CompressionAlgorithm::Stored
            && spec_sanitize(fs[j]@.path).len() + 77 <= u32::MAX
}

/// Assemble a complete archive from the input files: a 512-byte header, one
/// length-prefixed compressed block per file, a counted index with one entry
/// per file, a 64-byte end record, and the whole-archive digest backpatched
/// into both checksum fields. Fails only when a codec fails or a machine
/// limit (path or buffer size) is hit; the empty input set yields a valid
/// empty archive.
pub fn create_archive(files: &Vec<InputFile>, created_timestamp: u64) -> (r: Result<
    Vec<u8>,
    ArchiveError,
>)
    requires
        files@.len() <= u32::MAX,
    ensures
        r matches Ok(out) ==> created_archive_ok(input_views(files@), created_timestamp, out@),
        r matches Err(e) ==> e == ArchiveError::Codec || e == ArchiveError::Precondition,
        files@.len() == 0 ==> r is Ok,
        inputs_owe_success(files@) && data_section_bytes(input_views(files@)).len() + 580
            <= usize::MAX ==> r is Ok,
{
    let ghost fvs = input_views(files@);
    let mut data_sec: Vec<u8> = Vec::new();
    let mut entries: Vec<ArchiveIndexEntry> = Vec::new();
    let mut i: usize = 0;
    proof {
        assert(fvs.take(0) =~= Seq::<InputFileV>::empty());
    }
    while i < files.len()
        invariant
            i <= files.len(),
            files@.len() <= u32::MAX,
            fvs == input_views(files@),
            fvs.len() == files@.len(),
            entries@.len() == i,
            data_sec@ == data_section_bytes(fvs.take(i as int)),
            forall|j: int|
                0 <= j < i ==> entry_ready(
                    #[trigger] entry_views(entries@)[j],
                    fvs[j],
                    data_offset_of(fvs, j),
                ),
        decreases files.len() - i,
    {
        let f = &files[i];
        proof {
            assert(fvs[i as int] == files@[i as int]@);
        }
        let off64 = data_sec.len() as u64;
        let mut e = match add_file(&f.data, f.algorithm, &mut data_sec) {
            Ok(e) => e,
            Err(er) => {
                proof {
                    // A stored entry cannot fail, so success was not owed.
                    assert(!inputs_owe_success(files@)) by {
                        if inputs_owe_success(files@) {
                            assert(files@[i as int]@.algorithm
                                == CompressionAlgorithm::Stored);
                        }
                    }
                }
                return Err(er);
            },
        };
        let sp = sanitize_path(&f.path);
        if sp.len() > (u32::MAX - 77) as usize {
            proof {
                // The sanitized path overflows the prefixes, so success was
                // not owed.
                assert(!inputs_owe_success(files@)) by {
                    if inputs_owe_success(files@) {
                        assert(spec_sanitize(files@[i as int]@.path).len() + 77 <= u32::MAX);
                    }
                }
            }
            return Err(ArchiveError::Precondition);
        }
        e.path = sp;
        e.data_offset = off64;
        e.modification_time = f.modification_time;
        e.uid = f.uid;
        e.gid = f.gid;
        e.permissions = f.permissions;
        proof {
            assert(spec_compress(fvs[i as int].data, fvs[i as int].algorithm).len() as u64
                == e@.compressed_size);
            assert(fvs.take(i + 1).drop_last() =~= fvs.take(i as int));
            assert(fvs.take(i + 1).last() == fvs[i as int]);
            assert(data_sec@ =~= data_section_bytes(fvs.take(i + 1)));
            assert(entry_ready(e@, fvs[i as int], data_offset_of(fvs, i as int)));
            assert(entry_views(entries@.push(e)) =~= entry_views(entries@).push(e@));
        }
        entries.push(e);
        i = i + 1;
    }
    proof {
        assert(fvs.take(fvs.len() as int) =~= fvs);
    }
    let data_len = data_sec.len();
    if data_len > usize::MAX - 580 {
        proof {
            assert(data_sec@ == data_section_bytes(input_views(files@)));
            if files@.len() == 0 {
                assert(fvs.take(0) =~= Seq::<InputFileV>::empty());
                assert(data_section_bytes(Seq::<InputFileV>::empty()).len() == 0);
            }
        }
        return Err(ArchiveError::Precondition);
    }
    let total_files = files.len() as u32;
    let index_section_start = (512 + data_len) as u64;
    let header = ArchiveHeader::new(512, index_section_start, total_files, created_timestamp);
    let ghost h0v = header@;
    let mut ab: Vec<u8> = Vec::new();
    header.write_to(&mut ab);
    extend_range(&mut ab, &data_sec, 0, data_len);
    proof {
        assert(data_sec@.subrange(0, data_len as int) =~= data_sec@);
    }
    push_be32(&mut ab, total_files);
    let ghost evs = entry_views(entries@);
    let ghost stem = spec_header_bytes(h0v) + data_section_bytes(fvs) + be32_bytes(total_files);
    proof {
        assert(ab@ == stem);
        assert(evs.take(0) =~= Seq::<EntryV>::empty());
        assert(entries_bytes(Seq::<EntryV>::empty()) == Seq::<u8>::empty());
        assert(stem + Seq::<u8>::empty() =~= stem);
    }
    let mut k: usize = 0;
    while k < entries.len()
        invariant
            k <= entries.len(),
            entries@.len() == fvs.len(),
            fvs == input_views(files@),
            evs == entry_views(entries@),
            forall|j: int|
                0 <= j < entries@.len() ==> entry_ready(
                    #[trigger] entry_views(entries@)[j],
                    fvs[j],
                    data_offset_of(fvs, j),
                ),
            stem == spec_header_bytes(h0v) + data_section_bytes(fvs) + be32_bytes(total_files),
            ab@ == stem + entries_bytes(evs.take(k as int)),
        decreases entries.len() - k,
    {
        proof {
            assert(entries@[k as int].wf()) by {
                assert(entry_views(entries@)[k as int] == entries@[k as int]@);
            }
        }
        let ent = &entries[k];
        ent.write_to(&mut ab);
        proof {
            lemma_entries_bytes_push(evs.take(k as int), evs[k as int]);
            assert(evs.take(k + 1) =~= evs.take(k as int).push(evs[k as int]));
            assert(evs[k as int] == entries@[k as int]@);
            assert(ab@ =~= stem + entries_bytes(evs.take(k + 1)));
        }
        k = k + 1;
    }
    proof {
        assert(evs.take(evs.len() as int) =~= evs);
    }
    let index_length = (ab.len() - (512 + data_len)) as u64;
    let end = ArchiveEndRecord::new(index_section_start, index_length);
    let ghost e0v = end@;
    end.write_to(&mut ab);
    let ghost pre = ab@;
    proof {
        crate::models::lemma_header_bytes_len(h0v);
        crate::models::lemma_end_bytes_len(e0v);
        assert(pre == spec_header_bytes(h0v) + data_section_bytes(fvs) + be32_bytes(total_files)
            + entries_bytes(evs) + spec_end_bytes(e0v));
        assert(pre.len() == 580 + data_section_bytes(fvs).len() + entries_bytes(evs).len());
    }
    let digest = crate::digest::calculate_archive_checksum(&ab);
    crate::bytes::overwrite32(&mut ab, 36, &digest);
    let ghost mid = ab@;
    let end_base = ab.len() - 64;
    crate::bytes::overwrite32(&mut ab, end_base + 20, &digest);
    proof {
        lemma_two_patches(pre, digest@, mid, ab@);
        lemma_assembled_archive(
            fvs,
            created_timestamp,
            h0v,
            e0v,
            evs,
            pre,
            digest@,
            ab@,
        );
    }
    Ok(ab)
}


/// Round trip: from any freshly created archive, extraction succeeds for
/// every entry and reproduces byte-identical content under the sanitized
/// relative path of the input it came from, whatever compression algorithm
/// each input forced.
pub proof fn lemma_create_extract_round_trip(fvs: Seq<InputFileV>, ts: u64, out: Seq<u8>)
    requires
        created_archive_ok(fvs, ts, out),
    ensures
        crate::reader::spec_can_extract(out),
        spec_parse_index(out, spec_parse_header(out).unwrap()).unwrap().1.len() == fvs.len(),
        forall|j: int|
            0 <= j < fvs.len() ==> {
                let e = #[trigger] spec_parse_index(out, spec_parse_header(out).unwrap()).unwrap().1[j];
                spec_extract_entry(out, 512, e) == Result::<Seq<u8>, ArchiveError>::Ok(fvs[j].data)
                    && e.path == spec_sanitize(fvs[j].path)
            },
{
    let h = spec_parse_header(out).unwrap();
    let es = spec_parse_index(out, h).unwrap().1;
    assert forall|j: int| 0 <= j < es.len() implies (#[trigger] spec_extract_entry(
        out,
        h.data_section_start as int,
        es[j],
    )) is Ok by {
        assert(entry_matches_input(out, es[j], fvs[j]));
        assert(h.data_section_start == 512);
    }
    assert(crate::reader::spec_can_extract(out));
    assert forall|j: int| 0 <= j < fvs.len() implies {
        let e = #[trigger] spec_parse_index(out, spec_parse_header(out).unwrap()).unwrap().1[j];
        spec_extract_entry(out, 512, e) == Result::<Seq<u8>, ArchiveError>::Ok(fvs[j].data)
            && e.path == spec_sanitize(fvs[j].path)
    } by {
        assert(entry_matches_input(out, es[j], fvs[j]));
    }
}

} // verus!
