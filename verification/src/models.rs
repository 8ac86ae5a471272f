//! The three persisted structures of the archive format and their byte
//! layouts: a fixed 512-byte header, variable length-prefixed index entries,
//! and a fixed 64-byte end record. All integers are stored big-endian.
use vstd::prelude::*;

use crate::bytes::{
    be16_bytes, be32_bytes, be64_bytes, push_be16, push_be32, push_be64, push_zeros, zeros,
};
use crate::errors::ArchiveError;

verus! {

/// Size of the encoded header in bytes.
pub const HEADER_SIZE: usize = 512;

/// Size of the encoded end record in bytes.
pub const END_RECORD_SIZE: usize = 64;

/// The header magic, `DAR` followed by a NUL byte.
pub open spec fn header_magic() -> Seq<u8> {
    seq![0x44u8, 0x41u8, 0x52u8, 0x00u8]
}

/// The format version marker, the digits `0004`.
pub open spec fn header_version() -> Seq<u8> {
    seq![0x30u8, 0x30u8, 0x30u8, 0x34u8]
}

/// The end-record magic, `DEND`.
pub open spec fn end_magic() -> Seq<u8> {
    seq![0x44u8, 0x45u8, 0x4eu8, 0x44u8]
}

/// Per-entry compression algorithm, stored as one byte in the index.
#[derive(Clone, Copy, Debug, PartialEq, Eq, Structural)]
pub enum CompressionAlgorithm {
    /// Store verbatim, no compression.
    Stored,
    Brotli,
    Zstandard,
    Lzma,
}

/// The byte that stands for `a` in the index.
pub open spec fn alg_byte(a: CompressionAlgorithm) -> u8 {
    match a {
        CompressionAlgorithm::Stored => 0,
        CompressionAlgorithm::Brotli => 1,
        CompressionAlgorithm::Zstandard => 2,
        CompressionAlgorithm::Lzma => 3,
    }
}

/// The algorithm a stored byte stands for, if any.
pub open spec fn spec_alg_of_byte(v: u8) -> Option<CompressionAlgorithm> {
    if v == 0 {
        Option::Some(CompressionAlgorithm::Stored)
    } else if v == 1 {
        Option::Some(CompressionAlgorithm::Brotli)
    } else if v == 2 {
        Option::Some(CompressionAlgorithm::Zstandard)
    } else if v == 3 {
        Option::Some(CompressionAlgorithm::Lzma)
    } else {
        Option::None
    }
}

impl CompressionAlgorithm {
    /// The byte stored in the index for this algorithm.
    pub fn as_byte(&self) -> (r: u8)
        ensures
            r == alg_byte(*self),
    {
        match self {
            CompressionAlgorithm::Stored => 0,
            CompressionAlgorithm::Brotli => 1,
            CompressionAlgorithm::Zstandard => 2,
            CompressionAlgorithm::Lzma => 3,
        }
    }

    /// The algorithm recorded by a stored byte; an unknown byte is a format
    /// error.
    pub fn from_byte(value: u8) -> (r: Result<CompressionAlgorithm, ArchiveError>)
        ensures
            r is Ok <==> spec_alg_of_byte(value) is Some,
            r matches Ok(a) ==> spec_alg_of_byte(value) == Option::Some(a),
            r is Err ==> r == Result::<CompressionAlgorithm, ArchiveError>::Err(
                ArchiveError::Format,
            ),
    {
        match value {
            0 => Ok(CompressionAlgorithm::Stored),
            1 => Ok(CompressionAlgorithm::Brotli),
            2 => Ok(CompressionAlgorithm::Zstandard),
            3 => Ok(CompressionAlgorithm::Lzma),
            _ => Err(ArchiveError::Format),
        }
    }
}

/// Round-tripping an algorithm through its stored byte gives it back.
pub proof fn lemma_alg_byte_round_trip(a: CompressionAlgorithm)
    ensures
        spec_alg_of_byte(alg_byte(a)) == Option::Some(a),
{
}

/// Mathematical model of the header.
pub struct HeaderV {
    pub data_section_start: u64,
    pub index_section_start: u64,
    pub total_files: u32,
    pub created_timestamp: u64,
    pub archive_checksum: Seq<u8>,
}

/// Archive header: fixed 512 bytes carrying section offsets, the file count,
/// and the whole-archive digest.
pub struct ArchiveHeader {
    pub data_section_start: u64,
    pub index_section_start: u64,
    pub total_files: u32,
    pub created_timestamp: u64,
    /// 32-byte whole-archive digest, zero until backpatched.
    pub archive_checksum: Vec<u8>,
}

impl View for ArchiveHeader {
    type V = HeaderV;

    open spec fn view(&self) -> HeaderV {
        HeaderV {
            data_section_start: self.data_section_start,
            index_section_start: self.index_section_start,
            total_files: self.total_files,
            created_timestamp: self.created_timestamp,
            archive_checksum: self.archive_checksum@,
        }
    }
}

/// The exact 512 bytes that encode `h`.
pub open spec fn spec_header_bytes(h: HeaderV) -> Seq<u8> {
    header_magic() + header_version() + be64_bytes(h.data_section_start) + be64_bytes(
        h.index_section_start,
    ) + be32_bytes(h.total_files) + be64_bytes(h.created_timestamp) + h.archive_checksum + seq![
        0u8,
    ] + zeros(443)
}

impl ArchiveHeader {
    /// Whether the checksum field has the size the layout requires.
    pub open spec fn wf(self) -> bool {
        self.archive_checksum@.len() == 32
    }

    /// A header with the given offsets and count, a zero checksum, and the
    /// given creation time.
    pub fn new(
        data_section_start: u64,
        index_section_start: u64,
        total_files: u32,
        created_timestamp: u64,
    ) -> (r: ArchiveHeader)
        ensures
            r.wf(),
            r@ == (HeaderV {
                data_section_start,
                index_section_start,
                total_files,
                created_timestamp,
                archive_checksum: zeros(32),
            }),
    {
        let mut cs: Vec<u8> = Vec::new();
        push_zeros(&mut cs, 32);
        let r = ArchiveHeader {
            data_section_start,
            index_section_start,
            total_files,
            created_timestamp,
            archive_checksum: cs,
        };
        proof {
            assert(r.archive_checksum@ =~= zeros(32));
        }
        r
    }

    /// Append the 512-byte encoding of this header to `buf`.
    pub fn write_to(&self, buf: &mut Vec<u8>)
        requires
            self.wf(),
        ensures
            final(buf)@ == old(buf)@ + spec_header_bytes(self@),
            final(buf)@.len() == old(buf)@.len() + HEADER_SIZE,
    {
        buf.push(0x44u8);
        buf.push(0x41u8);
        buf.push(0x52u8);
        buf.push(0x00u8);
        buf.push(0x30u8);
        buf.push(0x30u8);
        buf.push(0x30u8);
        buf.push(0x34u8);
        push_be64(buf, self.data_section_start);
        push_be64(buf, self.index_section_start);
        push_be32(buf, self.total_files);
        push_be64(buf, self.created_timestamp);
        let mut i: usize = 0;
        while i < 32
            invariant
                i <= 32,
                self.wf(),
                buf@ == old(buf)@ + header_magic() + header_version() + be64_bytes(
                    self.data_section_start,
                ) + be64_bytes(self.index_section_start) + be32_bytes(self.total_files)
                    + be64_bytes(self.created_timestamp) + self.archive_checksum@.take(i as int),
            decreases 32 - i,
        {
            let byte = self.archive_checksum[i];
            buf.push(byte);
            proof {
                assert(self.archive_checksum@.take(i + 1) =~= self.archive_checksum@.take(i as int)
                    + seq![self.archive_checksum@[i as int]]);
                assert(buf@ =~= old(buf)@ + header_magic() + header_version() + be64_bytes(
                    self.data_section_start,
                ) + be64_bytes(self.index_section_start) + be32_bytes(self.total_files)
                    + be64_bytes(self.created_timestamp) + self.archive_checksum@.take(i + 1));
            }
            i = i + 1;
        }
        buf.push(0u8);
        push_zeros(buf, 443);
        proof {
            assert(self.archive_checksum@.take(32) =~= self.archive_checksum@);
            assert(buf@ =~= old(buf)@ + spec_header_bytes(self@));
        }
    }
}

/// Mathematical model of one index entry.
pub struct EntryV {
    pub path: Seq<u8>,
    pub data_offset: u64,
    pub uncompressed_size: u64,
    pub compressed_size: u64,
    pub compression_algorithm: CompressionAlgorithm,
    pub modification_time: u64,
    pub uid: u8,
    pub gid: u8,
    pub permissions: u16,
    pub checksum: Seq<u8>,
}

/// Index entry: per-file metadata, stored length-prefixed so a reader can
/// walk the index without understanding every field.
pub struct ArchiveIndexEntry {
    /// Archive path of the file, UTF-8 bytes with `/` separators.
    pub path: Vec<u8>,
    /// Offset of the entry's data block, relative to the data-section start.
    pub data_offset: u64,
    pub uncompressed_size: u64,
    pub compressed_size: u64,
    pub compression_algorithm: CompressionAlgorithm,
    pub modification_time: u64,
    pub uid: u8,
    pub gid: u8,
    pub permissions: u16,
    /// 32-byte digest of the uncompressed content.
    pub checksum: Vec<u8>,
}

impl View for ArchiveIndexEntry {
    type V = EntryV;

    open spec fn view(&self) -> EntryV {
        EntryV {
            path: self.path@,
            data_offset: self.data_offset,
            uncompressed_size: self.uncompressed_size,
            compressed_size: self.compressed_size,
            compression_algorithm: self.compression_algorithm,
            modification_time: self.modification_time,
            uid: self.uid,
            gid: self.gid,
            permissions: self.permissions,
            checksum: self.checksum@,
        }
    }
}

/// Whether an entry can be encoded: checksum of digest size and a path short
/// enough for the 32-bit length prefixes.
pub open spec fn entry_wf(e: EntryV) -> bool {
    &&& e.checksum.len() == 32
    &&& e.path.len() + 73 <= u32::MAX
}

/// The body of an encoded entry: every field after the 4-byte entry-length
/// prefix.
pub open spec fn spec_entry_body(e: EntryV) -> Seq<u8> {
    be32_bytes(e.path.len() as u32) + e.path + be64_bytes(e.data_offset) + be64_bytes(
        e.uncompressed_size,
    ) + be64_bytes(e.compressed_size) + seq![alg_byte(e.compression_algorithm)] + be64_bytes(
        e.modification_time,
    ) + seq![e.uid, e.gid] + be16_bytes(e.permissions) + e.checksum
}

/// The full encoding of an entry: its body length, then its body.
pub open spec fn spec_entry_bytes(e: EntryV) -> Seq<u8> {
    be32_bytes((e.path.len() + 73) as u32) + spec_entry_body(e)
}

/// The body length grows with the path only.
pub proof fn lemma_entry_body_len(e: EntryV)
    requires
        entry_wf(e),
    ensures
        spec_entry_body(e).len() == e.path.len() + 73,
        spec_entry_bytes(e).len() == e.path.len() + 77,
{
}

impl ArchiveIndexEntry {
    /// Whether this entry can be encoded.
    pub open spec fn wf(self) -> bool {
        entry_wf(self@)
    }

    /// An entry for `path` at `data_offset`, with defaulted metadata and a
    /// zero checksum.
    pub fn new(path: Vec<u8>, data_offset: u64, uncompressed_size: u64) -> (r: ArchiveIndexEntry)
        requires
            path@.len() + 73 <= u32::MAX,
        ensures
            r.wf(),
            r@ == (EntryV {
                path: path@,
                data_offset,
                uncompressed_size,
                compressed_size: 0,
                compression_algorithm: CompressionAlgorithm::Stored,
                modification_time: 0,
                uid: 0,
                gid: 0,
                permissions: 0o644,
                checksum: zeros(32),
            }),
    {
        let mut cs: Vec<u8> = Vec::new();
        push_zeros(&mut cs, 32);
        let r = ArchiveIndexEntry {
            path,
            data_offset,
            uncompressed_size,
            compressed_size: 0,
            compression_algorithm: CompressionAlgorithm::Stored,
            modification_time: 0,
            uid: 0,
            gid: 0,
            permissions: 0o644,
            checksum: cs,
        };
        proof {
            assert(r.checksum@ =~= zeros(32));
        }
        r
    }

    /// Append the length-prefixed encoding of this entry to `buf`.
    pub fn write_to(&self, buf: &mut Vec<u8>)
        requires
            self.wf(),
        ensures
            final(buf)@ == old(buf)@ + spec_entry_bytes(self@),
    {
        let entry_len: u32 = (self.path.len() as u32) + 73;
        push_be32(buf, entry_len);
        push_be32(buf, self.path.len() as u32);
        crate::bytes::extend_range(buf, &self.path, 0, self.path.len());
        push_be64(buf, self.data_offset);
        push_be64(buf, self.uncompressed_size);
        push_be64(buf, self.compressed_size);
        let ab = self.compression_algorithm.as_byte();
        buf.push(ab);
        push_be64(buf, self.modification_time);
        buf.push(self.uid);
        buf.push(self.gid);
        push_be16(buf, self.permissions);
        crate::bytes::extend_range(buf, &self.checksum, 0, self.checksum.len());
        proof {
            assert(self.path@.subrange(0, self.path@.len() as int) =~= self.path@);
            assert(self.checksum@.subrange(0, self.checksum@.len() as int) =~= self.checksum@);
            assert(buf@ =~= old(buf)@ + spec_entry_bytes(self@));
        }
    }
}

/// Mathematical model of the end record.
pub struct EndV {
    pub index_offset: u64,
    pub index_length: u64,
    pub archive_checksum: Seq<u8>,
}

/// End record: fixed 64 bytes at the end of the archive, duplicating the
/// index location and the whole-archive digest for fast validation.
pub struct ArchiveEndRecord {
    pub index_offset: u64,
    pub index_length: u64,
    /// 32-byte whole-archive digest, zero until backpatched.
    pub archive_checksum: Vec<u8>,
}

impl View for ArchiveEndRecord {
    type V = EndV;

    open spec fn view(&self) -> EndV {
        EndV {
            index_offset: self.index_offset,
            index_length: self.index_length,
            archive_checksum: self.archive_checksum@,
        }
    }
}

/// The exact 64 bytes that encode `e`.
pub open spec fn spec_end_bytes(e: EndV) -> Seq<u8> {
    end_magic() + be64_bytes(e.index_offset) + be64_bytes(e.index_length) + e.archive_checksum
        + seq![0u8] + zeros(11)
}

impl ArchiveEndRecord {
    /// Whether the checksum field has the size the layout requires.
    pub open spec fn wf(self) -> bool {
        self.archive_checksum@.len() == 32
    }

    /// An end record with the given index location and a zero checksum.
    pub fn new(index_offset: u64, index_length: u64) -> (r: ArchiveEndRecord)
        ensures
            r.wf(),
            r@ == (EndV { index_offset, index_length, archive_checksum: zeros(32) }),
    {
        let mut cs: Vec<u8> = Vec::new();
        push_zeros(&mut cs, 32);
        let r = ArchiveEndRecord { index_offset, index_length, archive_checksum: cs };
        proof {
            assert(r.archive_checksum@ =~= zeros(32));
        }
        r
    }

    /// Append the 64-byte encoding of this end record to `buf`.
    pub fn write_to(&self, buf: &mut Vec<u8>)
        requires
            self.wf(),
        ensures
            final(buf)@ == old(buf)@ + spec_end_bytes(self@),
            final(buf)@.len() == old(buf)@.len() + END_RECORD_SIZE,
    {
        buf.push(0x44u8);
        buf.push(0x45u8);
        buf.push(0x4eu8);
        buf.push(0x44u8);
        push_be64(buf, self.index_offset);
        push_be64(buf, self.index_length);
        crate::bytes::extend_range(buf, &self.archive_checksum, 0, self.archive_checksum.len());
        buf.push(0u8);
        push_zeros(buf, 11);
        proof {
            assert(self.archive_checksum@.subrange(0, self.archive_checksum@.len() as int)
                =~= self.archive_checksum@);
            assert(buf@ =~= old(buf)@ + spec_end_bytes(self@));
        }
    }
}

/// Writing a checksum into a header changes exactly its checksum field.
pub proof fn lemma_header_bytes_checksum_patch(h0: HeaderV, h1: HeaderV)
    requires
        h0.archive_checksum.len() == 32,
        h1.archive_checksum.len() == 32,
        h1.data_section_start == h0.data_section_start,
        h1.index_section_start == h0.index_section_start,
        h1.total_files == h0.total_files,
        h1.created_timestamp == h0.created_timestamp,
    ensures
        spec_header_bytes(h1) =~= spec_header_bytes(h0).subrange(0, 36) + h1.archive_checksum
            + spec_header_bytes(h0).subrange(68, 512),
{
    lemma_header_bytes_len(h0);
    lemma_header_bytes_len(h1);
}

/// Writing a checksum into an end record changes exactly its checksum field.
pub proof fn lemma_end_bytes_checksum_patch(e0: EndV, e1: EndV)
    requires
        e0.archive_checksum.len() == 32,
        e1.archive_checksum.len() == 32,
        e1.index_offset == e0.index_offset,
        e1.index_length == e0.index_length,
    ensures
        spec_end_bytes(e1) =~= spec_end_bytes(e0).subrange(0, 20) + e1.archive_checksum
            + spec_end_bytes(e0).subrange(52, 64),
{
    lemma_end_bytes_len(e0);
    lemma_end_bytes_len(e1);
}

/// The encoded header is exactly `HEADER_SIZE` bytes.
pub proof fn lemma_header_bytes_len(h: HeaderV)
    requires
        h.archive_checksum.len() == 32,
    ensures
        spec_header_bytes(h).len() == 512,
{
}

/// The encoded end record is exactly `END_RECORD_SIZE` bytes.
pub proof fn lemma_end_bytes_len(e: EndV)
    requires
        e.archive_checksum.len() == 32,
    ensures
        spec_end_bytes(e).len() == 64,
{
}

} // verus!
