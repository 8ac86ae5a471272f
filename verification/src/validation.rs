//! The validation engine: escalating integrity checks over untrusted
//! archive bytes, each recorded pass/fail rather than failing fast, with
//! dependent checks skipped once a prerequisite structure failed to parse.
use vstd::prelude::*;

use crate::bytes::bytes_eq;
use crate::digest::{checksum_input, digest_of};
use crate::errors::ArchiveError;
use crate::models::{ArchiveHeader, ArchiveIndexEntry, EntryV};
use crate::numfmt::{dec_digits, u64_to_string};
use crate::reader::{
    entry_views, read_end_record, read_header, spec_extract_entry, spec_parse_end,
    spec_parse_header, spec_parse_index, validate_index, extract_entry,
};

verus! {

/// How deep a validation run goes.
#[derive(Clone, Copy, Debug, PartialEq, Eq, Structural)]
pub enum ValidationLevel {
    /// Quick check: header, end record, offsets, whole-archive checksum.
    Basic,
    /// Everything in Basic, plus the complete index parses and every entry
    /// offset lies in bounds.
    Full,
    /// Everything in Full, plus every entry decompresses to bytes of the
    /// recorded size and digest — the only level touching every data byte.
    Slow,
}

/// A counter bumped without ever wrapping.
pub open spec fn bump(c: u32) -> u32 {
    if c < u32::MAX {
        (c + 1) as u32
    } else {
        c
    }
}

/// The recorded message of a failed check.
pub open spec fn check_msg(name: Seq<char>, msg: Seq<char>) -> Seq<char> {
    name + ": "@ + msg
}

/// The verbose report line of a passed check.
pub open spec fn ok_line(name: Seq<char>) -> Seq<char> {
    "  ok "@ + name
}

/// The verbose report line of a failed check.
pub open spec fn fail_line(name: Seq<char>, msg: Seq<char>) -> Seq<char> {
    "  FAIL "@ + check_msg(name, msg)
}

/// The summary line of a validation run.
pub open spec fn spec_summary(passed: u32, failed: u32) -> Seq<char> {
    dec_digits(passed as nat) + " passed, "@ + dec_digits(failed as nat) + " failed"@
}

/// Tracks the outcome of every check of one validation run, and buffers the
/// lines the run wants shown; the caller decides where the lines go.
pub struct ValidationContext {
    pub verbose: bool,
    pub file_size: u64,
    pub checks_passed: u32,
    pub checks_failed: u32,
    pub errors: Vec<String>,
    pub output: Vec<String>,
}

impl ValidationContext {
    /// A fresh context with no checks recorded.
    pub fn new(file_size: u64, verbose: bool) -> (r: ValidationContext)
        ensures
            r.verbose == verbose,
            r.file_size == file_size,
            r.checks_passed == 0,
            r.checks_failed == 0,
            r.errors@.len() == 0,
            r.output@.len() == 0,
    {
        ValidationContext {
            verbose,
            file_size,
            checks_passed: 0,
            checks_failed: 0,
            errors: Vec::new(),
            output: Vec::new(),
        }
    }

    /// Record one check: count it, remember its message if it failed, and
    /// buffer a line for it when verbose.
    pub fn check(&mut self, name: &str, result: Result<(), String>)
        ensures
            final(self).verbose == old(self).verbose,
            final(self).file_size == old(self).file_size,
            result is Ok ==> final(self).checks_passed == bump(old(self).checks_passed),
            result is Ok ==> final(self).checks_failed == old(self).checks_failed,
            result is Ok ==> final(self).errors@ == old(self).errors@,
            result is Err ==> final(self).checks_failed == bump(old(self).checks_failed),
            result is Err ==> final(self).checks_passed == old(self).checks_passed,
            result is Err ==> final(self).errors.deep_view() == old(self).errors.deep_view().push(
                check_msg(name@, result->Err_0@),
            ),
            result is Err ==> final(self).errors@.len() == old(self).errors@.len() + 1,
            result is Ok ==> final(self).output.deep_view() == old(self).output.deep_view() + (
            if old(self).verbose {
                seq![ok_line(name@)]
            } else {
                Seq::<Seq<char>>::empty()
            }),
            result is Err ==> final(self).output.deep_view() == old(self).output.deep_view() + (
            if old(self).verbose {
                seq![fail_line(name@, result->Err_0@)]
            } else {
                Seq::<Seq<char>>::empty()
            }),
    {
        match result {
            Ok(()) => {
                if self.checks_passed < u32::MAX {
                    self.checks_passed = self.checks_passed + 1;
                }
                if self.verbose {
                    let mut line = String::from_str("  ok ");
                    line.append(name);
                    self.output.push(line);
                    proof {
                        assert(self.output.deep_view() =~~= old(self).output.deep_view() + seq![
                            ok_line(name@),
                        ]);
                    }
                } else {
                    proof {
                        assert(self.output.deep_view() =~~= old(self).output.deep_view()
                            + Seq::<Seq<char>>::empty());
                    }
                }
            },
            Err(e) => {
                if self.checks_failed < u32::MAX {
                    self.checks_failed = self.checks_failed + 1;
                }
                let mut msg = String::from_str(name);
                msg.append(": ");
                msg.append(e.as_str());
                proof {
                    reveal_strlit(": ");
                    assert(msg@ =~= check_msg(name@, e@));
                }
                if self.verbose {
                    let mut line = String::from_str("  FAIL ");
                    line.append(msg.as_str());
                    self.output.push(line);
                    proof {
                        assert(self.output.deep_view() =~~= old(self).output.deep_view() + seq![
                            fail_line(name@, e@),
                        ]);
                    }
                } else {
                    proof {
                        assert(self.output.deep_view() =~~= old(self).output.deep_view()
                            + Seq::<Seq<char>>::empty());
                    }
                }
                self.errors.push(msg);
                proof {
                    assert(self.errors.deep_view() =~~= old(self).errors.deep_view().push(
                        check_msg(name@, e@),
                    ));
                }
            },
        }
    }

    /// The `passed, failed` totals as one line.
    pub fn summary(&self) -> (r: String)
        ensures
            r@ == spec_summary(self.checks_passed, self.checks_failed),
    {
        let mut s = u64_to_string(self.checks_passed as u64);
        s.append(" passed, ");
        s.append(u64_to_string(self.checks_failed as u64).as_str());
        s.append(" failed");
        proof {
            reveal_strlit(" passed, ");
            reveal_strlit(" failed");
            assert(s@ =~= spec_summary(self.checks_passed, self.checks_failed));
        }
        s
    }

    /// True exactly when every recorded outcome so far was a pass.
    pub fn is_valid(&self) -> (r: bool)
        ensures
            r == (self.checks_failed == 0),
    {
        self.checks_failed == 0
    }

    /// Buffer one line of report output.
    pub fn writeln(&mut self, line: &str)
        ensures
            final(self).output.deep_view() == old(self).output.deep_view().push(line@),
            final(self).verbose == old(self).verbose,
            final(self).file_size == old(self).file_size,
            final(self).checks_passed == old(self).checks_passed,
            final(self).checks_failed == old(self).checks_failed,
            final(self).errors@ == old(self).errors@,
    {
        self.output.push(String::from_str(line));
        proof {
            assert(self.output.deep_view() =~~= old(self).output.deep_view().push(line@));
        }
    }
}

/// What Basic validation requires of the bytes: both fixed structures
/// present and parsing, section offsets inside the file, the header and end
/// record naming the same index offset, and both stored digests equal to
/// the recomputed whole-archive digest.
pub open spec fn spec_basic_ok(b: Seq<u8>) -> bool {
    &&& b.len() >= 512
    &&& b.len() >= 64
    &&& spec_parse_header(b) is Some
    &&& spec_parse_end(b) is Some
    &&& (spec_parse_header(b).unwrap().data_section_start as int) < b.len()
    &&& (spec_parse_header(b).unwrap().index_section_start as int) < b.len()
    &&& spec_parse_header(b).unwrap().index_section_start == spec_parse_end(b).unwrap().index_offset
    &&& b.len() >= 576
    &&& spec_parse_header(b).unwrap().archive_checksum == digest_of(checksum_input(b))
    &&& spec_parse_end(b).unwrap().archive_checksum == digest_of(checksum_input(b))
}

/// What Full validation adds: the whole index parses and every entry's data
/// offset lies inside the file.
pub open spec fn spec_full_ok(b: Seq<u8>) -> bool {
    &&& spec_basic_ok(b)
    &&& spec_parse_index(b, spec_parse_header(b).unwrap()) is Some
    &&& forall|j: int|
        0 <= j < spec_parse_index(b, spec_parse_header(b).unwrap()).unwrap().1.len() ==> ((
        #[trigger] spec_parse_index(b, spec_parse_header(b).unwrap()).unwrap().1[j]).data_offset
            as int) < b.len()
}

/// One entry's Slow check: its data block extracts cleanly and the digest
/// of the decompressed bytes equals the entry's stored checksum.
pub open spec fn entry_slow_ok(b: Seq<u8>, ds: int, e: EntryV) -> bool {
    &&& spec_extract_entry(b, ds, e) is Ok
    &&& digest_of(spec_extract_entry(b, ds, e)->Ok_0) == e.checksum
}

/// What Slow validation adds: every entry passes its per-entry check.
pub open spec fn spec_slow_ok(b: Seq<u8>) -> bool {
    &&& spec_full_ok(b)
    &&& forall|j: int|
        0 <= j < spec_parse_index(b, spec_parse_header(b).unwrap()).unwrap().1.len()
            ==> entry_slow_ok(
            b,
            spec_parse_header(b).unwrap().data_section_start as int,
            #[trigger] spec_parse_index(b, spec_parse_header(b).unwrap()).unwrap().1[j],
        )
}

/// The requirement the chosen level stands for.
pub open spec fn spec_level_ok(b: Seq<u8>, level: ValidationLevel) -> bool {
    match level {
        ValidationLevel::Basic => spec_basic_ok(b),
        ValidationLevel::Full => spec_full_ok(b),
        ValidationLevel::Slow => spec_slow_ok(b),
    }
}

/// Per-entry isolation: an entry's Slow verdict depends only on its own
/// length-prefixed data block, so corrupting one entry's compressed bytes
/// cannot change any sibling entry's check.
pub proof fn lemma_entry_check_isolated(b1: Seq<u8>, b2: Seq<u8>, ds: int, e: EntryV)
    requires
        0 <= ds,
        b1.len() == b2.len(),
        forall|k: int|
            0 <= k < b1.len() && ds + e.data_offset <= k < ds + e.data_offset + 8
                + e.compressed_size ==> b1[k] == b2[k],
    ensures
        entry_slow_ok(b1, ds, e) == entry_slow_ok(b2, ds, e),
{
    let p = ds + e.data_offset;
    if p + 8 <= b1.len() {
        assert(b1.subrange(p, p + 8) =~= b2.subrange(p, p + 8));
        if p + 8 + e.compressed_size <= b1.len() {
            assert(b1.subrange(p + 8, p + 8 + e.compressed_size) =~= b2.subrange(
                p + 8,
                p + 8 + e.compressed_size,
            ));
        }
    }
}

/// A fresh archive passes every validation level: what `create_archive`
/// promises implies the Basic, Full and Slow requirements, so in particular
/// an archive created from the empty input set passes Full validation.
pub proof fn lemma_created_archive_validates(
    fs: Seq<crate::writer::InputFileV>,
    ts: u64,
    out: Seq<u8>,
)
    requires
        crate::writer::created_archive_ok(fs, ts, out),
    ensures
        spec_basic_ok(out),
        spec_full_ok(out),
        spec_slow_ok(out),
{
    let h = spec_parse_header(out).unwrap();
    let es = spec_parse_index(out, h).unwrap().1;
    assert(spec_basic_ok(out));
    assert forall|j: int| 0 <= j < es.len() implies ((#[trigger] es[j]).data_offset as int)
        < out.len() by {
        assert(crate::writer::entry_matches_input(out, es[j], fs[j]));
        assert(spec_extract_entry(out, 512, es[j]) is Ok);
    }
    assert(spec_full_ok(out));
    assert forall|j: int| 0 <= j < es.len() implies entry_slow_ok(
        out,
        h.data_section_start as int,
        #[trigger] es[j],
    ) by {
        assert(crate::writer::entry_matches_input(out, es[j], fs[j]));
        assert(spec_extract_entry(out, 512, es[j]) == Result::<Seq<u8>, ArchiveError>::Ok(
            fs[j].data,
        ));
        assert(es[j].checksum == digest_of(fs[j].data));
    }
    assert(spec_slow_ok(out));
}

/// Check a minimum byte count.
pub fn check_min_size(bytes: &Vec<u8>, min_size: u64) -> (r: Result<(), String>)
    ensures
        r is Ok <==> bytes@.len() >= min_size,
{
    if bytes.len() as u64 >= min_size {
        Ok(())
    } else {
        Err(String::from_str("file too small"))
    }
}

/// Magic bytes are checked while decoding the header and end record; the
/// standalone check never fails.
pub fn check_magic() -> (r: Result<(), String>)
    ensures
        r is Ok,
{
    Ok(())
}

/// Check that an offset lies inside the file.
pub fn check_offset(offset: u64, file_size: u64) -> (r: Result<(), String>)
    ensures
        r is Ok <==> offset < file_size,
{
    if offset < file_size {
        Ok(())
    } else {
        Err(String::from_str("offset exceeds file size"))
    }
}

/// Run one entry's Slow check: extract its data block and compare the
/// digest of the decompressed bytes against the stored checksum.
pub fn verify_entry_data(bytes: &Vec<u8>, header: &ArchiveHeader, entry: &ArchiveIndexEntry) -> (r:
    Result<(), ArchiveError>)
    ensures
        r is Ok <==> entry_slow_ok(bytes@, header.data_section_start as int, entry@),
{
    match extract_entry(bytes, header.data_section_start, entry) {
        Ok(plain) => {
            let dg = crate::digest::blake3_digest(&plain);
            if bytes_eq(&dg, &entry.checksum) {
                Ok(())
            } else {
                Err(ArchiveError::Integrity)
            }
        },
        Err(er) => Err(er),
    }
}

/// Run the escalating integrity checks of `level` over `bytes`, recording
/// every outcome. The verdict is exact: no check fails if and only if the
/// bytes meet everything the level stands for.
pub fn validate_archive(bytes: &Vec<u8>, level: ValidationLevel, verbose: bool) -> (ctx:
    ValidationContext)
    ensures
        ctx.checks_failed == 0 <==> spec_level_ok(bytes@, level),
        ctx.checks_failed == 0 <==> ctx.errors@.len() == 0,
        ctx.checks_failed < u32::MAX ==> ctx.errors@.len() == ctx.checks_failed as int,
        ctx.file_size == bytes@.len(),
{
    let file_size = bytes.len() as u64;
    let mut ctx = ValidationContext::new(file_size, verbose);
    ctx.writeln("Basic Checks:");
    ctx.check("Header present (>=512 bytes)", check_min_size(bytes, 512));
    ctx.check("End record present (>=64 bytes)", check_min_size(bytes, 64));
    let header_res = read_header(bytes);
    match &header_res {
        Ok(_) => ctx.check("Header readable", Ok(())),
        Err(e) => ctx.check("Header readable", Err(String::from_str(e.message()))),
    }
    let end_res = read_end_record(bytes);
    match &end_res {
        Ok(_) => ctx.check("End record readable", Ok(())),
        Err(e) => ctx.check("End record readable", Err(String::from_str(e.message()))),
    }
    if let (Ok(h), Ok(e)) = (&header_res, &end_res) {
        ctx.check("Header magic valid", check_magic());
        ctx.check("End record magic valid", check_magic());
        ctx.check("Data section offset valid", check_offset(h.data_section_start, file_size));
        ctx.check("Index section offset valid", check_offset(h.index_section_start, file_size));
        if h.index_section_start == e.index_offset {
            ctx.check("Index offsets match (header vs end record)", Ok(()));
        } else {
            ctx.check(
                "Index offsets match (header vs end record)",
                Err(String::from_str("header and end record disagree")),
            );
        }
        ctx.writeln("Checksum Verification:");
        if bytes.len() >= 576 {
            let calculated = crate::digest::calculate_archive_checksum(bytes);
            if bytes_eq(&h.archive_checksum, &calculated) {
                ctx.check("Archive checksum (header)", Ok(()));
            } else {
                ctx.check("Archive checksum (header)", Err(String::from_str("checksum mismatch")));
            }
            if bytes_eq(&e.archive_checksum, &calculated) {
                ctx.check("Archive checksum (end record)", Ok(()));
            } else {
                ctx.check(
                    "Archive checksum (end record)",
                    Err(String::from_str("checksum mismatch")),
                );
            }
        } else {
            ctx.check(
                "Archive checksum calculation",
                Err(String::from_str("file too small for checksum regions")),
            );
        }
    }
    proof {
        assert(ctx.checks_failed == 0 <==> spec_basic_ok(bytes@));
    }
    if matches!(level, ValidationLevel::Full | ValidationLevel::Slow) {
        ctx.writeln("Index Validation:");
        if let Ok(h) = &header_res {
            match validate_index(bytes, h) {
                Ok((_count, entries)) => {
                    ctx.check("Index readable", Ok(()));
                    let ghost es = entry_views(entries@);
                    let mut i: usize = 0;
                    while i < entries.len()
                        invariant
                            i <= entries.len(),
                            bytes@.len() == file_size,
                            ctx.file_size == file_size,
                            ctx.checks_failed == 0 <==> ctx.errors@.len() == 0,
                            ctx.checks_failed < u32::MAX ==> ctx.errors@.len()
                                == ctx.checks_failed as int,
                            es == entry_views(entries@),
                            ctx.checks_failed == 0 <==> (spec_basic_ok(bytes@) && spec_parse_index(
                                bytes@,
                                spec_parse_header(bytes@).unwrap(),
                            ) is Some && (forall|j: int|
                                0 <= j < i ==> ((#[trigger] es[j]).data_offset as int)
                                    < bytes@.len())),
                            spec_parse_header(bytes@) == Option::Some(h@),
                            spec_parse_index(bytes@, h@) == Option::Some(
                                (_count, entry_views(entries@)),
                            ),
                        decreases entries.len() - i,
                    {
                        proof {
                            assert(es[i as int] == entries@[i as int]@);
                        }
                        let mut name = String::from_str("Entry ");
                        name.append(u64_to_string(i as u64 + 1).as_str());
                        name.append(" offset valid");
                        ctx.check(
                            name.as_str(),
                            check_offset(entries[i].data_offset, file_size),
                        );
                        i = i + 1;
                    }
                    proof {
                        assert(ctx.checks_failed == 0 <==> spec_full_ok(bytes@));
                    }
                },
                Err(er) => {
                    ctx.check("Index readable", Err(String::from_str(er.message())));
                    proof {
                        assert(!spec_full_ok(bytes@));
                    }
                },
            }
        }
    }
    proof {
        if matches!(level, ValidationLevel::Full | ValidationLevel::Slow) {
            assert(ctx.checks_failed == 0 <==> spec_full_ok(bytes@));
        }
    }
    if matches!(level, ValidationLevel::Slow) {
        ctx.writeln("Entry Checksum Verification (Slow Mode):");
        if let Ok(h) = &header_res {
            match validate_index(bytes, h) {
                Ok((_count, entries)) => {
                    let ghost es = entry_views(entries@);
                    let mut i: usize = 0;
                    while i < entries.len()
                        invariant
                            i <= entries.len(),
                            bytes@.len() == file_size,
                            ctx.file_size == file_size,
                            ctx.checks_failed == 0 <==> ctx.errors@.len() == 0,
                            ctx.checks_failed < u32::MAX ==> ctx.errors@.len()
                                == ctx.checks_failed as int,
                            es == entry_views(entries@),
                            ctx.checks_failed == 0 <==> (spec_full_ok(bytes@) && (forall|j: int|
                                0 <= j < i ==> entry_slow_ok(
                                    bytes@,
                                    spec_parse_header(bytes@).unwrap().data_section_start as int,
                                    #[trigger] es[j],
                                ))),
                            spec_parse_header(bytes@) == Option::Some(h@),
                            spec_parse_index(bytes@, h@) == Option::Some(
                                (_count, entry_views(entries@)),
                            ),
                        decreases entries.len() - i,
                    {
                        proof {
                            assert(es[i as int] == entries@[i as int]@);
                            assert(spec_parse_header(bytes@).unwrap() == h@);
                        }
                        let mut name = String::from_str("Entry ");
                        name.append(u64_to_string(i as u64 + 1).as_str());
                        name.append(" checksum");
                        match verify_entry_data(bytes, h, &entries[i]) {
                            Ok(()) => {
                                ctx.check(name.as_str(), Ok(()));
                            },
                            Err(er) => {
                                ctx.check(name.as_str(), Err(String::from_str(er.message())));
                            },
                        }
                        i = i + 1;
                    }
                },
                Err(_) => {
                    // Index unreadable was already recorded by the Full
                    // stage; entry checks are skipped, not attempted.
                },
            }
        }
    }
    ctx
}

} // verus!
