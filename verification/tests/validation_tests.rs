use dar::models::CompressionAlgorithm;
use dar::numfmt::{humanize_time, u64_to_string};
use dar::validation::{validate_archive, ValidationContext, ValidationLevel};
use dar::writer::{create_archive, InputFile};

fn input(path: &[u8], data: &[u8], algorithm: CompressionAlgorithm) -> InputFile {
    InputFile {
        path: path.to_vec(),
        data: data.to_vec(),
        algorithm,
        modification_time: 1_600_000_000,
        uid: 0,
        gid: 0,
        permissions: 0o644,
    }
}

#[test]
fn fresh_archive_passes_every_level() {
    let files = vec![
        input(b"one.txt", b"first file body", CompressionAlgorithm::Lzma),
        input(b"two.bin", &[3u8; 64], CompressionAlgorithm::Zstandard),
    ];
    let bytes = create_archive(&files, 10).unwrap();
    for level in [ValidationLevel::Basic, ValidationLevel::Full, ValidationLevel::Slow] {
        let ctx = validate_archive(&bytes, level, false);
        assert!(ctx.is_valid(), "level {:?}: {:?}", level, ctx.errors);
    }
}

#[test]
fn empty_archive_passes_full_validation() {
    let bytes = create_archive(&Vec::new(), 0).unwrap();
    let ctx = validate_archive(&bytes, ValidationLevel::Full, false);
    assert!(ctx.is_valid(), "{:?}", ctx.errors);
    assert_eq!(ctx.errors.len(), 0);
}

#[test]
fn flipping_a_data_byte_fails_the_archive_checksum() {
    let files = vec![input(b"f.bin", &[7u8; 200], CompressionAlgorithm::Stored)];
    let mut bytes = create_archive(&files, 1).unwrap();
    // First data-section byte, well clear of any padding.
    bytes[512] ^= 0x01;
    let ctx = validate_archive(&bytes, ValidationLevel::Basic, false);
    assert!(!ctx.is_valid());
    assert!(ctx.errors.iter().any(|e| e.contains("Archive checksum")));
}

#[test]
fn flipping_an_index_byte_fails_the_archive_checksum() {
    let files = vec![input(b"f.bin", &[7u8; 40], CompressionAlgorithm::Stored)];
    let header_bytes = create_archive(&files, 1).unwrap();
    let mut bytes = header_bytes.clone();
    // A byte of the stored path inside the index section.
    let index_start = 512 + 8 + 40;
    bytes[index_start + 4 + 4] ^= 0xff;
    let ctx = validate_archive(&bytes, ValidationLevel::Basic, false);
    assert!(!ctx.is_valid());
    assert!(ctx.errors.iter().any(|e| e.contains("Archive checksum")));
}

#[test]
fn corrupting_one_entry_fails_exactly_that_entry() {
    let files = vec![
        input(b"keep.bin", &[1u8; 50], CompressionAlgorithm::Stored),
        input(b"hurt.bin", &[2u8; 50], CompressionAlgorithm::Stored),
        input(b"also_keep.bin", &[3u8; 50], CompressionAlgorithm::Stored),
    ];
    let mut bytes = create_archive(&files, 1).unwrap();
    // Corrupt one byte of the second entry's stored block: blocks are
    // 8 + 50 bytes each, so its payload starts at 512 + 58 + 8.
    bytes[512 + 58 + 8 + 10] ^= 0x40;
    let ctx = validate_archive(&bytes, ValidationLevel::Slow, false);
    assert!(!ctx.is_valid());
    let entry_failures: Vec<&String> = ctx
        .errors
        .iter()
        .filter(|e| e.starts_with("Entry") && e.contains("checksum"))
        .collect();
    assert_eq!(entry_failures.len(), 1);
    assert!(entry_failures[0].starts_with("Entry 2 checksum"));
}

#[test]
fn truncated_bytes_fail_basic_validation() {
    let bytes: Vec<u8> = vec![0u8; 100];
    let ctx = validate_archive(&bytes, ValidationLevel::Basic, false);
    assert!(!ctx.is_valid());
    assert!(ctx.errors.iter().any(|e| e.contains("Header")));
}

#[test]
fn wrong_magic_fails_basic_validation() {
    let files = vec![input(b"a.bin", &[9u8; 30], CompressionAlgorithm::Stored)];
    let mut bytes = create_archive(&files, 1).unwrap();
    bytes[0] = b'X';
    let ctx = validate_archive(&bytes, ValidationLevel::Basic, false);
    assert!(!ctx.is_valid());
    assert!(ctx.errors.iter().any(|e| e.contains("Header readable")));
}

#[test]
fn context_counts_and_summarizes_checks() {
    let mut ctx = ValidationContext::new(1000, false);
    ctx.check("first", Ok(()));
    ctx.check("second", Err(String::from("went wrong")));
    assert!(!ctx.is_valid());
    assert_eq!(ctx.summary(), "1 passed, 1 failed");
    assert_eq!(ctx.errors.len(), 1);
    assert_eq!(ctx.errors[0], "second: went wrong");
}

#[test]
fn verbose_context_buffers_lines() {
    let mut ctx = ValidationContext::new(0, true);
    ctx.check("alpha", Ok(()));
    ctx.check("beta", Err(String::from("boom")));
    ctx.writeln("tail line");
    assert_eq!(ctx.output.len(), 3);
    assert_eq!(ctx.output[0], "  ok alpha");
    assert_eq!(ctx.output[1], "  FAIL beta: boom");
    assert_eq!(ctx.output[2], "tail line");
}

#[test]
fn decimal_rendering_is_exact() {
    assert_eq!(u64_to_string(0), "0");
    assert_eq!(u64_to_string(7), "7");
    assert_eq!(u64_to_string(105), "105");
    assert_eq!(u64_to_string(18_446_744_073_709_551_615), "18446744073709551615");
}

#[test]
fn timestamp_rendering_is_exact() {
    assert_eq!(humanize_time(0), "1970-01-01 00:00:00");
    // 2 days, 3 hours, 4 minutes, 5 seconds into the flat calendar.
    let secs = 2 * 86400 + 3 * 3600 + 4 * 60 + 5;
    assert_eq!(humanize_time(secs), "1970-01-03 03:04:05");
}
