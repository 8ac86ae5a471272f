use dar::digest::calculate_archive_checksum;
use dar::models::{ArchiveEndRecord, ArchiveHeader, ArchiveIndexEntry, CompressionAlgorithm};
use dar::paths::get_compression_algorithm;
use dar::reader::{extract_entries, read_end_record, read_header, validate_index};
use dar::writer::{create_archive, InputFile};

fn input(path: &[u8], data: &[u8], algorithm: CompressionAlgorithm) -> InputFile {
    InputFile {
        path: path.to_vec(),
        data: data.to_vec(),
        algorithm,
        modification_time: 1_700_000_000,
        uid: 7,
        gid: 3,
        permissions: 0o644,
    }
}

#[test]
fn round_trip_reproduces_content_and_paths() {
    let files = vec![
        input(b"docs/readme.md", b"hello archive world", CompressionAlgorithm::Lzma),
        input(b"bin/data.bin", &[0u8, 1, 2, 3, 255, 254, 0, 7], CompressionAlgorithm::Zstandard),
        input(b"web/page.html", b"<html><body>hi</body></html>", CompressionAlgorithm::Brotli),
        input(b"img/raw.png", &[137, 80, 78, 71, 13, 10, 26, 10], CompressionAlgorithm::Stored),
    ];
    let bytes = create_archive(&files, 1_700_000_000).unwrap();
    let out = extract_entries(&bytes).unwrap();
    assert_eq!(out.len(), files.len());
    for (got, want) in out.iter().zip(files.iter()) {
        assert_eq!(got.path, want.path);
        assert_eq!(got.data, want.data);
    }
}

#[test]
fn round_trip_keeps_metadata_in_the_index() {
    let files = vec![input(b"a.txt", b"0123456789", CompressionAlgorithm::Lzma)];
    let bytes = create_archive(&files, 42).unwrap();
    let header = read_header(&bytes).unwrap();
    assert_eq!(header.created_timestamp, 42);
    assert_eq!(header.total_files, 1);
    assert_eq!(header.data_section_start, 512);
    let (count, entries) = validate_index(&bytes, &header).unwrap();
    assert_eq!(count, 1);
    let e = &entries[0];
    assert_eq!(e.path, b"a.txt".to_vec());
    assert_eq!(e.uncompressed_size, 10);
    assert_eq!(e.modification_time, 1_700_000_000);
    assert_eq!(e.uid, 7);
    assert_eq!(e.gid, 3);
    assert_eq!(e.permissions, 0o644);
    assert_eq!(e.compression_algorithm, CompressionAlgorithm::Lzma);
}

#[test]
fn checksum_recomputed_from_fresh_bytes_matches_the_stored_one() {
    let files = vec![input(b"x.dat", &[5u8; 300], CompressionAlgorithm::Zstandard)];
    let bytes = create_archive(&files, 1).unwrap();
    // The same bytes written out and read back give the same digest, and it
    // equals both stored copies.
    let reread = bytes.clone();
    let d1 = calculate_archive_checksum(&bytes);
    let d2 = calculate_archive_checksum(&reread);
    assert_eq!(d1, d2);
    let header = read_header(&bytes).unwrap();
    assert_eq!(header.archive_checksum, d1);
    let end = read_end_record(&bytes).unwrap();
    assert_eq!(end.archive_checksum, d1);
}

#[test]
fn empty_input_set_yields_an_empty_archive() {
    let bytes = create_archive(&Vec::new(), 77).unwrap();
    assert_eq!(bytes.len(), 512 + 4 + 64);
    let header = read_header(&bytes).unwrap();
    assert_eq!(header.total_files, 0);
    let (count, entries) = validate_index(&bytes, &header).unwrap();
    assert_eq!(count, 0);
    assert_eq!(entries.len(), 0);
    assert_eq!(extract_entries(&bytes).unwrap().len(), 0);
}

#[test]
fn listing_scenario_chooses_algorithms_by_extension() {
    // A text file and an already-compressed image: the text file gets a
    // real codec, the image is stored verbatim byte for byte.
    let x_alg = get_compression_algorithm(&b"x.txt".to_vec());
    let y_alg = get_compression_algorithm(&b"y.png".to_vec());
    assert_ne!(x_alg, CompressionAlgorithm::Stored);
    assert_eq!(x_alg, CompressionAlgorithm::Lzma);
    assert_eq!(y_alg, CompressionAlgorithm::Stored);
    let files = vec![
        input(b"x.txt", b"0123456789", x_alg),
        input(b"y.png", &[42u8; 100], y_alg),
    ];
    let bytes = create_archive(&files, 9).unwrap();
    let header = read_header(&bytes).unwrap();
    let (_, entries) = validate_index(&bytes, &header).unwrap();
    assert_eq!(entries[0].path, b"x.txt".to_vec());
    assert_ne!(entries[0].compression_algorithm, CompressionAlgorithm::Stored);
    assert_eq!(entries[0].uncompressed_size, 10);
    assert_eq!(entries[1].path, b"y.png".to_vec());
    assert_eq!(entries[1].compression_algorithm, CompressionAlgorithm::Stored);
    assert_eq!(entries[1].uncompressed_size, 100);
    assert_eq!(entries[1].compressed_size, 100);
}

#[test]
fn extracted_lengths_match_the_index_sizes() {
    let files = vec![
        input(b"a.bin", &[1u8; 123], CompressionAlgorithm::Zstandard),
        input(b"b.bin", &[], CompressionAlgorithm::Stored),
    ];
    let bytes = create_archive(&files, 5).unwrap();
    let header = read_header(&bytes).unwrap();
    let (_, entries) = validate_index(&bytes, &header).unwrap();
    let out = extract_entries(&bytes).unwrap();
    for (got, e) in out.iter().zip(entries.iter()) {
        assert_eq!(got.data.len() as u64, e.uncompressed_size);
    }
}

#[test]
fn size_mismatch_is_rejected_not_truncated() {
    // Build an archive whose index claims 7 bytes for a 5-byte stored
    // block, bypassing the writer; extraction must fail, never pad or
    // truncate, and the error must name the failing entry.
    let bytes = build_archive_with_entry(b"f.bin", &[9, 9, 9, 9, 9], 7);
    match extract_entries(&bytes) {
        Err(dar::reader::ExtractError::Entry { path, algorithm, error }) => {
            assert_eq!(path, b"f.bin".to_vec());
            assert_eq!(algorithm, CompressionAlgorithm::Stored);
            assert_eq!(error, dar::errors::ArchiveError::Integrity);
        }
        other => panic!("expected an entry-level integrity error, got {:?}", other),
    }
}

#[test]
fn evil_path_is_confined_on_extraction() {
    // An entry path engineered to climb out of the extraction root,
    // written directly into the container, bypassing the writer's own
    // sanitization: the extracted path must stay relative.
    let bytes = build_archive_with_entry(b"../../evil.txt", &[1, 2, 3], 3);
    let out = extract_entries(&bytes).unwrap();
    assert_eq!(out.len(), 1);
    assert_eq!(out[0].path, b"evil.txt".to_vec());
    assert_eq!(out[0].data, vec![1, 2, 3]);
}

/// Assemble a one-entry archive by hand, with a stored (uncompressed) data
/// block and a chosen claimed uncompressed size.
fn build_archive_with_entry(path: &[u8], data: &[u8], claimed_size: u64) -> Vec<u8> {
    let mut data_sec: Vec<u8> = Vec::new();
    let mut entry: ArchiveIndexEntry =
        dar::writer::add_file(&data.to_vec(), CompressionAlgorithm::Stored, &mut data_sec)
            .unwrap();
    entry.path = path.to_vec();
    entry.data_offset = 0;
    entry.uncompressed_size = claimed_size;
    let index_start = (512 + data_sec.len()) as u64;
    let header = ArchiveHeader::new(512, index_start, 1, 1234);
    let mut buf: Vec<u8> = Vec::new();
    header.write_to(&mut buf);
    buf.extend_from_slice(&data_sec);
    dar::bytes::push_be32(&mut buf, 1);
    entry.write_to(&mut buf);
    let index_len = buf.len() as u64 - index_start;
    let end = ArchiveEndRecord::new(index_start, index_len);
    end.write_to(&mut buf);
    let d = calculate_archive_checksum(&buf);
    dar::bytes::overwrite32(&mut buf, 36, &d);
    let end_base = buf.len() - 64;
    dar::bytes::overwrite32(&mut buf, end_base + 20, &d);
    buf
}

#[test]
fn out_of_bounds_offset_is_a_bounds_error() {
    let files = vec![input(b"a.bin", &[1u8; 20], CompressionAlgorithm::Stored)];
    let bytes = create_archive(&files, 3).unwrap();
    let header = read_header(&bytes).unwrap();
    let (_, mut entries) = validate_index(&bytes, &header).unwrap();
    entries[0].data_offset = u64::MAX / 2;
    assert_eq!(
        dar::reader::extract_entry(&bytes, header.data_section_start, &entries[0]),
        Err(dar::errors::ArchiveError::Bounds)
    );
}

#[test]
fn length_prefix_cross_check_is_an_integrity_error() {
    let files = vec![input(b"a.bin", &[1u8; 20], CompressionAlgorithm::Stored)];
    let bytes = create_archive(&files, 3).unwrap();
    let header = read_header(&bytes).unwrap();
    let (_, mut entries) = validate_index(&bytes, &header).unwrap();
    // The stored prefix says 20; claim 21 in the index.
    entries[0].compressed_size = 21;
    assert_eq!(
        dar::reader::extract_entry(&bytes, header.data_section_start, &entries[0]),
        Err(dar::errors::ArchiveError::Integrity)
    );
}

#[test]
fn truncated_index_aborts_the_whole_parse() {
    let files = vec![
        input(b"a.bin", &[1u8; 10], CompressionAlgorithm::Stored),
        input(b"b.bin", &[2u8; 10], CompressionAlgorithm::Stored),
    ];
    let bytes = create_archive(&files, 3).unwrap();
    let header = read_header(&bytes).unwrap();
    // Drop the tail of the archive so the second entry's record is short.
    let truncated: Vec<u8> = bytes[..bytes.len() - 80].to_vec();
    assert!(validate_index(&truncated, &header).is_err());
}
