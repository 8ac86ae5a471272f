use dar::bytes::{push_be16, push_be32, push_be64, read_be16, read_be32, read_be64};
use dar::compress::{compress_data, decompress_data};
use dar::errors::ArchiveError;
use dar::models::CompressionAlgorithm;

#[test]
fn be64_round_trip() {
    let mut buf: Vec<u8> = Vec::new();
    push_be64(&mut buf, 0x0102030405060708);
    assert_eq!(buf, vec![1, 2, 3, 4, 5, 6, 7, 8]);
    assert_eq!(read_be64(&buf, 0), 0x0102030405060708);
}

#[test]
fn be32_round_trip() {
    let mut buf: Vec<u8> = Vec::new();
    push_be32(&mut buf, 0xdeadbeef);
    assert_eq!(buf, vec![0xde, 0xad, 0xbe, 0xef]);
    assert_eq!(read_be32(&buf, 0), 0xdeadbeef);
}

#[test]
fn be16_round_trip() {
    let mut buf: Vec<u8> = Vec::new();
    push_be16(&mut buf, 0o644);
    assert_eq!(read_be16(&buf, 0), 0o644);
}

#[test]
fn algorithm_bytes_round_trip() {
    let algs = [
        CompressionAlgorithm::Stored,
        CompressionAlgorithm::Brotli,
        CompressionAlgorithm::Zstandard,
        CompressionAlgorithm::Lzma,
    ];
    for a in algs {
        let b = a.as_byte();
        assert_eq!(CompressionAlgorithm::from_byte(b).unwrap(), a);
    }
    assert_eq!(CompressionAlgorithm::Stored.as_byte(), 0);
    assert_eq!(CompressionAlgorithm::Brotli.as_byte(), 1);
    assert_eq!(CompressionAlgorithm::Zstandard.as_byte(), 2);
    assert_eq!(CompressionAlgorithm::Lzma.as_byte(), 3);
}

#[test]
fn unknown_algorithm_byte_is_format_error() {
    assert_eq!(CompressionAlgorithm::from_byte(9), Err(ArchiveError::Format));
}

#[test]
fn compress_round_trip_all_algorithms() {
    let data: Vec<u8> = b"the quick brown fox jumps over the lazy dog, again and again and again"
        .to_vec();
    let algs = [
        CompressionAlgorithm::Stored,
        CompressionAlgorithm::Brotli,
        CompressionAlgorithm::Zstandard,
        CompressionAlgorithm::Lzma,
    ];
    for a in algs {
        let compressed = compress_data(&data, a).unwrap();
        let plain = decompress_data(&compressed, a).unwrap();
        assert_eq!(plain, data);
    }
}

#[test]
fn stored_compression_is_identity() {
    let data: Vec<u8> = vec![9, 8, 7];
    assert_eq!(compress_data(&data, CompressionAlgorithm::Stored).unwrap(), data);
}

#[test]
fn compression_actually_shrinks_repetitive_input() {
    let data: Vec<u8> = vec![b'a'; 4096];
    for a in [CompressionAlgorithm::Brotli, CompressionAlgorithm::Zstandard,
        CompressionAlgorithm::Lzma]
    {
        let compressed = compress_data(&data, a).unwrap();
        assert!(compressed.len() < data.len());
        assert_eq!(decompress_data(&compressed, a).unwrap(), data);
    }
}

#[test]
fn garbage_stream_is_codec_error() {
    let garbage: Vec<u8> = vec![0xff, 0x00, 0xab, 0xcd, 0x12];
    assert_eq!(
        decompress_data(&garbage, CompressionAlgorithm::Brotli),
        Err(ArchiveError::Codec)
    );
    assert_eq!(
        decompress_data(&garbage, CompressionAlgorithm::Zstandard),
        Err(ArchiveError::Codec)
    );
    assert_eq!(
        decompress_data(&garbage, CompressionAlgorithm::Lzma),
        Err(ArchiveError::Codec)
    );
}

#[test]
fn error_messages_name_the_failure() {
    assert_eq!(ArchiveError::Format.message(), "invalid archive format");
    assert_eq!(ArchiveError::Integrity.message(), "integrity check failed");
    assert_eq!(ArchiveError::Bounds.message(), "offset or length out of bounds");
    assert_eq!(ArchiveError::Codec.message(), "compression codec failure");
    assert_eq!(ArchiveError::Precondition.message(), "operation precondition not met");
}

#[test]
fn header_encodes_to_exactly_512_bytes() {
    let h = dar::models::ArchiveHeader::new(512, 1024, 3, 99);
    let mut buf: Vec<u8> = Vec::new();
    h.write_to(&mut buf);
    assert_eq!(buf.len(), 512);
    assert_eq!(&buf[0..4], b"DAR\0");
    assert_eq!(&buf[4..8], b"0004");
    assert_eq!(read_be64(&buf, 8), 512);
    assert_eq!(read_be64(&buf, 16), 1024);
    assert_eq!(read_be32(&buf, 24), 3);
    assert_eq!(read_be64(&buf, 28), 99);
    assert!(buf[36..68].iter().all(|b| *b == 0));
}

#[test]
fn end_record_encodes_to_exactly_64_bytes() {
    let e = dar::models::ArchiveEndRecord::new(1024, 200);
    let mut buf: Vec<u8> = Vec::new();
    e.write_to(&mut buf);
    assert_eq!(buf.len(), 64);
    assert_eq!(&buf[0..4], b"DEND");
    assert_eq!(read_be64(&buf, 4), 1024);
    assert_eq!(read_be64(&buf, 12), 200);
}

#[test]
fn index_entry_builder_fills_defaults() {
    let e = dar::models::ArchiveIndexEntry::new(b"dir/file".to_vec(), 40, 1000);
    assert_eq!(e.path, b"dir/file".to_vec());
    assert_eq!(e.data_offset, 40);
    assert_eq!(e.uncompressed_size, 1000);
    assert_eq!(e.compressed_size, 0);
    assert_eq!(e.compression_algorithm, CompressionAlgorithm::Stored);
    assert_eq!(e.permissions, 0o644);
    let mut buf: Vec<u8> = Vec::new();
    e.write_to(&mut buf);
    // 4-byte length prefix + 4-byte path length + path + 69 fixed bytes.
    assert_eq!(buf.len(), 4 + 4 + 8 + 69);
    assert_eq!(read_be32(&buf, 0) as usize, buf.len() - 4);
}
