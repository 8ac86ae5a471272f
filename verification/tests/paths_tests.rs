use dar::models::CompressionAlgorithm;
use dar::paths::{calculate_archive_path, get_compression_algorithm, sanitize_path};

#[test]
fn sanitize_drops_parent_and_current_components() {
    assert_eq!(sanitize_path(&b"a//b/./../c".to_vec()), b"a/b/c".to_vec());
}

#[test]
fn sanitize_strips_leading_root() {
    assert_eq!(sanitize_path(&b"/etc/passwd".to_vec()), b"etc/passwd".to_vec());
}

#[test]
fn sanitize_confines_escape_attempts() {
    assert_eq!(sanitize_path(&b"../../evil.txt".to_vec()), b"evil.txt".to_vec());
    assert_eq!(sanitize_path(&b"..".to_vec()), b"".to_vec());
    assert_eq!(sanitize_path(&b"./.".to_vec()), b"".to_vec());
}

#[test]
fn sanitize_keeps_ordinary_relative_paths() {
    assert_eq!(sanitize_path(&b"src/models/archive.rs".to_vec()), b"src/models/archive.rs".to_vec());
    assert_eq!(sanitize_path(&b"".to_vec()), b"".to_vec());
}

#[test]
fn sanitize_keeps_dotted_names() {
    // Only the exact `.` and `..` components are dropped, not names that
    // merely contain dots.
    assert_eq!(sanitize_path(&b"a/..b/c..".to_vec()), b"a/..b/c..".to_vec());
}

#[test]
fn archive_path_is_relative_to_the_root() {
    let p = calculate_archive_path(&b"/home/user/project/src/main.rs".to_vec(), &b"/home/user/project".to_vec());
    assert_eq!(p, b"src/main.rs".to_vec());
}

#[test]
fn archive_path_without_matching_root_is_sanitized_whole() {
    let p = calculate_archive_path(&b"/other/place/file.txt".to_vec(), &b"/home/user".to_vec());
    assert_eq!(p, b"other/place/file.txt".to_vec());
}

#[test]
fn text_extensions_take_the_text_codec() {
    assert_eq!(get_compression_algorithm(&b"src/main.rs".to_vec()), CompressionAlgorithm::Lzma);
    assert_eq!(get_compression_algorithm(&b"notes.txt".to_vec()), CompressionAlgorithm::Lzma);
    assert_eq!(get_compression_algorithm(&b"conf.TOML".to_vec()), CompressionAlgorithm::Lzma);
}

#[test]
fn compressed_media_is_stored_verbatim() {
    assert_eq!(get_compression_algorithm(&b"photo.JPG".to_vec()), CompressionAlgorithm::Stored);
    assert_eq!(get_compression_algorithm(&b"img.png".to_vec()), CompressionAlgorithm::Stored);
    assert_eq!(get_compression_algorithm(&b"movie.mp4".to_vec()), CompressionAlgorithm::Stored);
    assert_eq!(get_compression_algorithm(&b"song.flac".to_vec()), CompressionAlgorithm::Stored);
    assert_eq!(get_compression_algorithm(&b"backup.tar".to_vec()), CompressionAlgorithm::Stored);
    assert_eq!(get_compression_algorithm(&b"old.tar.gz".to_vec()), CompressionAlgorithm::Stored);
}

#[test]
fn unrecognized_extensions_take_the_default_codec() {
    assert_eq!(get_compression_algorithm(&b"data.bin".to_vec()), CompressionAlgorithm::Zstandard);
    assert_eq!(get_compression_algorithm(&b"noext".to_vec()), CompressionAlgorithm::Zstandard);
    assert_eq!(get_compression_algorithm(&b".bashrc".to_vec()), CompressionAlgorithm::Zstandard);
    assert_eq!(get_compression_algorithm(&b"dir.rs/noext".to_vec()), CompressionAlgorithm::Zstandard);
}
