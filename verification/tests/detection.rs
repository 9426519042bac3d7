use isarchive::analyze;
use isarchive::catalog::{Category, CompiledCatalog, RawEntry, RawSignature};
use isarchive::compile::compile_catalog;
use isarchive::detect::{check_magic_signature, detect_by_extension, get_extension_info};

fn sig(hex: &str, offset: usize, description: &str) -> RawSignature {
    RawSignature {
        pattern_hex: hex.to_string(),
        offset,
        description: description.to_string(),
    }
}

fn entry(extension: &str, category: Category, signatures: Vec<RawSignature>) -> RawEntry {
    RawEntry {
        extension: extension.to_string(),
        category,
        signatures,
    }
}

/// A small catalog of well-known formats, as a catalog loader would supply it.
fn raw_catalog() -> Vec<RawEntry> {
    vec![
        entry(
            ".zip",
            Category::CompressedArchive,
            vec![
                sig("50 4B 03 04", 0, "ZIP archive data"),
                sig("50 4B 05 06", 0, "ZIP archive data (empty)"),
            ],
        ),
        entry(
            ".7z",
            Category::CompressedArchive,
            vec![sig("37 7A BC AF 27 1C", 0, "7-zip archive data")],
        ),
        entry(
            ".rar",
            Category::CompressedArchive,
            vec![sig("52 61 72 21 1A 07 00", 0, "RAR archive data")],
        ),
        entry(
            ".gz",
            Category::StreamCompression,
            vec![sig("1F 8B", 0, "gzip compressed data")],
        ),
        entry(
            ".bz2",
            Category::StreamCompression,
            vec![sig("42 5A 68", 0, "bzip2 compressed data")],
        ),
        entry(
            ".xz",
            Category::StreamCompression,
            vec![sig("FD 37 7A 58 5A 00", 0, "XZ compressed data")],
        ),
        entry(
            ".tar",
            Category::Storage,
            vec![sig("75 73 74 61 72", 257, "POSIX tar archive")],
        ),
        entry(".tar.gz", Category::CompressedArchive, vec![]),
        entry(".tgz", Category::CompressedArchive, vec![]),
        entry(
            ".deb",
            Category::Package,
            vec![sig("21 3C 61 72 63 68 3E", 0, "Debian binary package")],
        ),
        entry(
            ".rpm",
            Category::Package,
            vec![sig("ED AB EE DB", 0, "RPM package")],
        ),
        entry(
            ".par2",
            Category::Recovery,
            vec![sig("50 41 52 32 00 50 4B 54", 0, "Parity archive data")],
        ),
        entry(
            ".iso",
            Category::Container,
            vec![sig("43 44 30 30 31", 32769, "ISO 9660 CD-ROM filesystem data")],
        ),
    ]
}

fn catalog() -> CompiledCatalog {
    compile_catalog(&raw_catalog())
}

#[test]
fn test_magic_signature_zip() {
    let cat = catalog();
    let zip_magic = [0x50, 0x4B, 0x03, 0x04];
    let info = check_magic_signature(&cat, &zip_magic);
    assert!(info.is_some(), "ZIP magic should be detected");
    let info = info.unwrap();
    // The category should be one of the known archive categories
    assert!(
        info.category.contains("archive"),
        "Category should contain 'archive'"
    );
    assert!(
        info.description.len() > 0,
        "Description should not be empty"
    );
}

#[test]
fn test_extension_zip() {
    let cat = catalog();
    let info = get_extension_info(&cat, ".zip");
    assert!(info.is_some(), ".zip extension should be detected");
    let info = info.unwrap();
    assert!(
        info.category.contains("archive"),
        "Category should contain 'archive'"
    );
}

#[test]
fn test_extension_nonexistent() {
    let cat = catalog();
    let info = get_extension_info(&cat, ".nonexistent_extension_xyz");
    assert!(
        info.is_none(),
        "Non-existent extension should not be detected"
    );
}

#[test]
fn test_zip_magic_exact_classification() {
    let cat = catalog();
    let buffer = [0x50, 0x4B, 0x03, 0x04, 0x14, 0x00, 0x00, 0x00];
    let info = check_magic_signature(&cat, &buffer).unwrap();
    assert_eq!(info.category, "archive/compressed-archive");
    assert_eq!(info.description, "ZIP archive data");
    assert_eq!(info.hexdump, "50 4B 03 04");
}

#[test]
fn test_extension_fallback_on_empty_buffer() {
    let cat = catalog();
    let empty: [u8; 0] = [];
    assert!(check_magic_signature(&cat, &empty).is_none());
    let info = analyze(&cat, &empty, "archive.zip").unwrap();
    assert_eq!(info.category, "archive/compressed-archive");
    assert_eq!(info.hexdump, "");
}

#[test]
fn test_plain_text_is_no_archive() {
    let cat = catalog();
    let buffer = b"These are plain ASCII notes, nothing else.";
    assert!(check_magic_signature(&cat, buffer).is_none());
    assert!(detect_by_extension(&cat, "notes.txt").is_none());
    assert!(analyze(&cat, buffer, "notes.txt").is_none());
}

#[test]
fn test_unknown_extension_tier_returns_none() {
    let cat = catalog();
    assert!(detect_by_extension(&cat, "x.nonexistent_ext").is_none());
}

#[test]
fn test_short_buffer_never_matches() {
    let cat = catalog();
    // The tar signature sits at offset 257; the same bytes early in a short
    // buffer must not count as a match.
    let mut buffer = vec![0u8; 100];
    buffer[50] = 0x75;
    buffer[51] = 0x73;
    buffer[52] = 0x74;
    buffer[53] = 0x61;
    buffer[54] = 0x72;
    assert!(check_magic_signature(&cat, &buffer).is_none());
    // A truncated ZIP magic does not match either.
    let truncated = [0x50, 0x4B];
    assert!(check_magic_signature(&cat, &truncated).is_none());
}

#[test]
fn test_offset_signature_matches_when_buffer_long_enough() {
    let cat = catalog();
    let mut buffer = vec![0u8; 300];
    buffer[257] = 0x75;
    buffer[258] = 0x73;
    buffer[259] = 0x74;
    buffer[260] = 0x61;
    buffer[261] = 0x72;
    let info = check_magic_signature(&cat, &buffer).unwrap();
    assert_eq!(info.category, "archive/storage");
    assert_eq!(info.description, "POSIX tar archive");
}

#[test]
fn test_signature_precedence_over_extension() {
    let cat = catalog();
    // Content says ZIP, name says gzip: the signature wins.
    let buffer = [0x50, 0x4B, 0x03, 0x04];
    let info = analyze(&cat, &buffer, "misnamed.gz").unwrap();
    assert_eq!(info.category, "archive/compressed-archive");
    assert_eq!(info.description, "ZIP archive data");
}

#[test]
fn test_compound_suffix_preferred() {
    let cat = catalog();
    // Both .tar.gz and .gz are known; the longer suffix decides.
    let info = detect_by_extension(&cat, "data.tar.gz").unwrap();
    assert_eq!(info.category, "archive/compressed-archive");
    assert_eq!(info.description, ".tar.gz archive");
    // The trailing component alone still resolves to gzip.
    let info = detect_by_extension(&cat, "data.gz").unwrap();
    assert_eq!(info.category, "archive/stream-compression");
}

#[test]
fn test_extension_lookup_is_case_insensitive() {
    let cat = catalog();
    let info = get_extension_info(&cat, ".ZIP").unwrap();
    assert_eq!(info.category, "archive/compressed-archive");
    let info = analyze(&cat, &[], "ARCHIVE.TAR.GZ").unwrap();
    assert_eq!(info.description, ".tar.gz archive");
}

#[test]
fn test_extension_without_signatures_gets_default_description() {
    let cat = catalog();
    let info = get_extension_info(&cat, ".tgz").unwrap();
    assert_eq!(info.description, ".tgz archive");
    assert_eq!(info.category, "archive/compressed-archive");
}

#[test]
fn test_extension_description_comes_from_first_signature() {
    let cat = catalog();
    let info = get_extension_info(&cat, ".zip").unwrap();
    assert_eq!(info.description, "ZIP archive data");
}

#[test]
fn test_all_catalog_signatures_detected() {
    let cat = catalog();
    for entry in raw_catalog() {
        for sig in &entry.signatures {
            let bytes: Vec<u8> = sig
                .pattern_hex
                .split_whitespace()
                .map(|t| u8::from_str_radix(t, 16).expect("test catalog holds valid hex"))
                .collect();
            if bytes.len() < 2 {
                continue;
            }
            let mut buffer = vec![0u8; sig.offset + bytes.len()];
            buffer[sig.offset..].copy_from_slice(&bytes);
            let info = analyze(&cat, &buffer, "unnamed.bin");
            assert!(
                info.is_some(),
                "signature {} of {} should be detected",
                sig.pattern_hex,
                entry.extension
            );
        }
    }
}

#[test]
fn test_filename_edge_shapes() {
    let cat = catalog();
    // No dot at all: nothing to look up.
    assert!(detect_by_extension(&cat, "README").is_none());
    // Empty filename.
    assert!(detect_by_extension(&cat, "").is_none());
    // A trailing dot yields the suffix ".", which no catalog entry binds.
    assert!(detect_by_extension(&cat, "file.").is_none());
    // A leading dot is a candidate suffix like any other.
    let info = detect_by_extension(&cat, ".zip").unwrap();
    assert_eq!(info.category, "archive/compressed-archive");
}

#[test]
fn test_analyze_empty_inputs() {
    let cat = catalog();
    let empty: [u8; 0] = [];
    assert!(analyze(&cat, &empty, "").is_none());
}

#[test]
fn test_empty_catalog_detects_nothing() {
    let cat = compile_catalog(&Vec::new());
    assert!(cat.extensions.is_empty());
    assert!(cat.signatures.is_empty());
    assert!(analyze(&cat, &[0x50, 0x4B, 0x03, 0x04], "archive.zip").is_none());
}
