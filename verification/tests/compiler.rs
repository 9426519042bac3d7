use isarchive::catalog::{Category, RawEntry, RawSignature};
use isarchive::compile::compile_catalog;
use isarchive::detect::{check_magic_signature, get_extension_info};
use isarchive::hex::{parse_hex_pattern, render_hex};
use isarchive::catalog::{category_from_name, category_name};

fn sig(hex: &str, offset: usize, description: &str) -> RawSignature {
    RawSignature {
        pattern_hex: hex.to_string(),
        offset,
        description: description.to_string(),
    }
}

fn entry(extension: &str, category: Category, signatures: Vec<RawSignature>) -> RawEntry {
    RawEntry {
        extension: extension.to_string(),
        category,
        signatures,
    }
}

#[test]
fn test_compilation_is_deterministic() {
    let raw = vec![
        entry(
            ".zip",
            Category::CompressedArchive,
            vec![sig("50 4B 03 04", 0, "ZIP archive data")],
        ),
        entry(".x", Category::Container, vec![sig("AA BB", 0, "one")]),
        entry(".x", Category::Package, vec![sig("CC DD", 0, "two")]),
        entry(".gz", Category::StreamCompression, vec![sig("1F 8B", 0, "gzip")]),
    ];
    let first = compile_catalog(&raw);
    let second = compile_catalog(&raw);
    assert_eq!(first.extensions, second.extensions);
    assert_eq!(first.signatures, second.signatures);
}

#[test]
fn test_short_patterns_are_dropped() {
    let raw = vec![entry(
        ".zip",
        Category::CompressedArchive,
        vec![
            sig("50", 0, "single byte"),
            sig("", 0, "no bytes"),
            sig("50 4B 03 04", 0, "ZIP archive data"),
        ],
    )];
    let cat = compile_catalog(&raw);
    assert_eq!(cat.signatures.len(), 1);
    assert_eq!(cat.signatures[0].pattern, vec![0x50, 0x4B, 0x03, 0x04]);
    for record in &cat.signatures {
        assert!(record.pattern.len() >= 2);
    }
    // The single-byte pattern must not match a buffer it would have matched.
    assert!(check_magic_signature(&cat, &[0x50, 0x00]).is_none());
}

#[test]
fn test_signatures_sorted_by_descending_length() {
    let raw = vec![
        entry(".a", Category::Storage, vec![sig("01 02", 0, "two")]),
        entry(
            ".b",
            Category::Storage,
            vec![sig("01 02 03 04 05", 0, "five"), sig("01 02 03", 0, "three")],
        ),
        entry(".c", Category::Storage, vec![sig("01 02 03 04", 0, "four")]),
    ];
    let cat = compile_catalog(&raw);
    let lengths: Vec<usize> = cat.signatures.iter().map(|s| s.pattern.len()).collect();
    assert_eq!(lengths, vec![5, 4, 3, 2]);
}

#[test]
fn test_longer_prefix_pattern_wins() {
    // The shorter pattern is a byte-prefix of the longer one at offset 0;
    // a buffer matching both is reported as the longer, more specific one.
    let raw = vec![
        entry(".short", Category::Container, vec![sig("50 4B", 0, "generic PK")]),
        entry(
            ".long",
            Category::CompressedArchive,
            vec![sig("50 4B 03 04", 0, "ZIP archive data")],
        ),
    ];
    let cat = compile_catalog(&raw);
    let info = check_magic_signature(&cat, &[0x50, 0x4B, 0x03, 0x04]).unwrap();
    assert_eq!(info.category, "archive/compressed-archive");
    assert_eq!(info.description, "ZIP archive data");
    // A buffer matching only the shorter one still falls back to it.
    let info = check_magic_signature(&cat, &[0x50, 0x4B, 0xFF, 0xFF]).unwrap();
    assert_eq!(info.description, "generic PK");
}

#[test]
fn test_equal_length_tie_breaks_by_catalog_order() {
    let raw = vec![
        entry(".one", Category::Storage, vec![sig("AB CD", 0, "first declared")]),
        entry(".two", Category::Container, vec![sig("AB CD", 0, "second declared")]),
    ];
    let cat = compile_catalog(&raw);
    let info = check_magic_signature(&cat, &[0xAB, 0xCD]).unwrap();
    assert_eq!(info.description, "first declared");
}

#[test]
fn test_priority_package_beats_container() {
    let raw = vec![
        entry(".x", Category::Container, vec![]),
        entry(".x", Category::Package, vec![]),
    ];
    let cat = compile_catalog(&raw);
    let info = get_extension_info(&cat, ".x").unwrap();
    assert_eq!(info.category, "archive/package");

    // The same outcome when the declarations come in the other order.
    let raw = vec![
        entry(".x", Category::Package, vec![]),
        entry(".x", Category::Container, vec![]),
    ];
    let cat = compile_catalog(&raw);
    let info = get_extension_info(&cat, ".x").unwrap();
    assert_eq!(info.category, "archive/package");
}

#[test]
fn test_priority_full_order() {
    // Each category in turn loses to the next higher one.
    let pairs = [
        (Category::Container, Category::Storage, "archive/storage"),
        (Category::Storage, Category::StreamCompression, "archive/stream-compression"),
        (
            Category::StreamCompression,
            Category::CompressedArchive,
            "archive/compressed-archive",
        ),
        (Category::CompressedArchive, Category::Recovery, "archive/recovery"),
        (Category::Recovery, Category::Package, "archive/package"),
    ];
    for (lower, higher, expected) in pairs {
        let raw = vec![entry(".x", lower, vec![]), entry(".x", higher, vec![])];
        let cat = compile_catalog(&raw);
        let info = get_extension_info(&cat, ".x").unwrap();
        assert_eq!(info.category, expected);
    }
}

#[test]
fn test_equal_priority_first_declaration_wins() {
    let raw = vec![
        entry(".x", Category::Storage, vec![sig("01 02", 0, "first")]),
        entry(".x", Category::Storage, vec![sig("03 04", 0, "second")]),
    ];
    let cat = compile_catalog(&raw);
    let info = get_extension_info(&cat, ".x").unwrap();
    assert_eq!(info.description, "first");
}

#[test]
fn test_malformed_hex_skips_only_that_record() {
    let raw = vec![entry(
        ".zip",
        Category::CompressedArchive,
        vec![
            sig("ZZ 4B", 0, "not hex at all"),
            sig("50 4B 03 04 FF F", 0, "fine: one- and two-digit tokens"),
            sig("123", 0, "token too long"),
        ],
    )];
    let cat = compile_catalog(&raw);
    assert_eq!(cat.signatures.len(), 1);
    assert_eq!(
        cat.signatures[0].pattern,
        vec![0x50, 0x4B, 0x03, 0x04, 0xFF, 0x0F]
    );
}

#[test]
fn test_entry_without_leading_dot_is_skipped() {
    let raw = vec![
        entry("zip", Category::CompressedArchive, vec![sig("50 4B 03 04", 0, "no dot")]),
        entry("", Category::CompressedArchive, vec![sig("1F 8B", 0, "empty")]),
        entry(".ok", Category::Storage, vec![sig("AA BB", 0, "kept")]),
    ];
    let cat = compile_catalog(&raw);
    assert_eq!(cat.extensions.len(), 1);
    assert_eq!(cat.extensions[0].extension, ".ok");
    assert_eq!(cat.signatures.len(), 1);
    assert!(get_extension_info(&cat, "zip").is_none());
}

#[test]
fn test_uppercase_extension_is_stored_lowercased() {
    let raw = vec![entry(".ZIP", Category::CompressedArchive, vec![])];
    let cat = compile_catalog(&raw);
    assert_eq!(cat.extensions[0].extension, ".zip");
    assert_eq!(cat.extensions[0].description, ".zip archive");
    assert!(get_extension_info(&cat, ".zip").is_some());
    assert!(get_extension_info(&cat, ".Zip").is_some());
}

#[test]
fn test_empty_signature_description_defaults() {
    let raw = vec![entry(
        ".zip",
        Category::CompressedArchive,
        vec![sig("50 4B 03 04", 0, "")],
    )];
    let cat = compile_catalog(&raw);
    assert_eq!(cat.signatures[0].description, ".zip archive");
    let info = get_extension_info(&cat, ".zip").unwrap();
    assert_eq!(info.description, ".zip archive");
}

#[test]
fn test_parse_hex_pattern_values() {
    assert_eq!(
        parse_hex_pattern("50 4B 03 04").unwrap(),
        vec![0x50, 0x4B, 0x03, 0x04]
    );
    assert_eq!(parse_hex_pattern("a 0B  ff").unwrap(), vec![0x0A, 0x0B, 0xFF]);
    assert_eq!(parse_hex_pattern("").unwrap(), Vec::<u8>::new());
    assert_eq!(parse_hex_pattern("   ").unwrap(), Vec::<u8>::new());
    assert!(parse_hex_pattern("4G").is_none());
    assert!(parse_hex_pattern("505").is_none());
    assert!(parse_hex_pattern("50,4B").is_none());
}

#[test]
fn test_render_hex_round_trip() {
    let bytes = vec![0x50, 0x4B, 0x03, 0x04, 0x0F, 0xA0];
    let text = render_hex(&bytes);
    assert_eq!(text, "50 4B 03 04 0F A0");
    assert_eq!(parse_hex_pattern(&text).unwrap(), bytes);
    assert_eq!(render_hex(&Vec::new()), "");
    assert_eq!(render_hex(&vec![0x00]), "00");
}

#[test]
fn test_category_name_round_trip() {
    let names = [
        ("archiveOnly", Category::Storage, "archive/storage"),
        ("compressOnly", Category::StreamCompression, "archive/stream-compression"),
        (
            "archiveAndCompress",
            Category::CompressedArchive,
            "archive/compressed-archive",
        ),
        ("dataRecovery", Category::Recovery, "archive/recovery"),
        ("packaging", Category::Package, "archive/package"),
        ("containers", Category::Container, "archive/container"),
    ];
    for (source, category, canonical) in names {
        assert_eq!(category_from_name(source), Some(category));
        assert_eq!(category_name(category), canonical);
    }
    assert_eq!(category_from_name("somethingElse"), None);
    assert_eq!(category_from_name(""), None);
}
