//! Archive-format detection: a signature-catalog compiler and a two-tier
//! detection engine.
//!
//! A declarative catalog of (extension, category, byte-signature) records is
//! compiled once into two immutable artifacts: an extension index (lowercase
//! extension -> chosen category and description) and a signature list (byte
//! patterns ordered by descending length). Detection then probes a bounded
//! byte prefix against the signature list first and falls back to a
//! longest-suffix-first extension lookup on the filename.

use vstd::prelude::*;

pub mod catalog;
pub mod compile;
pub mod detect;
pub mod hex;
pub mod laws;
pub mod text;

verus! {

/// The composed detection: the signature tier decides when it matches, and
/// only when it does not is the filename's extension consulted.
pub open spec fn spec_analyze(
    c: catalog::CompiledCatalogModel,
    buf: Seq<u8>,
    name: Seq<char>,
) -> Option<catalog::ArchiveInfoModel> {
    match detect::spec_check_magic(c, buf) {
        Some(m) => Some(m),
        None => detect::spec_detect_by_extension(c, name),
    }
}

/// Identifies the format behind a probe buffer and a filename.
///
/// Byte signatures are authoritative when present — a renamed file is still
/// recognized by its content — so the signature tier always runs first; the
/// extension tier is a fallback only. `None` means neither tier matched,
/// which is the expected outcome for a non-archive file, not an error.
///
/// `data` is a bounded prefix of the file (no more than the caller read), and
/// `filename` its base name; a caller with no readable bytes passes an empty
/// buffer, which no signature matches.
pub fn analyze(cat: &catalog::CompiledCatalog, data: &[u8], filename: &str) -> (r: Option<
    catalog::ArchiveInfo,
>)
    ensures
        match r {
            None => spec_analyze(cat@, data@, filename@) is None,
            Some(info) => spec_analyze(cat@, data@, filename@) == Some(info@),
        },
{
    match detect::check_magic_signature(cat, data) {
        Some(info) => Some(info),
        None => detect::detect_by_extension(cat, filename),
    }
}

} // verus!
