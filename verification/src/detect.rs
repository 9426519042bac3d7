//! The detection engine: a probe buffer is scanned against the compiled
//! signature list in its precomputed order, and a filename against the
//! extension index, longest suffix first.

use vstd::prelude::*;

use crate::catalog::{
    ArchiveInfo, ArchiveInfoModel, CompiledCatalog, CompiledCatalogModel, ExtensionBinding,
    ExtensionBindingModel, SignatureModel, SignatureRecord, category_name, spec_category_name,
};
use crate::compile::{find_extension, spec_find_ext};
use crate::hex::{render_hex, spec_hex_render};
use crate::text::{lower_seq, lowercase_str};
use vstd::string::{StrSliceExecFns, StringExecFns};

verus! {

/// Whether one compiled record matches the probe buffer: the whole pattern
/// must lie inside the buffer at the record's offset and agree byte for byte.
pub open spec fn spec_sig_matches(buf: Seq<u8>, s: SignatureModel) -> bool {
    &&& 0 <= s.offset
    &&& s.offset + s.pattern.len() <= buf.len()
    &&& buf.subrange(s.offset, s.offset + s.pattern.len()) == s.pattern
}

/// Position of the first record in scan order that matches the buffer.
pub open spec fn spec_first_match(sigs: Seq<SignatureModel>, buf: Seq<u8>) -> Option<int>
    decreases sigs.len(),
{
    if sigs.len() == 0 {
        None
    } else if spec_sig_matches(buf, sigs[0]) {
        Some(0)
    } else {
        match spec_first_match(sigs.drop_first(), buf) {
            None => None,
            Some(k) => Some(k + 1),
        }
    }
}

/// A position that matches, with no match before it, is what
/// `spec_first_match` yields.
pub proof fn lemma_first_match_of_first(sigs: Seq<SignatureModel>, buf: Seq<u8>, k: int)
    requires
        0 <= k < sigs.len(),
        spec_sig_matches(buf, sigs[k]),
        forall|j: int| 0 <= j < k ==> !spec_sig_matches(buf, sigs[j]),
    ensures
        spec_first_match(sigs, buf) == Some(k),
    decreases sigs.len(),
{
    if k > 0 {
        lemma_first_match_of_first(sigs.drop_first(), buf, k - 1);
    }
}

/// And when no record matches, `spec_first_match` yields `None`.
proof fn lemma_first_match_of_none(sigs: Seq<SignatureModel>, buf: Seq<u8>)
    requires
        forall|j: int| 0 <= j < sigs.len() ==> !spec_sig_matches(buf, sigs[j]),
    ensures
        spec_first_match(sigs, buf) is None,
    decreases sigs.len(),
{
    if sigs.len() > 0 {
        lemma_first_match_of_none(sigs.drop_first(), buf);
    }
}

/// What a signature match reports: canonical category name, the record's
/// description, and the matched pattern rendered as hex.
pub open spec fn spec_signature_info(s: SignatureModel) -> ArchiveInfoModel {
    ArchiveInfoModel {
        category: spec_category_name(s.category),
        description: s.description,
        hexdump: spec_hex_render(s.pattern),
    }
}

/// The signature tier: the report of the first matching record, if any.
pub open spec fn spec_check_magic(c: CompiledCatalogModel, buf: Seq<u8>) -> Option<
    ArchiveInfoModel,
> {
    match spec_first_match(c.signatures, buf) {
        None => None,
        Some(k) => Some(spec_signature_info(c.signatures[k])),
    }
}

/// Whether one compiled record matches the probe buffer.
fn sig_matches(data: &[u8], sig: &SignatureRecord) -> (b: bool)
    ensures
        b == spec_sig_matches(data@, sig@),
{
    let plen = sig.pattern.len();
    let dlen = data.len();
    if dlen < plen || sig.offset > dlen - plen {
        return false;
    }
    let mut j: usize = 0;
    while j < plen
        invariant
            plen == sig@.pattern.len(),
            dlen == data@.len(),
            sig@.offset + plen <= dlen,
            j <= plen,
            forall|q: int| 0 <= q < j ==> data@[sig@.offset + q] == sig@.pattern[q],
        decreases plen - j,
    {
        if data[sig.offset + j] != sig.pattern[j] {
            proof {
                assert(data@.subrange(sig@.offset, sig@.offset + plen)[j as int] == data@[sig@.offset
                    + j]);
            }
            return false;
        }
        j = j + 1;
    }
    proof {
        assert(data@.subrange(sig@.offset, sig@.offset + plen) =~= sig@.pattern);
    }
    true
}

/// The report built from one matching signature record.
fn signature_info(s: &SignatureRecord) -> (r: ArchiveInfo)
    ensures
        r@ == spec_signature_info(s@),
{
    ArchiveInfo {
        category: String::from_str(category_name(s.category)),
        description: s.description.clone(),
        hexdump: render_hex(&s.pattern),
    }
}

/// Scans the probe buffer against the signature list in its precomputed,
/// length-descending order and reports the first match.
///
/// A record whose pattern would reach past the end of the buffer is never a
/// match. Absence of a match is a normal outcome, not an error.
pub fn check_magic_signature(cat: &CompiledCatalog, data: &[u8]) -> (r: Option<ArchiveInfo>)
    ensures
        match r {
            None => spec_check_magic(cat@, data@) is None,
            Some(info) => spec_check_magic(cat@, data@) == Some(info@),
        },
{
    let mut i: usize = 0;
    while i < cat.signatures.len()
        invariant
            i <= cat.signatures.len(),
            cat@.signatures.len() == cat.signatures.len(),
            forall|j: int| 0 <= j < i ==> !spec_sig_matches(data@, cat@.signatures[j]),
        decreases cat.signatures.len() - i,
    {
        let sig = &cat.signatures[i];
        proof {
            assert(cat@.signatures[i as int] == sig@);
        }
        if sig_matches(data, sig) {
            proof {
                lemma_first_match_of_first(cat@.signatures, data@, i as int);
            }
            return Some(signature_info(sig));
        }
        i = i + 1;
    }
    proof {
        lemma_first_match_of_none(cat@.signatures, data@);
    }
    None
}

/// The binding chosen for an extension, if the index holds one.
pub open spec fn spec_lookup_ext(idx: Seq<ExtensionBindingModel>, ext: Seq<char>) -> Option<
    ExtensionBindingModel,
> {
    match spec_find_ext(idx, ext) {
        None => None,
        Some(k) => Some(idx[k]),
    }
}

/// What an extension match reports: canonical category name and the chosen
/// description; no bytes were inspected, so the hexdump is empty.
pub open spec fn spec_extension_info(b: ExtensionBindingModel) -> ArchiveInfoModel {
    ArchiveInfoModel {
        category: spec_category_name(b.category),
        description: b.description,
        hexdump: Seq::empty(),
    }
}

/// The report of an extension looked up directly (already with its dot),
/// case-insensitively.
pub open spec fn spec_get_extension_info(c: CompiledCatalogModel, ext: Seq<char>) -> Option<
    ArchiveInfoModel,
> {
    match spec_lookup_ext(c.extensions, lower_seq(ext)) {
        None => None,
        Some(b) => Some(spec_extension_info(b)),
    }
}

/// The report built from one extension binding.
fn extension_info(b: &ExtensionBinding) -> (r: ArchiveInfo)
    ensures
        r@ == spec_extension_info(b@),
{
    ArchiveInfo {
        category: String::from_str(category_name(b.category)),
        description: b.description.clone(),
        hexdump: String::new(),
    }
}

/// Looks one extension up in the compiled index, case-insensitively.
///
/// The extension is given with its leading dot, e.g. `.zip`; `None` means the
/// catalog knows no such extension.
pub fn get_extension_info(cat: &CompiledCatalog, ext: &str) -> (r: Option<ArchiveInfo>)
    ensures
        match r {
            None => spec_get_extension_info(cat@, ext@) is None,
            Some(info) => spec_get_extension_info(cat@, ext@) == Some(info@),
        },
{
    let lower = lowercase_str(ext);
    match find_extension(&cat.extensions, lower.as_str()) {
        None => None,
        Some(k) => {
            let b = &cat.extensions[k];
            proof {
                assert(cat@.extensions[k as int] == b@);
            }
            Some(extension_info(b))
        },
    }
}

/// The extension tier, from dot position `i` on: the first dot position at or
/// after `i` whose suffix, lowercased, is in the index decides the report.
/// Earlier dots give longer suffixes, so compound extensions such as
/// `.tar.gz` are preferred over their trailing component `.gz`.
pub open spec fn spec_ext_detect_from(
    idx: Seq<ExtensionBindingModel>,
    name: Seq<char>,
    i: int,
) -> Option<ArchiveInfoModel>
    decreases name.len() - i,
{
    if i < 0 || i >= name.len() {
        None
    } else if name[i] == '.' {
        match spec_lookup_ext(idx, lower_seq(name.skip(i))) {
            Some(b) => Some(spec_extension_info(b)),
            None => spec_ext_detect_from(idx, name, i + 1),
        }
    } else {
        spec_ext_detect_from(idx, name, i + 1)
    }
}

/// The extension tier: lowercase the filename, try every suffix that starts
/// at a dot, leftmost dot (longest suffix) first, and report the first hit.
pub open spec fn spec_detect_by_extension(c: CompiledCatalogModel, name: Seq<char>) -> Option<
    ArchiveInfoModel,
> {
    spec_ext_detect_from(c.extensions, name, 0)
}

/// Derives candidate suffixes from the filename, longest first, and reports
/// the first one the extension index knows.
///
/// `filename` is a base name, not a path: stripping directory components is
/// the caller's business.
pub fn detect_by_extension(cat: &CompiledCatalog, filename: &str) -> (r: Option<ArchiveInfo>)
    ensures
        match r {
            None => spec_detect_by_extension(cat@, filename@) is None,
            Some(info) => spec_detect_by_extension(cat@, filename@) == Some(info@),
        },
{
    let n = filename.unicode_len();
    let mut i: usize = 0;
    while i < n
        invariant
            n == filename@.len(),
            i <= n,
            spec_detect_by_extension(cat@, filename@) == spec_ext_detect_from(
                cat@.extensions,
                filename@,
                i as int,
            ),
        decreases n - i,
    {
        if filename.get_char(i) == '.' {
            let suffix = filename.substring_char(i, n);
            proof {
                assert(suffix@ =~= filename@.skip(i as int));
            }
            let lower = lowercase_str(suffix);
            match find_extension(&cat.extensions, lower.as_str()) {
                None => {},
                Some(k) => {
                    let b = &cat.extensions[k];
                    proof {
                        assert(cat@.extensions[k as int] == b@);
                    }
                    return Some(extension_info(b));
                },
            }
        }
        i = i + 1;
    }
    None
}

} // verus!
