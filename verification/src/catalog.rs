//! Data model of the signature catalog: the six archive categories with their
//! fixed priority order, the raw records a catalog loader hands in, and the
//! compiled artifacts the detection engine queries.

use vstd::prelude::*;

verus! {

/// The six fixed archive sub-kinds a catalog record may belong to.
#[derive(Clone, Copy, PartialEq, Eq, Structural, Debug)]
pub enum Category {
    /// Plain aggregation without compression (e.g. tar).
    Storage,
    /// A bare compressed stream (e.g. gzip).
    StreamCompression,
    /// Aggregation and compression combined (e.g. zip).
    CompressedArchive,
    /// Redundancy and repair data (e.g. parity volumes).
    Recovery,
    /// Software packaging formats (e.g. deb, rpm).
    Package,
    /// Disk or filesystem images (e.g. iso).
    Container,
}

/// Fixed total-order priority of the categories, used to resolve an extension
/// declared under more than one category: a smaller rank wins.
/// `package > recovery > compressed-archive > stream-compression > storage > container`.
pub open spec fn priority_rank(c: Category) -> int {
    match c {
        Category::Package => 0,
        Category::Recovery => 1,
        Category::CompressedArchive => 2,
        Category::StreamCompression => 3,
        Category::Storage => 4,
        Category::Container => 5,
    }
}

/// Executable form of `priority_rank`.
pub fn category_rank(c: Category) -> (r: u8)
    ensures
        r as int == priority_rank(c),
{
    match c {
        Category::Package => 0,
        Category::Recovery => 1,
        Category::CompressedArchive => 2,
        Category::StreamCompression => 3,
        Category::Storage => 4,
        Category::Container => 5,
    }
}

/// Canonical exposed name of a category, of the form `archive/<kind>`.
pub open spec fn spec_category_name(c: Category) -> Seq<char> {
    match c {
        Category::Storage => "archive/storage"@,
        Category::StreamCompression => "archive/stream-compression"@,
        Category::CompressedArchive => "archive/compressed-archive"@,
        Category::Recovery => "archive/recovery"@,
        Category::Package => "archive/package"@,
        Category::Container => "archive/container"@,
    }
}

/// Executable form of `spec_category_name`.
pub fn category_name(c: Category) -> (r: &'static str)
    ensures
        r@ == spec_category_name(c),
{
    match c {
        Category::Storage => "archive/storage",
        Category::StreamCompression => "archive/stream-compression",
        Category::CompressedArchive => "archive/compressed-archive",
        Category::Recovery => "archive/recovery",
        Category::Package => "archive/package",
        Category::Container => "archive/container",
    }
}

/// Name under which a category appears in the raw catalog source.
pub open spec fn spec_category_source_name(c: Category) -> Seq<char> {
    match c {
        Category::Storage => "archiveOnly"@,
        Category::StreamCompression => "compressOnly"@,
        Category::CompressedArchive => "archiveAndCompress"@,
        Category::Recovery => "dataRecovery"@,
        Category::Package => "packaging"@,
        Category::Container => "containers"@,
    }
}

/// The fixed lookup from a raw catalog's category name to the enum;
/// an unrecognized name yields `None` so the loader can reject the record.
pub open spec fn spec_category_from_name(s: Seq<char>) -> Option<Category> {
    if s == spec_category_source_name(Category::Storage) {
        Some(Category::Storage)
    } else if s == spec_category_source_name(Category::StreamCompression) {
        Some(Category::StreamCompression)
    } else if s == spec_category_source_name(Category::CompressedArchive) {
        Some(Category::CompressedArchive)
    } else if s == spec_category_source_name(Category::Recovery) {
        Some(Category::Recovery)
    } else if s == spec_category_source_name(Category::Package) {
        Some(Category::Package)
    } else if s == spec_category_source_name(Category::Container) {
        Some(Category::Container)
    } else {
        None
    }
}

/// Executable form of `spec_category_from_name`.
pub fn category_from_name(s: &str) -> (r: Option<Category>)
    ensures
        r == spec_category_from_name(s@),
{
    if crate::text::str_eq(s, "archiveOnly") {
        Some(Category::Storage)
    } else if crate::text::str_eq(s, "compressOnly") {
        Some(Category::StreamCompression)
    } else if crate::text::str_eq(s, "archiveAndCompress") {
        Some(Category::CompressedArchive)
    } else if crate::text::str_eq(s, "dataRecovery") {
        Some(Category::Recovery)
    } else if crate::text::str_eq(s, "packaging") {
        Some(Category::Package)
    } else if crate::text::str_eq(s, "containers") {
        Some(Category::Container)
    } else {
        None
    }
}

/// One byte signature as the catalog loader hands it in: the pattern still in
/// its textual hex form, the byte offset at which it must occur, and a label.
#[derive(Clone, Debug, PartialEq)]
pub struct RawSignature {
    pub pattern_hex: String,
    pub offset: usize,
    pub description: String,
}

/// Mathematical model of a `RawSignature`.
pub ghost struct RawSignatureModel {
    pub pattern_hex: Seq<char>,
    pub offset: int,
    pub description: Seq<char>,
}

impl View for RawSignature {
    type V = RawSignatureModel;

    open spec fn view(&self) -> RawSignatureModel {
        RawSignatureModel {
            pattern_hex: self.pattern_hex@,
            offset: self.offset as int,
            description: self.description@,
        }
    }
}

/// One raw catalog record: an extension, the category it is declared under,
/// and the byte signatures associated with the pair (possibly none).
#[derive(Clone, Debug, PartialEq)]
pub struct RawEntry {
    pub extension: String,
    pub category: Category,
    pub signatures: Vec<RawSignature>,
}

/// Mathematical model of a `RawEntry`.
pub ghost struct RawEntryModel {
    pub extension: Seq<char>,
    pub category: Category,
    pub signatures: Seq<RawSignatureModel>,
}

impl View for RawEntry {
    type V = RawEntryModel;

    open spec fn view(&self) -> RawEntryModel {
        RawEntryModel {
            extension: self.extension@,
            category: self.category,
            signatures: self.signatures@.map_values(|s: RawSignature| s@),
        }
    }
}

/// One compiled byte signature: decoded pattern bytes, offset, and the
/// classification reported on a match.
#[derive(Clone, Debug, PartialEq)]
pub struct SignatureRecord {
    pub pattern: Vec<u8>,
    pub offset: usize,
    pub category: Category,
    pub description: String,
}

/// Mathematical model of a `SignatureRecord`.
pub ghost struct SignatureModel {
    pub pattern: Seq<u8>,
    pub offset: int,
    pub category: Category,
    pub description: Seq<char>,
}

impl View for SignatureRecord {
    type V = SignatureModel;

    open spec fn view(&self) -> SignatureModel {
        SignatureModel {
            pattern: self.pattern@,
            offset: self.offset as int,
            category: self.category,
            description: self.description@,
        }
    }
}

/// One compiled extension binding: a lowercase extension and the single
/// (category, description) pair chosen for it by priority resolution.
#[derive(Clone, Debug, PartialEq)]
pub struct ExtensionBinding {
    pub extension: String,
    pub category: Category,
    pub description: String,
}

/// Mathematical model of an `ExtensionBinding`.
pub ghost struct ExtensionBindingModel {
    pub extension: Seq<char>,
    pub category: Category,
    pub description: Seq<char>,
}

impl View for ExtensionBinding {
    type V = ExtensionBindingModel;

    open spec fn view(&self) -> ExtensionBindingModel {
        ExtensionBindingModel {
            extension: self.extension@,
            category: self.category,
            description: self.description@,
        }
    }
}

/// The two compiled artifacts, built once from the raw catalog and immutable
/// afterwards: the extension index and the length-ordered signature list.
#[derive(Clone, Debug, PartialEq)]
pub struct CompiledCatalog {
    pub extensions: Vec<ExtensionBinding>,
    pub signatures: Vec<SignatureRecord>,
}

/// Mathematical model of a `CompiledCatalog`.
pub ghost struct CompiledCatalogModel {
    pub extensions: Seq<ExtensionBindingModel>,
    pub signatures: Seq<SignatureModel>,
}

impl View for CompiledCatalog {
    type V = CompiledCatalogModel;

    open spec fn view(&self) -> CompiledCatalogModel {
        CompiledCatalogModel {
            extensions: self.extensions@.map_values(|b: ExtensionBinding| b@),
            signatures: self.signatures@.map_values(|s: SignatureRecord| s@),
        }
    }
}

/// A successful detection: the category in its canonical `archive/<kind>`
/// form, the matched record's description, and, for a signature match, the
/// matched pattern rendered as hex (empty for an extension match).
#[derive(Clone, Debug, PartialEq)]
pub struct ArchiveInfo {
    pub category: String,
    pub description: String,
    pub hexdump: String,
}

/// Mathematical model of an `ArchiveInfo`.
pub ghost struct ArchiveInfoModel {
    pub category: Seq<char>,
    pub description: Seq<char>,
    pub hexdump: Seq<char>,
}

impl View for ArchiveInfo {
    type V = ArchiveInfoModel;

    open spec fn view(&self) -> ArchiveInfoModel {
        ArchiveInfoModel {
            category: self.category@,
            description: self.description@,
            hexdump: self.hexdump@,
        }
    }
}

} // verus!
