//! The catalog compiler: turns the raw catalog into the two compiled
//! artifacts.
//!
//! Compilation is a pure function of the raw catalog, so the artifacts are
//! identical across runs. A record is dropped when its hex pattern is
//! malformed or decodes to fewer than two bytes, and an entry is dropped
//! whole when its extension does not start with a dot; neither aborts the
//! compilation. When the same lowercase extension is declared under several
//! categories, the one with the highest fixed priority wins, the earliest
//! declaration winning ties.

use vstd::prelude::*;

use crate::catalog::{
    CompiledCatalog, CompiledCatalogModel, ExtensionBinding, ExtensionBindingModel, RawEntry,
    RawEntryModel, RawSignatureModel, SignatureModel, SignatureRecord, category_rank,
    priority_rank,
};
use crate::hex::{parse_hex_pattern, spec_parse_hex};
use crate::text::{lower_seq, lowercase_str};
use vstd::string::StringExecFns;

verus! {

/// Model of a sequence of raw entries.
pub open spec fn spec_entries_view(es: Seq<RawEntry>) -> Seq<RawEntryModel> {
    es.map_values(|e: RawEntry| e@)
}

/// Model of a sequence of compiled signature records.
pub open spec fn spec_sigs_view(v: Seq<SignatureRecord>) -> Seq<SignatureModel> {
    v.map_values(|s: SignatureRecord| s@)
}

/// Model of a sequence of extension bindings.
pub open spec fn spec_bindings_view(v: Seq<ExtensionBinding>) -> Seq<ExtensionBindingModel> {
    v.map_values(|b: ExtensionBinding| b@)
}

/// An entry takes part in compilation only when its extension starts with a
/// dot; anything else is a malformed record and is skipped.
pub open spec fn entry_wf(e: RawEntryModel) -> bool {
    e.extension.len() > 0 && e.extension[0] == '.'
}

/// Description used when the catalog offers none: `<extension> archive`.
pub open spec fn spec_default_description(ext_lower: Seq<char>) -> Seq<char> {
    ext_lower + " archive"@
}

/// Patterns shorter than this many bytes are dropped at compile time: they
/// are too weak to be reliable magic numbers.
pub const MIN_PATTERN_LEN: usize = 2;

/// The compiled record of one raw signature, or `None` when the record is
/// dropped (malformed hex, or a pattern shorter than `MIN_PATTERN_LEN`).
pub open spec fn spec_sig_of(e: RawEntryModel, s: RawSignatureModel) -> Option<SignatureModel> {
    match spec_parse_hex(s.pattern_hex) {
        None => None,
        Some(bytes) => if bytes.len() >= MIN_PATTERN_LEN {
            Some(
                SignatureModel {
                    pattern: bytes,
                    offset: s.offset,
                    category: e.category,
                    description: if s.description.len() > 0 {
                        s.description
                    } else {
                        spec_default_description(lower_seq(e.extension))
                    },
                },
            )
        } else {
            None
        },
    }
}

/// The surviving compiled records of the first `sigs` raw signatures of an
/// entry, in catalog order.
pub open spec fn spec_entry_sigs_from(e: RawEntryModel, sigs: Seq<RawSignatureModel>) -> Seq<
    SignatureModel,
>
    decreases sigs.len(),
{
    if sigs.len() == 0 {
        Seq::empty()
    } else {
        spec_entry_sigs_from(e, sigs.drop_last()) + match spec_sig_of(e, sigs.last()) {
            None => Seq::<SignatureModel>::empty(),
            Some(m) => seq![m],
        }
    }
}

/// The surviving compiled records of one entry, in catalog order.
pub open spec fn spec_entry_sigs(e: RawEntryModel) -> Seq<SignatureModel> {
    if entry_wf(e) {
        spec_entry_sigs_from(e, e.signatures)
    } else {
        Seq::empty()
    }
}

/// All surviving records of all entries, flattened in catalog order.
pub open spec fn spec_flat_sigs(es: Seq<RawEntryModel>) -> Seq<SignatureModel>
    decreases es.len(),
{
    if es.len() == 0 {
        Seq::empty()
    } else {
        spec_flat_sigs(es.drop_last()) + spec_entry_sigs(es.last())
    }
}

/// Insertion of one record into a list already ordered by descending pattern
/// length: the record goes after every record at least as long, so records of
/// equal length keep their catalog order.
pub open spec fn spec_insert_by_len(s: Seq<SignatureModel>, x: SignatureModel) -> Seq<
    SignatureModel,
>
    decreases s.len(),
{
    if s.len() == 0 {
        seq![x]
    } else if s[0].pattern.len() >= x.pattern.len() {
        seq![s[0]] + spec_insert_by_len(s.drop_first(), x)
    } else {
        seq![x] + s
    }
}

/// Stable sort by descending pattern length: longer, more specific patterns
/// come first; equal lengths keep catalog order.
pub open spec fn spec_sort_by_len(s: Seq<SignatureModel>) -> Seq<SignatureModel>
    decreases s.len(),
{
    if s.len() == 0 {
        Seq::empty()
    } else {
        spec_insert_by_len(spec_sort_by_len(s.drop_last()), s.last())
    }
}

/// The compiled signature list of a raw catalog.
pub open spec fn spec_signature_list(es: Seq<RawEntryModel>) -> Seq<SignatureModel> {
    spec_sort_by_len(spec_flat_sigs(es))
}

/// The extension binding an entry contributes to the index, or `None` when
/// the entry is skipped.
pub open spec fn spec_binding_of(e: RawEntryModel) -> Option<ExtensionBindingModel> {
    if !entry_wf(e) {
        None
    } else {
        let sigs = spec_entry_sigs(e);
        Some(
            ExtensionBindingModel {
                extension: lower_seq(e.extension),
                category: e.category,
                description: if sigs.len() > 0 {
                    sigs[0].description
                } else {
                    spec_default_description(lower_seq(e.extension))
                },
            },
        )
    }
}

/// Position of the first binding for `ext` in the index, if any.
pub open spec fn spec_find_ext(idx: Seq<ExtensionBindingModel>, ext: Seq<char>) -> Option<int>
    decreases idx.len(),
{
    if idx.len() == 0 {
        None
    } else if idx[0].extension == ext {
        Some(0)
    } else {
        match spec_find_ext(idx.drop_first(), ext) {
            None => None,
            Some(k) => Some(k + 1),
        }
    }
}

/// Priority resolution: a binding for a new extension is appended; a binding
/// for an already-present extension replaces the old one only when its
/// category has strictly higher priority.
pub open spec fn spec_index_insert(
    idx: Seq<ExtensionBindingModel>,
    b: ExtensionBindingModel,
) -> Seq<ExtensionBindingModel> {
    match spec_find_ext(idx, b.extension) {
        None => idx.push(b),
        Some(k) => if priority_rank(b.category) < priority_rank(idx[k].category) {
            idx.update(k, b)
        } else {
            idx
        },
    }
}

/// One compilation step of the extension index.
pub open spec fn spec_index_step(
    idx: Seq<ExtensionBindingModel>,
    e: RawEntryModel,
) -> Seq<ExtensionBindingModel> {
    match spec_binding_of(e) {
        None => idx,
        Some(b) => spec_index_insert(idx, b),
    }
}

/// The compiled extension index of a raw catalog, entries processed in
/// catalog order.
pub open spec fn spec_extension_index(es: Seq<RawEntryModel>) -> Seq<ExtensionBindingModel>
    decreases es.len(),
{
    if es.len() == 0 {
        Seq::empty()
    } else {
        spec_index_step(spec_extension_index(es.drop_last()), es.last())
    }
}

/// The two compiled artifacts of a raw catalog.
pub open spec fn spec_compile(es: Seq<RawEntryModel>) -> CompiledCatalogModel {
    CompiledCatalogModel {
        extensions: spec_extension_index(es),
        signatures: spec_signature_list(es),
    }
}

/// The surviving compiled records of one raw entry, in catalog order.
fn entry_signatures(e: &RawEntry) -> (r: Vec<SignatureRecord>)
    ensures
        spec_sigs_view(r@) == spec_entry_sigs_from(e@, e@.signatures),
{
    let mut r: Vec<SignatureRecord> = Vec::new();
    let mut j: usize = 0;
    proof {
        assert(e@.signatures.take(0) =~= Seq::<RawSignatureModel>::empty());
        assert(spec_sigs_view(r@) =~= Seq::<SignatureModel>::empty());
    }
    while j < e.signatures.len()
        invariant
            j <= e.signatures.len(),
            e@.signatures.len() == e.signatures.len(),
            spec_sigs_view(r@) == spec_entry_sigs_from(e@, e@.signatures.take(j as int)),
        decreases e.signatures.len() - j,
    {
        let sig = &e.signatures[j];
        proof {
            assert(e@.signatures.take(j + 1 as int).drop_last() =~= e@.signatures.take(j as int));
            assert(e@.signatures.take(j + 1 as int).last() == e@.signatures[j as int]);
            assert(e@.signatures[j as int] == sig@);
        }
        match parse_hex_pattern(sig.pattern_hex.as_str()) {
            None => {},
            Some(bytes) => {
                if bytes.len() >= MIN_PATTERN_LEN {
                    let description = if sig.description.as_str().is_empty() {
                        lowercase_str(e.extension.as_str()).concat(" archive")
                    } else {
                        sig.description.clone()
                    };
                    let rec = SignatureRecord {
                        pattern: bytes,
                        offset: sig.offset,
                        category: e.category,
                        description,
                    };
                    proof {
                        assert(spec_sig_of(e@, sig@) == Some(rec@));
                    }
                    r.push(rec);
                    proof {
                        assert(spec_sigs_view(r@) =~= spec_entry_sigs_from(
                            e@,
                            e@.signatures.take(j + 1 as int),
                        ));
                    }
                } else {
                    proof {
                        assert(spec_sig_of(e@, sig@) is None);
                    }
                }
            },
        }
        proof {
            assert(spec_sigs_view(r@) =~= spec_entry_sigs_from(
                e@,
                e@.signatures.take(j + 1 as int),
            ));
        }
        j = j + 1;
    }
    proof {
        assert(e@.signatures.take(e.signatures.len() as int) =~= e@.signatures);
    }
    r
}

/// `spec_find_ext` yields exactly the first position whose extension matches.
pub proof fn lemma_find_ext_characterization(idx: Seq<ExtensionBindingModel>, ext: Seq<char>)
    ensures
        match spec_find_ext(idx, ext) {
            None => forall|j: int| 0 <= j < idx.len() ==> idx[j].extension != ext,
            Some(k) => 0 <= k < idx.len() && idx[k].extension == ext && forall|j: int|
                0 <= j < k ==> idx[j].extension != ext,
        },
    decreases idx.len(),
{
    if idx.len() > 0 && idx[0].extension != ext {
        let rest = idx.drop_first();
        lemma_find_ext_characterization(rest, ext);
        assert(forall|j: int| 0 <= j < rest.len() ==> rest[j] == idx[j + 1]);
        match spec_find_ext(rest, ext) {
            None => {
                assert forall|j: int| 0 <= j < idx.len() implies idx[j].extension != ext by {
                    if j > 0 {
                        assert(idx[j] == rest[j - 1]);
                    }
                }
            },
            Some(k) => {
                assert(idx[k + 1] == rest[k]);
                assert forall|j: int| 0 <= j < k + 1 implies idx[j].extension != ext by {
                    if j > 0 {
                        assert(idx[j] == rest[j - 1]);
                    }
                }
            },
        }
    }
}

/// The converse: the first matching position determines `spec_find_ext`.
proof fn lemma_find_ext_of_first_match(idx: Seq<ExtensionBindingModel>, ext: Seq<char>, k: int)
    requires
        0 <= k < idx.len(),
        idx[k].extension == ext,
        forall|j: int| 0 <= j < k ==> idx[j].extension != ext,
    ensures
        spec_find_ext(idx, ext) == Some(k),
    decreases idx.len(),
{
    if k > 0 {
        lemma_find_ext_of_first_match(idx.drop_first(), ext, k - 1);
    }
}

/// And when nothing matches, `spec_find_ext` yields `None`.
proof fn lemma_find_ext_of_no_match(idx: Seq<ExtensionBindingModel>, ext: Seq<char>)
    requires
        forall|j: int| 0 <= j < idx.len() ==> idx[j].extension != ext,
    ensures
        spec_find_ext(idx, ext) is None,
    decreases idx.len(),
{
    if idx.len() > 0 {
        lemma_find_ext_of_no_match(idx.drop_first(), ext);
    }
}

/// Position of the first binding for `ext` in the index, if any.
pub(crate) fn find_extension(idx: &Vec<ExtensionBinding>, ext: &str) -> (r: Option<usize>)
    ensures
        match r {
            None => spec_find_ext(spec_bindings_view(idx@), ext@) is None,
            Some(k) => k < idx@.len() && spec_find_ext(spec_bindings_view(idx@), ext@) == Some(
                k as int,
            ),
        },
{
    let mut i: usize = 0;
    while i < idx.len()
        invariant
            i <= idx.len(),
            forall|j: int| 0 <= j < i ==> spec_bindings_view(idx@)[j].extension != ext@,
        decreases idx.len() - i,
    {
        if crate::text::str_eq(idx[i].extension.as_str(), ext) {
            proof {
                lemma_find_ext_of_first_match(spec_bindings_view(idx@), ext@, i as int);
            }
            return Some(i);
        }
        i = i + 1;
    }
    proof {
        lemma_find_ext_of_no_match(spec_bindings_view(idx@), ext@);
    }
    None
}

/// Inserting into a list ordered by descending pattern length at the first
/// position whose record is strictly shorter realizes `spec_insert_by_len`.
proof fn lemma_insert_at_position(s: Seq<SignatureModel>, x: SignatureModel, p: int)
    requires
        0 <= p <= s.len(),
        forall|q: int| 0 <= q < p ==> s[q].pattern.len() >= x.pattern.len(),
        p < s.len() ==> s[p].pattern.len() < x.pattern.len(),
    ensures
        spec_insert_by_len(s, x) == s.insert(p, x),
    decreases s.len(),
{
    if p == 0 {
        if s.len() == 0 {
            assert(spec_insert_by_len(s, x) =~= s.insert(0, x));
        } else {
            assert(spec_insert_by_len(s, x) =~= s.insert(0, x));
        }
    } else {
        lemma_insert_at_position(s.drop_first(), x, p - 1);
        assert(spec_insert_by_len(s, x) == seq![s[0]] + spec_insert_by_len(s.drop_first(), x));
        assert(spec_insert_by_len(s, x) =~= s.insert(p, x));
    }
}

/// Sorts the flattened records by descending pattern length, stably.
fn sort_signatures(v: Vec<SignatureRecord>) -> (r: Vec<SignatureRecord>)
    ensures
        spec_sigs_view(r@) == spec_sort_by_len(spec_sigs_view(v@)),
{
    let ghost orig: Seq<SignatureModel> = spec_sigs_view(v@);
    let mut v = v;
    let total = v.len();
    proof {
        assert(orig.len() == total as int);
    }
    let mut out: Vec<SignatureRecord> = Vec::new();
    let mut i: usize = 0;
    proof {
        assert(orig.take(0) =~= Seq::<SignatureModel>::empty());
        assert(spec_sigs_view(out@) =~= Seq::<SignatureModel>::empty());
    }
    while v.len() > 0
        invariant
            i <= orig.len(),
            orig.len() <= usize::MAX,
            i + v@.len() == orig.len(),
            spec_sigs_view(v@) =~= orig.skip(i as int),
            spec_sigs_view(out@) == spec_sort_by_len(orig.take(i as int)),
        decreases v.len(),
    {
        proof {
            assert(orig.skip(i as int).len() == v@.len());
        }
        let ghost vprev: Seq<SignatureRecord> = v@;
        let x = v.remove(0);
        proof {
            assert(spec_sigs_view(vprev)[0] == vprev[0]@);
            assert(x@ == orig.skip(i as int)[0]);
            assert(x@ == orig[i as int]);
            assert forall|j: int| 0 <= j < v@.len() implies spec_sigs_view(v@)[j] == orig.skip(
                i + 1 as int,
            )[j] by {
                assert(v@[j] == vprev[j + 1]);
                assert(spec_sigs_view(vprev)[j + 1] == vprev[j + 1]@);
                assert(orig.skip(i as int)[j + 1] == orig[i + 1 + j]);
            }
            assert(spec_sigs_view(v@) =~= orig.skip(i + 1 as int));
        }
        // find the first position whose record is strictly shorter
        let mut p: usize = 0;
        while p < out.len() && out[p].pattern.len() >= x.pattern.len()
            invariant
                p <= out.len(),
                forall|q: int|
                    0 <= q < p ==> spec_sigs_view(out@)[q].pattern.len() >= x@.pattern.len(),
            decreases out.len() - p,
        {
            p = p + 1;
        }
        proof {
            lemma_insert_at_position(spec_sigs_view(out@), x@, p as int);
        }
        let ghost old_out: Seq<SignatureModel> = spec_sigs_view(out@);
        out.insert(p, x);
        proof {
            assert(spec_sigs_view(out@) =~= old_out.insert(p as int, x@));
            assert(orig.take(i + 1 as int).drop_last() =~= orig.take(i as int));
            assert(orig.take(i + 1 as int).last() == orig[i as int]);
            assert(spec_sigs_view(out@) == spec_sort_by_len(orig.take(i + 1 as int)));
        }
        i = i + 1;
    }
    proof {
        assert(orig.skip(i as int).len() == 0);
        assert(i == orig.len());
        assert(orig.take(i as int) =~= orig);
    }
    out
}

/// Compiles a raw catalog into the extension index and the signature list.
///
/// The result is a pure function of the raw entries, so compiling the same
/// catalog twice yields identical artifacts.
pub fn compile_catalog(entries: &Vec<RawEntry>) -> (r: CompiledCatalog)
    ensures
        r@ == spec_compile(spec_entries_view(entries@)),
{
    let ghost es: Seq<RawEntryModel> = spec_entries_view(entries@);
    let mut extensions: Vec<ExtensionBinding> = Vec::new();
    let mut flat: Vec<SignatureRecord> = Vec::new();
    let mut i: usize = 0;
    proof {
        assert(es.take(0) =~= Seq::<RawEntryModel>::empty());
        assert(spec_bindings_view(extensions@) =~= Seq::<ExtensionBindingModel>::empty());
        assert(spec_sigs_view(flat@) =~= Seq::<SignatureModel>::empty());
    }
    while i < entries.len()
        invariant
            i <= entries.len(),
            es.len() == entries@.len(),
            es == spec_entries_view(entries@),
            spec_bindings_view(extensions@) == spec_extension_index(es.take(i as int)),
            spec_sigs_view(flat@) == spec_flat_sigs(es.take(i as int)),
        decreases entries.len() - i,
    {
        let e = &entries[i];
        proof {
            assert(es[i as int] == e@);
            assert(es.take(i + 1 as int).drop_last() =~= es.take(i as int));
            assert(es.take(i + 1 as int).last() == es[i as int]);
        }
        let wf = e.extension.as_str().unicode_len() > 0 && e.extension.as_str().get_char(0) == '.';
        if wf {
            let mut esigs = entry_signatures(e);
            let ext_lower = lowercase_str(e.extension.as_str());
            let description = if esigs.len() > 0 {
                esigs[0].description.clone()
            } else {
                ext_lower.clone().concat(" archive")
            };
            let binding = ExtensionBinding { extension: ext_lower, category: e.category, description };
            proof {
                assert(spec_binding_of(e@) == Some(binding@));
            }
            let ghost old_idx: Seq<ExtensionBindingModel> = spec_bindings_view(extensions@);
            match find_extension(&extensions, binding.extension.as_str()) {
                None => {
                    extensions.push(binding);
                    proof {
                        assert(spec_bindings_view(extensions@) =~= old_idx.push(binding@));
                    }
                },
                Some(k) => {
                    proof {
                        assert(old_idx[k as int] == extensions@[k as int]@);
                    }
                    if category_rank(binding.category) < category_rank(extensions[k].category) {
                        let _ = extensions.remove(k);
                        extensions.insert(k, binding);
                        proof {
                            assert(spec_bindings_view(extensions@) =~= old_idx.update(
                                k as int,
                                binding@,
                            ));
                        }
                    } else {
                        proof {
                            assert(priority_rank(binding@.category) >= priority_rank(
                                old_idx[k as int].category,
                            ));
                            assert(spec_index_insert(old_idx, binding@) == old_idx);
                        }
                    }
                },
            }
            let ghost old_flat: Seq<SignatureModel> = spec_sigs_view(flat@);
            flat.append(&mut esigs);
            proof {
                assert(spec_sigs_view(flat@) =~= old_flat + spec_entry_sigs(es[i as int]));
            }
        } else {
            proof {
                assert(!entry_wf(e@));
                assert(spec_entry_sigs(es[i as int]) =~= Seq::<SignatureModel>::empty());
                assert(spec_sigs_view(flat@) =~= spec_flat_sigs(es.take(i as int)) + spec_entry_sigs(
                    es[i as int],
                ));
            }
        }
        proof {
            assert(spec_bindings_view(extensions@) == spec_extension_index(es.take(i + 1 as int)));
            assert(spec_sigs_view(flat@) == spec_flat_sigs(es.take(i + 1 as int)));
        }
        i = i + 1;
    }
    proof {
        assert(es.take(entries@.len() as int) =~= es);
    }
    let signatures = sort_signatures(flat);
    CompiledCatalog { extensions, signatures }
}

} // verus!
