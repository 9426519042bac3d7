//! Global guarantees of the compiler and the engine, stated and proved over
//! the compiled artifacts' models.

use vstd::prelude::*;

use crate::catalog::{CompiledCatalogModel, RawEntryModel, SignatureModel, priority_rank};
use crate::compile::{
    MIN_PATTERN_LEN, entry_wf, spec_compile, spec_entry_sigs_from, spec_extension_index,
    spec_flat_sigs, spec_index_insert, spec_insert_by_len, spec_signature_list, spec_sort_by_len,
    spec_find_ext,
};
use crate::detect::{
    spec_check_magic, spec_ext_detect_from, spec_extension_info,
    spec_first_match, spec_lookup_ext, spec_sig_matches,
};
use crate::text::lower_seq;

verus! {

/// Determinism of compilation: the compiled artifacts are a pure function of
/// the raw entries — `compile_catalog` ensures its result's model is exactly
/// `spec_compile` of the input's model — so compiling the same raw catalog
/// twice yields identical artifacts.
pub proof fn lemma_compile_deterministic(
    es1: Seq<RawEntryModel>,
    es2: Seq<RawEntryModel>,
    c1: CompiledCatalogModel,
    c2: CompiledCatalogModel,
)
    requires
        es1 == es2,
        c1 == spec_compile(es1),
        c2 == spec_compile(es2),
    ensures
        c1 == c2,
{
}

/// Every record surviving per-entry compilation has a pattern of at least
/// `MIN_PATTERN_LEN` bytes.
proof fn lemma_entry_sigs_min_len(e: RawEntryModel, sigs: Seq<crate::catalog::RawSignatureModel>)
    ensures
        forall|k: int|
            0 <= k < spec_entry_sigs_from(e, sigs).len() ==> spec_entry_sigs_from(e, sigs)[k].pattern.len()
                >= MIN_PATTERN_LEN,
    decreases sigs.len(),
{
    if sigs.len() > 0 {
        lemma_entry_sigs_min_len(e, sigs.drop_last());
    }
}

/// Every record in the flattened list has a pattern of at least
/// `MIN_PATTERN_LEN` bytes.
proof fn lemma_flat_sigs_min_len(es: Seq<RawEntryModel>)
    ensures
        forall|k: int|
            0 <= k < spec_flat_sigs(es).len() ==> spec_flat_sigs(es)[k].pattern.len()
                >= MIN_PATTERN_LEN,
    decreases es.len(),
{
    if es.len() > 0 {
        lemma_flat_sigs_min_len(es.drop_last());
        if entry_wf(es.last()) {
            lemma_entry_sigs_min_len(es.last(), es.last().signatures);
        }
    }
}

/// A property of every element survives `spec_insert_by_len`.
proof fn lemma_insert_min_len(s: Seq<SignatureModel>, x: SignatureModel)
    requires
        forall|k: int| 0 <= k < s.len() ==> s[k].pattern.len() >= MIN_PATTERN_LEN,
        x.pattern.len() >= MIN_PATTERN_LEN,
    ensures
        forall|k: int|
            0 <= k < spec_insert_by_len(s, x).len() ==> spec_insert_by_len(s, x)[k].pattern.len()
                >= MIN_PATTERN_LEN,
    decreases s.len(),
{
    if s.len() > 0 && s[0].pattern.len() >= x.pattern.len() {
        lemma_insert_min_len(s.drop_first(), x);
    }
}

/// A property of every element survives the sort.
proof fn lemma_sort_min_len(s: Seq<SignatureModel>)
    requires
        forall|k: int| 0 <= k < s.len() ==> s[k].pattern.len() >= MIN_PATTERN_LEN,
    ensures
        forall|k: int|
            0 <= k < spec_sort_by_len(s).len() ==> spec_sort_by_len(s)[k].pattern.len()
                >= MIN_PATTERN_LEN,
    decreases s.len(),
{
    if s.len() > 0 {
        lemma_sort_min_len(s.drop_last());
        lemma_insert_min_len(spec_sort_by_len(s.drop_last()), s.last());
    }
}

/// Minimum pattern length: no record of the compiled signature list stems
/// from a raw signature whose pattern is shorter than `MIN_PATTERN_LEN`
/// bytes — every compiled record's pattern has at least that length.
pub proof fn lemma_min_pattern_length(es: Seq<RawEntryModel>)
    ensures
        forall|k: int|
            0 <= k < spec_signature_list(es).len() ==> spec_signature_list(es)[k].pattern.len()
                >= MIN_PATTERN_LEN,
{
    lemma_flat_sigs_min_len(es);
    lemma_sort_min_len(spec_flat_sigs(es));
}

/// The compiled signature list is ordered by descending pattern length.
pub open spec fn sorted_by_len_desc(s: Seq<SignatureModel>) -> bool {
    forall|p: int, q: int| 0 <= p < q < s.len() ==> s[p].pattern.len() >= s[q].pattern.len()
}

/// Inserting into a list ordered by descending length keeps it ordered.
proof fn lemma_insert_sorted(s: Seq<SignatureModel>, x: SignatureModel)
    requires
        sorted_by_len_desc(s),
    ensures
        sorted_by_len_desc(spec_insert_by_len(s, x)),
        spec_insert_by_len(s, x).len() == s.len() + 1,
        spec_insert_by_len(s, x)[0].pattern.len() == if s.len() > 0 && s[0].pattern.len()
            >= x.pattern.len() {
            s[0].pattern.len() as int
        } else {
            x.pattern.len() as int
        },
    decreases s.len(),
{
    if s.len() == 0 {
    } else if s[0].pattern.len() >= x.pattern.len() {
        let rest = s.drop_first();
        assert(sorted_by_len_desc(rest));
        lemma_insert_sorted(rest, x);
        let t = spec_insert_by_len(rest, x);
        let r = spec_insert_by_len(s, x);
        assert(r == seq![s[0]] + t);
        assert forall|p: int, q: int| 0 <= p < q < r.len() implies r[p].pattern.len()
            >= r[q].pattern.len() by {
            if p == 0 {
                assert(r[q] == t[q - 1]);
                if q - 1 > 0 {
                    assert(t[0].pattern.len() >= t[q - 1].pattern.len());
                }
            } else {
                assert(r[p] == t[p - 1]);
                assert(r[q] == t[q - 1]);
            }
        }
    } else {
        let r = spec_insert_by_len(s, x);
        assert(r == seq![x] + s);
        assert forall|p: int, q: int| 0 <= p < q < r.len() implies r[p].pattern.len()
            >= r[q].pattern.len() by {
            if p == 0 {
                assert(r[q] == s[q - 1]);
                if q - 1 > 0 {
                    assert(s[0].pattern.len() >= s[q - 1].pattern.len());
                }
            } else {
                assert(r[p] == s[p - 1]);
                assert(r[q] == s[q - 1]);
            }
        }
    }
}

/// The sort indeed orders by descending pattern length.
proof fn lemma_sort_sorted(s: Seq<SignatureModel>)
    ensures
        sorted_by_len_desc(spec_sort_by_len(s)),
    decreases s.len(),
{
    if s.len() > 0 {
        lemma_sort_sorted(s.drop_last());
        lemma_insert_sorted(spec_sort_by_len(s.drop_last()), s.last());
    }
}

/// The compiled signature list of any raw catalog is ordered by descending
/// pattern length.
pub proof fn lemma_signature_list_sorted(es: Seq<RawEntryModel>)
    ensures
        sorted_by_len_desc(spec_signature_list(es)),
{
    lemma_sort_sorted(spec_flat_sigs(es));
}

/// Specificity tie-break: when a record's pattern is a byte-prefix of a
/// longer record's pattern at the same offset, any buffer the longer one
/// matches is also matched by the shorter one; and when these two are the
/// only matching records, the scan reports the longer, more specific one.
pub proof fn lemma_specificity_tie_break(
    sigs: Seq<SignatureModel>,
    buf: Seq<u8>,
    i: int,
    j: int,
)
    requires
        sorted_by_len_desc(sigs),
        0 <= i < sigs.len(),
        0 <= j < sigs.len(),
        sigs[i].offset == sigs[j].offset,
        sigs[i].pattern.len() < sigs[j].pattern.len(),
        sigs[i].pattern == sigs[j].pattern.take(sigs[i].pattern.len() as int),
        spec_sig_matches(buf, sigs[j]),
        forall|k: int| 0 <= k < sigs.len() && spec_sig_matches(buf, sigs[k]) ==> k == i || k == j,
    ensures
        spec_sig_matches(buf, sigs[i]),
        spec_first_match(sigs, buf) == Some(j),
{
    let off = sigs[i].offset;
    let li = sigs[i].pattern.len() as int;
    let lj = sigs[j].pattern.len() as int;
    assert(buf.subrange(off, off + li) =~= buf.subrange(off, off + lj).take(li));
    assert(buf.subrange(off, off + li) =~= sigs[i].pattern);
    assert(spec_sig_matches(buf, sigs[i]));
    // descending order puts the longer record first
    assert(j < i) by {
        if i < j {
            assert(sigs[i].pattern.len() >= sigs[j].pattern.len());
        }
    }
    assert forall|k: int| 0 <= k < j implies !spec_sig_matches(buf, sigs[k]) by {
        if spec_sig_matches(buf, sigs[k]) {
            assert(k == i || k == j);
        }
    }
    crate::detect::lemma_first_match_of_first(sigs, buf, j);
}

/// Appending a binding leaves lookups of present extensions alone and makes
/// the new extension found only when it was absent.
proof fn lemma_find_ext_push(
    idx: Seq<crate::catalog::ExtensionBindingModel>,
    b: crate::catalog::ExtensionBindingModel,
    y: Seq<char>,
)
    ensures
        spec_find_ext(idx.push(b), y) == (match spec_find_ext(idx, y) {
            Some(k) => Some(k),
            None => if b.extension == y {
                Some(idx.len() as int)
            } else {
                None
            },
        }),
    decreases idx.len(),
{
    if idx.len() == 0 {
        assert(idx.push(b)[0] == b);
        if b.extension == y {
            assert(spec_find_ext(idx.push(b), y) == Some(0int));
        } else {
            assert(idx.push(b).drop_first().len() == 0);
            assert(spec_find_ext(idx.push(b).drop_first(), y) is None);
            assert(spec_find_ext(idx.push(b), y) is None);
        }
    } else {
        assert(idx.push(b)[0] == idx[0]);
        if idx[0].extension == y {
            assert(spec_find_ext(idx.push(b), y) == Some(0int));
            assert(spec_find_ext(idx, y) == Some(0int));
        } else {
            lemma_find_ext_push(idx.drop_first(), b, y);
            assert(idx.push(b).drop_first() =~= idx.drop_first().push(b));
            match spec_find_ext(idx.drop_first(), y) {
                Some(k) => {
                    assert(spec_find_ext(idx, y) == Some(k + 1));
                    assert(spec_find_ext(idx.drop_first().push(b), y) == Some(k));
                    assert(spec_find_ext(idx.push(b), y) == Some(k + 1));
                },
                None => {
                    assert(spec_find_ext(idx, y) is None);
                    if b.extension == y {
                        assert(spec_find_ext(idx.drop_first().push(b), y) == Some(
                            idx.drop_first().len() as int,
                        ));
                        assert(spec_find_ext(idx.push(b), y) == Some(idx.len() as int));
                    } else {
                        assert(spec_find_ext(idx.drop_first().push(b), y) is None);
                        assert(spec_find_ext(idx.push(b), y) is None);
                    }
                },
            }
        }
    }
}

/// Lookups depend only on the sequence of extensions in the index.
proof fn lemma_find_ext_same_exts(
    idx1: Seq<crate::catalog::ExtensionBindingModel>,
    idx2: Seq<crate::catalog::ExtensionBindingModel>,
    y: Seq<char>,
)
    requires
        idx1.len() == idx2.len(),
        forall|p: int| 0 <= p < idx1.len() ==> idx1[p].extension == idx2[p].extension,
    ensures
        spec_find_ext(idx1, y) == spec_find_ext(idx2, y),
    decreases idx1.len(),
{
    if idx1.len() > 0 {
        assert(idx1[0].extension == idx2[0].extension);
        lemma_find_ext_same_exts(idx1.drop_first(), idx2.drop_first(), y);
    }
}

/// Whether entry `k` of the raw catalog declares the lowercase extension `y`.
pub open spec fn declares(es: Seq<RawEntryModel>, k: int, y: Seq<char>) -> bool {
    0 <= k < es.len() && entry_wf(es[k]) && lower_seq(es[k].extension) == y
}

/// Correctness of priority resolution, for every extension at once: the index
/// binds exactly the extensions that some well-formed entry declares, the
/// chosen category is one of the declared ones, and no declared category has
/// strictly higher priority than the chosen one.
pub proof fn lemma_index_correct(es: Seq<RawEntryModel>, y: Seq<char>)
    ensures
        match spec_lookup_ext(spec_extension_index(es), y) {
            None => forall|k: int| !declares(es, k, y),
            Some(b) => {
                &&& b.extension == y
                &&& exists|k: int| declares(es, k, y) && es[k].category == b.category
                &&& forall|k: int|
                    declares(es, k, y) ==> priority_rank(b.category) <= priority_rank(
                        es[k].category,
                    )
            },
        },
    decreases es.len(),
{
    if es.len() == 0 {
    } else {
        let es0 = es.drop_last();
        let e = es.last();
        let idx0 = spec_extension_index(es0);
        let idx = spec_extension_index(es);
        lemma_index_correct(es0, y);
        assert(forall|k: int| 0 <= k < es0.len() ==> es0[k] == es[k]);
        assert(forall|k: int| declares(es0, k, y) ==> declares(es, k, y));
        assert(forall|k: int| declares(es, k, y) && k < es.len() - 1 ==> declares(es0, k, y));
        if !entry_wf(e) {
            assert(idx == idx0);
            assert(!declares(es, es.len() - 1, y));
        } else {
            let b = crate::compile::spec_binding_of(e)->0;
            assert(idx == spec_index_insert(idx0, b));
            if lower_seq(e.extension) == y {
                assert(declares(es, es.len() - 1, y));
                assert(b.extension == y);
                match spec_find_ext(idx0, y) {
                    None => {
                        lemma_find_ext_push(idx0, b, y);
                        assert(spec_find_ext(idx, y) == Some(idx0.len() as int));
                        assert(idx == idx0.push(b));
                        assert(idx[idx0.len() as int] == b);
                        assert(es[es.len() - 1].category == b.category);
                    },
                    Some(k0) => {
                        crate::compile::lemma_find_ext_characterization(idx0, y);
                        let old_b = idx0[k0];
                        if priority_rank(b.category) < priority_rank(old_b.category) {
                            let idx2 = idx0.update(k0, b);
                            assert(idx == idx2);
                            lemma_find_ext_same_exts(idx0, idx2, y);
                            assert(spec_find_ext(idx, y) == Some(k0));
                            assert(idx[k0] == b);
                            assert(es[es.len() - 1].category == b.category);
                            assert forall|k: int|
                                declares(es, k, y) implies priority_rank(b.category)
                                <= priority_rank(es[k].category) by {
                                if k < es.len() - 1 {
                                    assert(declares(es0, k, y));
                                    assert(priority_rank(old_b.category) <= priority_rank(
                                        es[k].category,
                                    ));
                                }
                            }
                        } else {
                            assert(idx == idx0);
                            assert(spec_lookup_ext(idx, y) == Some(old_b));
                            assert forall|k: int|
                                declares(es, k, y) implies priority_rank(old_b.category)
                                <= priority_rank(es[k].category) by {
                                if k < es.len() - 1 {
                                    assert(declares(es0, k, y));
                                }
                            }
                        }
                    },
                }
            } else {
                assert(!declares(es, es.len() - 1, y));
                match spec_find_ext(idx0, b.extension) {
                    None => {
                        lemma_find_ext_push(idx0, b, y);
                        assert(idx == idx0.push(b));
                        assert(spec_find_ext(idx, y) == spec_find_ext(idx0, y));
                        match spec_find_ext(idx0, y) {
                            None => {},
                            Some(k) => {
                                crate::compile::lemma_find_ext_characterization(idx0, y);
                                assert(0 <= k < idx0.len());
                                assert(idx[k] == idx0[k]);
                            },
                        }
                    },
                    Some(k0) => {
                        crate::compile::lemma_find_ext_characterization(idx0, b.extension);
                        if priority_rank(b.category) < priority_rank(idx0[k0].category) {
                            let idx2 = idx0.update(k0, b);
                            assert(idx == idx2);
                            lemma_find_ext_same_exts(idx0, idx2, y);
                            match spec_find_ext(idx0, y) {
                                None => {},
                                Some(k) => {
                                    crate::compile::lemma_find_ext_characterization(idx0, y);
                                    assert(0 <= k < idx0.len());
                                    assert(idx0[k0].extension == b.extension);
                                    assert(idx0[k].extension == y);
                                    assert(k != k0);
                                    assert(idx[k] == idx0[k]);
                                },
                            }
                        } else {
                            assert(idx == idx0);
                        }
                    },
                }
            }
        }
    }
}

/// Priority resolution: when an extension is declared under more than one
/// category, the compiled index chooses a declared category of maximal
/// priority — in particular, an extension declared under both `package` and
/// `container` is bound to `package`.
pub proof fn lemma_priority_resolution(es: Seq<RawEntryModel>, y: Seq<char>, i: int)
    requires
        declares(es, i, y),
    ensures
        spec_lookup_ext(spec_extension_index(es), y) is Some,
        ({
            let b = spec_lookup_ext(spec_extension_index(es), y)->0;
            &&& exists|k: int| declares(es, k, y) && es[k].category == b.category
            &&& forall|k: int|
                declares(es, k, y) ==> priority_rank(b.category) <= priority_rank(es[k].category)
        }),
{
    lemma_index_correct(es, y);
    if spec_lookup_ext(spec_extension_index(es), y) is None {
        assert(!declares(es, i, y));
    }
}

/// Compound suffix preference: the extension tier reports the suffix starting
/// at the earliest dot the index knows — the longest known suffix. When the
/// suffix at dot position `i` is known, the report comes from a dot position
/// no later than `i`, with every earlier dot's suffix unknown to the index.
pub proof fn lemma_compound_suffix_preference(
    idx: Seq<crate::catalog::ExtensionBindingModel>,
    name: Seq<char>,
    i: int,
)
    requires
        0 <= i < name.len(),
        name[i] == '.',
        spec_lookup_ext(idx, lower_seq(name.skip(i))) is Some,
    ensures
        exists|k: int|
            {
                &&& 0 <= k <= i
                &&& name[k] == '.'
                &&& spec_lookup_ext(idx, lower_seq(name.skip(k))) is Some
                &&& spec_ext_detect_from(idx, name, 0) == Some(
                    spec_extension_info(spec_lookup_ext(idx, lower_seq(name.skip(k)))->0),
                )
                &&& forall|m: int|
                    0 <= m < k ==> !(name[m] == '.' && spec_lookup_ext(
                        idx,
                        lower_seq(name.skip(m)),
                    ) is Some)
            },
{
    lemma_ext_detect_hits(idx, name, 0, i);
}

/// Helper induction for `lemma_compound_suffix_preference`, from position `p`.
proof fn lemma_ext_detect_hits(
    idx: Seq<crate::catalog::ExtensionBindingModel>,
    name: Seq<char>,
    p: int,
    i: int,
)
    requires
        0 <= p <= i < name.len(),
        name[i] == '.',
        spec_lookup_ext(idx, lower_seq(name.skip(i))) is Some,
    ensures
        exists|k: int|
            {
                &&& p <= k <= i
                &&& name[k] == '.'
                &&& spec_lookup_ext(idx, lower_seq(name.skip(k))) is Some
                &&& spec_ext_detect_from(idx, name, p) == Some(
                    spec_extension_info(spec_lookup_ext(idx, lower_seq(name.skip(k)))->0),
                )
                &&& forall|m: int|
                    p <= m < k ==> !(name[m] == '.' && spec_lookup_ext(
                        idx,
                        lower_seq(name.skip(m)),
                    ) is Some)
            },
    decreases i - p,
{
    if name[p] == '.' && spec_lookup_ext(idx, lower_seq(name.skip(p))) is Some {
        let k = p;
        assert({
            &&& p <= k <= i
            &&& name[k] == '.'
            &&& spec_lookup_ext(idx, lower_seq(name.skip(k))) is Some
            &&& spec_ext_detect_from(idx, name, p) == Some(
                spec_extension_info(spec_lookup_ext(idx, lower_seq(name.skip(k)))->0),
            )
            &&& forall|m: int|
                p <= m < k ==> !(name[m] == '.' && spec_lookup_ext(
                    idx,
                    lower_seq(name.skip(m)),
                ) is Some)
        });
    } else {
        lemma_ext_detect_hits(idx, name, p + 1, i);
        let k = choose|k: int|
            {
                &&& p + 1 <= k <= i
                &&& name[k] == '.'
                &&& spec_lookup_ext(idx, lower_seq(name.skip(k))) is Some
                &&& spec_ext_detect_from(idx, name, p + 1) == Some(
                    spec_extension_info(spec_lookup_ext(idx, lower_seq(name.skip(k)))->0),
                )
                &&& forall|m: int|
                    p + 1 <= m < k ==> !(name[m] == '.' && spec_lookup_ext(
                        idx,
                        lower_seq(name.skip(m)),
                    ) is Some)
            };
        assert(spec_ext_detect_from(idx, name, p) == spec_ext_detect_from(idx, name, p + 1));
        assert({
            &&& p <= k <= i
            &&& name[k] == '.'
            &&& spec_lookup_ext(idx, lower_seq(name.skip(k))) is Some
            &&& spec_ext_detect_from(idx, name, p) == Some(
                spec_extension_info(spec_lookup_ext(idx, lower_seq(name.skip(k)))->0),
            )
            &&& forall|m: int|
                p <= m < k ==> !(name[m] == '.' && spec_lookup_ext(
                    idx,
                    lower_seq(name.skip(m)),
                ) is Some)
        });
    }
}

/// Signature precedence over extension: whenever the signature tier matches,
/// the composed detection reports exactly its result, whatever the filename.
pub proof fn lemma_signature_precedence(c: CompiledCatalogModel, buf: Seq<u8>, name: Seq<char>)
    requires
        spec_check_magic(c, buf) is Some,
    ensures
        crate::spec_analyze(c, buf, name) == spec_check_magic(c, buf),
{
}

} // verus!
