//! Laws of the store engine.
//!
//! Each proof function here states a guarantee that spans several
//! operations — what a read yields after a write, how the defaults
//! overlay answers, that a flushed generation loads back unchanged, and
//! how a rotation moves the generations on disk.  They are proved once,
//! for every store and every input.

use vstd::prelude::*;
use crate::codec::enc_document;
use crate::error::ErrorCode;
use crate::integrity::adler32_of;
use crate::integrity::lemma_be_roundtrip;
use crate::integrity::spec_be_bytes;
use crate::integrity::spec_be_u32;
use crate::kvmap::lemma_lookup_remove;
use crate::kvmap::lemma_lookup_upsert;
use crate::kvmap::spec_lookup;
use crate::kvmap::spec_remove_key;
use crate::kvmap::spec_unique_keys;
use crate::kvmap::spec_upsert;
use crate::kvs::spec_get_value;
use crate::kvs::spec_hash_name;
use crate::kvs::spec_is_value_default;
use crate::kvs::spec_json_name;
use crate::kvs::spec_load;
use crate::kvs::spec_remove_outcome;
use crate::kvs::spec_rotate_renames;
use crate::roundtrip::lemma_store_roundtrip;
use crate::text::char_of_digit;
use crate::text::spec_decimal;
use crate::value::SpecValue;

verus! {

/// After a write, a read of the same key yields the written value, and
/// the key no longer answers with its default — whatever the defaults
/// hold.
pub proof fn lemma_set_then_get(
    store: Seq<(Seq<char>, SpecValue)>,
    defaults: Seq<(Seq<char>, SpecValue)>,
    k: Seq<char>,
    v: SpecValue,
)
    ensures
        spec_get_value(spec_upsert(store, k, v), defaults, k) == Ok::<SpecValue, ErrorCode>(v),
        spec_is_value_default(spec_upsert(store, k, v), defaults, k) == Ok::<bool, ErrorCode>(
            false,
        ),
{
    lemma_lookup_upsert(store, k, v, k);
}

/// A write leaves every other key's answer unchanged.
pub proof fn lemma_set_preserves_others(
    store: Seq<(Seq<char>, SpecValue)>,
    defaults: Seq<(Seq<char>, SpecValue)>,
    k: Seq<char>,
    v: SpecValue,
    k2: Seq<char>,
)
    requires
        k2 != k,
    ensures
        spec_get_value(spec_upsert(store, k, v), defaults, k2) == spec_get_value(
            store,
            defaults,
            k2,
        ),
{
    lemma_lookup_upsert(store, k, v, k2);
}

/// A key absent from the store but known to the defaults reads as its
/// default value and reports as defaulted.
pub proof fn lemma_default_overlay(
    store: Seq<(Seq<char>, SpecValue)>,
    defaults: Seq<(Seq<char>, SpecValue)>,
    k: Seq<char>,
    d: SpecValue,
)
    requires
        spec_lookup(store, k) is None,
        spec_lookup(defaults, k) == Some(d),
    ensures
        spec_get_value(store, defaults, k) == Ok::<SpecValue, ErrorCode>(d),
        spec_is_value_default(store, defaults, k) == Ok::<bool, ErrorCode>(true),
{
}

/// A key known to neither the store nor the defaults fails with
/// `KeyNotFound`.
pub proof fn lemma_missing_key(
    store: Seq<(Seq<char>, SpecValue)>,
    defaults: Seq<(Seq<char>, SpecValue)>,
    k: Seq<char>,
)
    requires
        spec_lookup(store, k) is None,
        spec_lookup(defaults, k) is None,
    ensures
        spec_get_value(store, defaults, k) == Err::<SpecValue, ErrorCode>(ErrorCode::KeyNotFound),
{
}

/// Removal demands a store entry: on a store-absent key it fails with
/// `KeyNotFound` and moves nothing, however the defaults answer.
pub proof fn lemma_remove_needs_store_entry(store: Seq<(Seq<char>, SpecValue)>, k: Seq<char>)
    requires
        spec_lookup(store, k) is None,
    ensures
        spec_remove_outcome(store, k) == Err::<(), ErrorCode>(ErrorCode::KeyNotFound),
        spec_remove_key(store, k) == store,
{
    assert forall|j: int| 0 <= j < store.len() implies #[trigger] store[j].0 != k by {
        if store[j].0 == k {
            lemma_first_occurrence(store, k, j);
        }
    }
    crate::kvmap::lemma_remove_absent(store, k);
}

/// After a removal, the removed key answers as if never set, other keys
/// are untouched.
pub proof fn lemma_remove_then_get(
    store: Seq<(Seq<char>, SpecValue)>,
    defaults: Seq<(Seq<char>, SpecValue)>,
    k: Seq<char>,
    k2: Seq<char>,
)
    requires
        spec_unique_keys(store),
    ensures
        spec_lookup(spec_remove_key(store, k), k) is None,
        k2 != k ==> spec_get_value(spec_remove_key(store, k), defaults, k2) == spec_get_value(
            store,
            defaults,
            k2,
        ),
{
    lemma_lookup_remove(store, k, k);
    lemma_lookup_remove(store, k, k2);
}

/// A key with some occurrence has a first occurrence.
proof fn lemma_first_occurrence(ps: Seq<(Seq<char>, SpecValue)>, k: Seq<char>, i: int)
    requires
        0 <= i < ps.len(),
        ps[i].0 == k,
    ensures
        spec_lookup(ps, k) is Some,
    decreases i,
{
    if ps[0].0 != k {
        assert(ps.skip(1)[i - 1] == ps[i]);
        lemma_first_occurrence(ps.skip(1), k, i - 1);
    }
}

/// Persistency: what a flush hands to the embedder — the encoded
/// document and its checksum bytes — loads back, with verification
/// required, to exactly the flushed store.  This backs both reopening a
/// store and restoring a snapshot.
pub proof fn lemma_flush_reload(store: Seq<(Seq<char>, SpecValue)>)
    requires
        SpecValue::wf_pairs(store),
        spec_unique_keys(store),
    ensures
        spec_load(
            Some(enc_document(store)),
            Some(spec_be_bytes(adler32_of(enc_document(store)))),
            true,
            true,
        ) == Ok::<Seq<(Seq<char>, SpecValue)>, ErrorCode>(store),
{
    let d = enc_document(store);
    lemma_be_roundtrip(adler32_of(d));
    lemma_store_roundtrip(store);
}

/// Integrity: a load that verifies against checksum bytes naming any
/// other checksum fails with `ValidationFailed` — corrupted bytes never
/// load silently.
pub proof fn lemma_corrupt_hash_rejected(d: Seq<char>, h: Seq<u8>)
    requires
        h.len() == 4,
        spec_be_u32(h) != adler32_of(d),
    ensures
        spec_load(Some(d), Some(h), true, true) == Err::<Seq<(Seq<char>, SpecValue)>, ErrorCode>(
            ErrorCode::ValidationFailed,
        ),
{
}

/// A load that requires verification and finds no checksum bytes fails
/// with `KvsHashFileReadError`.
pub proof fn lemma_missing_hash_rejected(d: Seq<char>)
    ensures
        spec_load(Some(d), None, true, true) == Err::<Seq<(Seq<char>, SpecValue)>, ErrorCode>(
            ErrorCode::KvsHashFileReadError,
        ),
{
}

/// The files on disk, by name; the model on which a rotation acts.
pub open spec fn spec_apply_renames(
    files: Map<Seq<char>, Seq<char>>,
    rs: Seq<(Seq<char>, Seq<char>)>,
) -> Map<Seq<char>, Seq<char>>
    decreases rs.len(),
{
    if rs.len() == 0 {
        files
    } else {
        let next = if files.dom().contains(rs[0].0) {
            files.remove(rs[0].0).insert(rs[0].1, files[rs[0].0])
        } else {
            files
        };
        spec_apply_renames(next, rs.skip(1))
    }
}

/// The data and hash filenames of the generations of one prefix are
/// pairwise distinct.
proof fn lemma_generation_names_distinct(p: Seq<char>, a: int, b: int)
    requires
        0 <= a < 10,
        0 <= b < 10,
    ensures
        a != b ==> spec_json_name(p, a) != spec_json_name(p, b),
        a != b ==> spec_hash_name(p, a) != spec_hash_name(p, b),
        spec_json_name(p, a) != spec_hash_name(p, b),
{
    let ja = spec_json_name(p, a);
    let jb = spec_json_name(p, b);
    let ha = spec_hash_name(p, a);
    let hb = spec_hash_name(p, b);
    assert(spec_decimal(a) == seq![char_of_digit(a)]);
    assert(spec_decimal(b) == seq![char_of_digit(b)]);
    let n = p.len() as int;
    assert(ja.len() == n + 7 && jb.len() == n + 7 && ha.len() == n + 7 && hb.len() == n + 7);
    if a != b {
        assert(ja[n + 1] == char_of_digit(a));
        assert(jb[n + 1] == char_of_digit(b));
        assert(char_of_digit(a) != char_of_digit(b));
        assert(ha[n + 1] == char_of_digit(a));
        assert(hb[n + 1] == char_of_digit(b));
    }
    assert(ja[n + 3] == 'j');
    assert(hb[n + 3] == 'h');
}

/// Rotation shifts the generations: each existing generation's files
/// move one number up, and the live generation's slot is freed.  What a
/// snapshot holds after a rotation is what the generation below held
/// before it.
pub proof fn lemma_rotation_shifts(files: Map<Seq<char>, Seq<char>>, p: Seq<char>)
    ensures
        ({
            let after = spec_apply_renames(files, spec_rotate_renames(p));
            &&& forall|g: int|
                1 <= g <= 3 && files.dom().contains(#[trigger] spec_json_name(p, g - 1))
                    ==> after.dom().contains(spec_json_name(p, g)) && after[spec_json_name(p, g)]
                    == files[spec_json_name(p, g - 1)]
            &&& forall|g: int|
                1 <= g <= 3 && files.dom().contains(#[trigger] spec_hash_name(p, g - 1))
                    ==> after.dom().contains(spec_hash_name(p, g)) && after[spec_hash_name(p, g)]
                    == files[spec_hash_name(p, g - 1)]
            &&& forall|g: int|
                1 <= g <= 3 && !files.dom().contains(#[trigger] spec_json_name(p, g - 1))
                    && !files.dom().contains(spec_json_name(p, g)) ==> !after.dom().contains(
                    spec_json_name(p, g),
                )
            &&& !after.dom().contains(spec_json_name(p, 0))
            &&& !after.dom().contains(spec_hash_name(p, 0))
        }),
{
    let rs = spec_rotate_renames(p);
    reveal_with_fuel(spec_apply_renames, 8);
    assert forall|a: int, b: int| 0 <= a < 10 && 0 <= b < 10 implies (a != b ==> spec_json_name(
        p,
        a,
    ) != spec_json_name(p, b)) && (a != b ==> spec_hash_name(p, a) != spec_hash_name(p, b)) && (
    spec_json_name(p, a) != spec_hash_name(p, b)) by {
        lemma_generation_names_distinct(p, a, b);
    }
    let f0 = files;
    let f1 = spec_apply_one(f0, rs[0]);
    let f2 = spec_apply_one(f1, rs[1]);
    let f3 = spec_apply_one(f2, rs[2]);
    let f4 = spec_apply_one(f3, rs[3]);
    let f5 = spec_apply_one(f4, rs[4]);
    let f6 = spec_apply_one(f5, rs[5]);
    assert(rs.skip(1).skip(1) =~= rs.skip(2));
    assert(rs.skip(2).skip(1) =~= rs.skip(3));
    assert(rs.skip(3).skip(1) =~= rs.skip(4));
    assert(rs.skip(4).skip(1) =~= rs.skip(5));
    assert(rs.skip(5).skip(1) =~= rs.skip(6));
    assert(rs.skip(6) =~= Seq::<(Seq<char>, Seq<char>)>::empty());
    assert(rs.skip(1)[0] == rs[1] && rs.skip(2)[0] == rs[2] && rs.skip(3)[0] == rs[3] && rs.skip(
        4,
    )[0] == rs[4] && rs.skip(5)[0] == rs[5]);
    assert(spec_apply_renames(files, rs) == f6);
}


/// Rotation touches only the generation files of its own prefix: any
/// other name keeps its presence and content.
pub proof fn lemma_rotation_frame(files: Map<Seq<char>, Seq<char>>, p: Seq<char>, w: Seq<char>)
    requires
        forall|g: int| 0 <= g <= 3 ==> w != #[trigger] spec_json_name(p, g),
        forall|g: int| 0 <= g <= 3 ==> w != #[trigger] spec_hash_name(p, g),
    ensures
        ({
            let after = spec_apply_renames(files, spec_rotate_renames(p));
            &&& after.dom().contains(w) == files.dom().contains(w)
            &&& files.dom().contains(w) ==> after[w] == files[w]
        }),
{
    let rs = spec_rotate_renames(p);
    reveal_with_fuel(spec_apply_renames, 8);
    let f0 = files;
    let f1 = spec_apply_one(f0, rs[0]);
    let f2 = spec_apply_one(f1, rs[1]);
    let f3 = spec_apply_one(f2, rs[2]);
    let f4 = spec_apply_one(f3, rs[3]);
    let f5 = spec_apply_one(f4, rs[4]);
    let f6 = spec_apply_one(f5, rs[5]);
    assert(rs.skip(1).skip(1) =~= rs.skip(2));
    assert(rs.skip(2).skip(1) =~= rs.skip(3));
    assert(rs.skip(3).skip(1) =~= rs.skip(4));
    assert(rs.skip(4).skip(1) =~= rs.skip(5));
    assert(rs.skip(5).skip(1) =~= rs.skip(6));
    assert(rs.skip(6) =~= Seq::<(Seq<char>, Seq<char>)>::empty());
    assert(rs.skip(1)[0] == rs[1] && rs.skip(2)[0] == rs[2] && rs.skip(3)[0] == rs[3] && rs.skip(
        4,
    )[0] == rs[4] && rs.skip(5)[0] == rs[5]);
    assert(spec_apply_renames(files, rs) == f6);
    assert(w != spec_hash_name(p, 2) && w != spec_hash_name(p, 3));
    assert(w != spec_json_name(p, 2) && w != spec_json_name(p, 3));
    assert(w != spec_hash_name(p, 1) && w != spec_json_name(p, 1));
    assert(w != spec_hash_name(p, 0) && w != spec_json_name(p, 0));
}


/// The effect of one flush on the data files of a prefix: the rotation
/// renames run first, then the document is written as the new live
/// generation.
pub open spec fn spec_flush_effect(
    files: Map<Seq<char>, Seq<char>>,
    p: Seq<char>,
    doc: Seq<char>,
) -> Map<Seq<char>, Seq<char>> {
    spec_apply_renames(files, spec_rotate_renames(p)).insert(spec_json_name(p, 0), doc)
}

/// The disk after flushing a sequence of documents, in order, starting
/// from an empty directory.
pub open spec fn spec_flush_seq(p: Seq<char>, docs: Seq<Seq<char>>) -> Map<Seq<char>, Seq<char>>
    decreases docs.len(),
{
    if docs.len() == 0 {
        Map::empty()
    } else {
        spec_flush_effect(spec_flush_seq(p, docs.drop_last()), p, docs.last())
    }
}

/// Bounded history: after any sequence of flushes into an empty
/// directory, generation `g` of the prefix exists exactly when at least
/// `g + 1` documents were flushed and `g` is within the snapshot
/// capacity, and it then holds the document flushed `g` flushes before
/// the last one.  Generations beyond the capacity are never written.
pub proof fn lemma_flush_history(p: Seq<char>, docs: Seq<Seq<char>>, g: int)
    requires
        0 <= g <= 9,
    ensures
        ({
            let disk = spec_flush_seq(p, docs);
            &&& (g <= 3 && g < docs.len()) ==> disk.dom().contains(spec_json_name(p, g))
                && disk[spec_json_name(p, g)] == docs[docs.len() - 1 - g]
            &&& (g > 3 || g >= docs.len()) ==> !disk.dom().contains(spec_json_name(p, g))
        }),
    decreases docs.len(),
{
    assert forall|a: int, b: int| 0 <= a < 10 && 0 <= b < 10 implies (a != b ==> spec_json_name(
        p,
        a,
    ) != spec_json_name(p, b)) && (spec_json_name(p, a) != spec_hash_name(p, b)) by {
        lemma_generation_names_distinct(p, a, b);
    }
    if docs.len() == 0 {
        assert(!spec_flush_seq(p, docs).dom().contains(spec_json_name(p, g)));
    } else {
        let prev = spec_flush_seq(p, docs.drop_last());
        let rotated = spec_apply_renames(prev, spec_rotate_renames(p));
        let disk = spec_flush_seq(p, docs);
        assert(disk == rotated.insert(spec_json_name(p, 0), docs.last()));
        lemma_rotation_shifts(prev, p);
        if g == 0 {
            assert(disk[spec_json_name(p, 0)] == docs.last());
            assert(docs.last() == docs[docs.len() - 1]);
        } else if g <= 3 {
            lemma_flush_history(p, docs.drop_last(), g - 1);
            lemma_flush_history(p, docs.drop_last(), g);
            if g < docs.len() {
                // the generation below held this document before the flush
                assert(g - 1 < docs.drop_last().len());
                assert(prev.dom().contains(spec_json_name(p, g - 1)));
                assert(prev[spec_json_name(p, g - 1)] == docs.drop_last()[docs.drop_last().len() - 1
                    - (g - 1)]);
                assert(docs.drop_last()[docs.len() - 1 - g] == docs[docs.len() - 1 - g]);
                assert(rotated.dom().contains(spec_json_name(p, g)));
                assert(rotated[spec_json_name(p, g)] == docs[docs.len() - 1 - g]);
                assert(disk[spec_json_name(p, g)] == docs[docs.len() - 1 - g]);
            } else {
                // not enough flushes yet: the slot is still empty
                assert(g - 1 >= docs.drop_last().len());
                assert(!prev.dom().contains(spec_json_name(p, g - 1)));
                assert(!prev.dom().contains(spec_json_name(p, g)));
                assert(!rotated.dom().contains(spec_json_name(p, g)));
                assert(!disk.dom().contains(spec_json_name(p, g)));
            }
        } else {
            // beyond the capacity: the rotation never names this file
            lemma_flush_history(p, docs.drop_last(), g);
            assert(!prev.dom().contains(spec_json_name(p, g)));
            lemma_rotation_frame(prev, p, spec_json_name(p, g));
            assert(!rotated.dom().contains(spec_json_name(p, g)));
            assert(!disk.dom().contains(spec_json_name(p, g)));
        }
    }
}

/// One rename: the source's content moves to the destination; a missing
/// source moves nothing.
pub open spec fn spec_apply_one(
    files: Map<Seq<char>, Seq<char>>,
    r: (Seq<char>, Seq<char>),
) -> Map<Seq<char>, Seq<char>> {
    if files.dom().contains(r.0) {
        files.remove(r.0).insert(r.1, files[r.0])
    } else {
        files
    }
}

} // verus!
