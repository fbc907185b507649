//! The store engine: the in-memory key-value mapping with its immutable
//! defaults overlay, loading with integrity verification, serialization
//! for flushing, and the bounded snapshot scheme.
//!
//! The engine works on plain values.  Its embedder reads the files of a
//! generation and hands their contents in; it receives encoded documents,
//! checksum bytes and rename plans back and carries them to disk.  Every
//! decision — which error a load yields, what a flush writes, which
//! snapshot identifiers are valid — is made and verified here.

use vstd::prelude::*;
use crate::codec::enc_document;
use crate::codec::spec_parse_document;
use crate::error::ErrorCode;
use crate::integrity::adler32_of;
use crate::integrity::spec_be_bytes;
use crate::integrity::spec_be_u32;
use crate::kvmap::KvMap;
use crate::kvmap::spec_dedup;
use crate::kvmap::spec_lookup;
use crate::kvmap::spec_remove_key;
use crate::kvmap::spec_upsert;
use crate::text::chars_to_string;
use crate::text::push_decimal;
use crate::text::spec_decimal;
use crate::value::SpecValue;
use crate::value::Value;

verus! {

/// Maximum number of historical snapshot generations.
pub const KVS_MAX_SNAPSHOTS: usize = 3;

/// Instance ID: selects the on-disk filename prefix of a store.
pub struct InstanceId(usize);

impl InstanceId {
    /// The numeric identity.
    pub closed spec fn view(self) -> int {
        self.0 as int
    }

    /// Create a new instance ID.
    pub fn new(id: usize) -> (r: Self)
        ensures
            r@ == id,
    {
        InstanceId(id)
    }

    /// The numeric identity.
    pub fn value(&self) -> (r: usize)
        ensures
            r == self@,
    {
        self.0
    }
}

/// Snapshot ID: 0 is the live generation, 1 and beyond are history.
pub struct SnapshotId(usize);

impl SnapshotId {
    /// The numeric identity.
    pub closed spec fn view(self) -> int {
        self.0 as int
    }

    /// Create a new Snapshot ID.
    pub fn new(id: usize) -> (r: Self)
        ensures
            r@ == id,
    {
        SnapshotId(id)
    }

    /// The numeric identity.
    pub fn value(&self) -> (r: usize)
        ensures
            r == self@,
    {
        self.0
    }
}

/// Need-Defaults flag
pub enum OpenNeedDefaults {
    /// Optional: Open defaults only if available
    Optional,
    /// Required: Defaults must be available
    Required,
}

/// Need-KVS flag
pub enum OpenNeedKvs {
    /// Optional: Use an empty KVS if no KVS is available
    Optional,
    /// Required: KVS must already exist
    Required,
}

/// The text of an optional file, as the embedder read it.
pub open spec fn view_opt_text(o: Option<String>) -> Option<Seq<char>> {
    match o {
        Some(s) => Some(s@),
        None => None,
    }
}

/// The bytes of an optional file, as the embedder read them.
pub open spec fn view_opt_bytes(o: Option<Vec<u8>>) -> Option<Seq<u8>> {
    match o {
        Some(b) => Some(b@),
        None => None,
    }
}

/// What loading a JSON document with optional integrity verification
/// yields: the entries of the store, or the error of the first failing
/// step.  `data` and `hash` are the contents of the data and hash files,
/// absent when the file could not be read.
pub open spec fn spec_load(
    data: Option<Seq<char>>,
    hash: Option<Seq<u8>>,
    required: bool,
    verify: bool,
) -> Result<Seq<(Seq<char>, SpecValue)>, ErrorCode> {
    match data {
        None => if required {
            Err(ErrorCode::FileNotFound)
        } else {
            Ok(Seq::empty())
        },
        Some(d) => {
            if verify {
                match hash {
                    None => Err(ErrorCode::KvsHashFileReadError),
                    Some(h) => if h.len() != 4 {
                        Err(ErrorCode::ValidationFailed)
                    } else if spec_be_u32(h) != adler32_of(d) {
                        Err(ErrorCode::ValidationFailed)
                    } else {
                        spec_parse_store(d)
                    },
                }
            } else {
                spec_parse_store(d)
            }
        }
    }
}

/// Parsing step of a load: the document must be a JSON object; a later
/// entry with a repeated key wins, as when the entries are inserted in
/// order.
pub open spec fn spec_parse_store(d: Seq<char>) -> Result<Seq<(Seq<char>, SpecValue)>, ErrorCode> {
    match spec_parse_document(d) {
        Some(ps) => Ok(spec_dedup(ps)),
        None => Err(ErrorCode::JsonParserError),
    }
}

/// The filename prefix of an instance.
pub open spec fn spec_prefix(id: int) -> Seq<char> {
    seq!['k', 'v', 's', '_'] + spec_decimal(id)
}

/// The name of the data file of a generation.
pub open spec fn spec_json_name(prefix: Seq<char>, id: int) -> Seq<char> {
    prefix + seq!['_'] + spec_decimal(id) + seq!['.', 'j', 's', 'o', 'n']
}

/// The name of the hash file of a generation.
pub open spec fn spec_hash_name(prefix: Seq<char>, id: int) -> Seq<char> {
    prefix + seq!['_'] + spec_decimal(id) + seq!['.', 'h', 'a', 's', 'h']
}

/// The rename plan of one snapshot rotation, in execution order: for each
/// generation from the oldest down to the live one, its hash file and
/// then its data file move one generation up.  A missing source is a
/// no-op for the embedder; the oldest generation is overwritten.
pub open spec fn spec_rotate_renames(prefix: Seq<char>) -> Seq<(Seq<char>, Seq<char>)> {
    seq![
        (spec_hash_name(prefix, 2), spec_hash_name(prefix, 3)),
        (spec_json_name(prefix, 2), spec_json_name(prefix, 3)),
        (spec_hash_name(prefix, 1), spec_hash_name(prefix, 2)),
        (spec_json_name(prefix, 1), spec_json_name(prefix, 2)),
        (spec_hash_name(prefix, 0), spec_hash_name(prefix, 1)),
        (spec_json_name(prefix, 0), spec_json_name(prefix, 1)),
    ]
}

/// The index of the first generation whose data file is missing.
pub open spec fn spec_contig_end(present: Seq<bool>, i: int) -> int
    decreases present.len() - i,
{
    if 0 <= i < present.len() && present[i] {
        spec_contig_end(present, i + 1)
    } else {
        i
    }
}

/// The count of contiguous historical snapshots: the highest generation
/// reachable from the live one without a gap, 0 when even the live
/// generation is missing.
pub open spec fn spec_snapshot_count(present: Seq<bool>) -> int {
    if spec_contig_end(present, 0) == 0 {
        0
    } else {
        spec_contig_end(present, 0) - 1
    }
}

/// What a read of a key yields: the store's value, else the default,
/// else `KeyNotFound`.
pub open spec fn spec_get_value(
    store: Seq<(Seq<char>, SpecValue)>,
    defaults: Seq<(Seq<char>, SpecValue)>,
    k: Seq<char>,
) -> Result<SpecValue, ErrorCode> {
    match spec_lookup(store, k) {
        Some(v) => Ok(v),
        None => match spec_lookup(defaults, k) {
            Some(v) => Ok(v),
            None => Err(ErrorCode::KeyNotFound),
        },
    }
}

/// Whether a key currently answers with its default: false when set in
/// the store, true when only the defaults know it, `KeyNotFound` when
/// neither does.
pub open spec fn spec_is_value_default(
    store: Seq<(Seq<char>, SpecValue)>,
    defaults: Seq<(Seq<char>, SpecValue)>,
    k: Seq<char>,
) -> Result<bool, ErrorCode> {
    if spec_lookup(store, k) is Some {
        Ok(false)
    } else if spec_lookup(defaults, k) is Some {
        Ok(true)
    } else {
        Err(ErrorCode::KeyNotFound)
    }
}

/// What removing a key yields: success exactly when the key is set in
/// the store; a defaults-only key cannot be removed.
pub open spec fn spec_remove_outcome(
    store: Seq<(Seq<char>, SpecValue)>,
    k: Seq<char>,
) -> Result<(), ErrorCode> {
    if spec_lookup(store, k) is Some {
        Ok(())
    } else {
        Err(ErrorCode::KeyNotFound)
    }
}

/// Everything a flush hands to the embedder: the encoded document of the
/// live store, its checksum bytes, and the rename plan to run — in
/// order, before the two files are written.
pub struct FlushData {
    /// The encoded JSON document, destined for the generation-0 data file
    pub data: String,
    /// The four big-endian checksum bytes, destined for the generation-0
    /// hash file
    pub hash: Vec<u8>,
    /// The snapshot rotation renames, in execution order
    pub renames: Vec<(String, String)>,
}

/// Key-value-storage data: the live store, the defaults overlay, the
/// filename prefix of the instance and the flush-on-exit flag.
pub struct Kvs {
    /// Live storage data, synchronized with generation 0 at each flush
    kvs: KvMap,
    /// Optional default values, never written by a flush
    default: KvMap,
    /// Filename prefix derived from the instance identity
    filename_prefix: String,
    /// Whether the embedder should flush when the instance ends
    flush_on_exit: bool,
}

impl Kvs {
    /// The entries of the live store.
    pub closed spec fn store(self) -> Seq<(Seq<char>, SpecValue)> {
        self.kvs.pairs()
    }

    /// The entries of the defaults overlay.
    pub closed spec fn defaults(self) -> Seq<(Seq<char>, SpecValue)> {
        self.default.pairs()
    }

    /// The filename prefix.
    pub closed spec fn prefix(self) -> Seq<char> {
        self.filename_prefix@
    }

    /// The flush-on-exit flag.
    pub closed spec fn flush_on_exit_flag(self) -> bool {
        self.flush_on_exit
    }

    /// Open the key-value-storage from the file contents the embedder
    /// read.
    ///
    /// `defaults_data` is the text of the defaults file; `kvs_data` and
    /// `kvs_hash` are the text of the generation-0 data file and the
    /// bytes of its hash file.  `None` stands for a file that could not
    /// be read.  The defaults are loaded without integrity verification,
    /// the store with it.  Flush on exit starts enabled.
    pub fn open(
        instance_id: InstanceId,
        need_defaults: OpenNeedDefaults,
        need_kvs: OpenNeedKvs,
        defaults_data: Option<String>,
        kvs_data: Option<String>,
        kvs_hash: Option<Vec<u8>>,
    ) -> (r: Result<Kvs, ErrorCode>)
        ensures
            ({
                let dres = spec_load(
                    view_opt_text(defaults_data),
                    None,
                    need_defaults is Required,
                    false,
                );
                let kres = spec_load(
                    view_opt_text(kvs_data),
                    view_opt_bytes(kvs_hash),
                    need_kvs is Required,
                    true,
                );
                match dres {
                    Err(e) => r == Err::<Kvs, ErrorCode>(e),
                    Ok(dp) => match kres {
                        Err(e) => r == Err::<Kvs, ErrorCode>(e),
                        Ok(kp) => r is Ok && {
                            let kvs = r->Ok_0;
                            &&& kvs.store() == kp
                            &&& kvs.defaults() == dp
                            &&& kvs.prefix() == spec_prefix(instance_id@)
                            &&& kvs.flush_on_exit_flag()
                            &&& crate::kvmap::spec_unique_keys(kvs.store())
                            &&& crate::kvmap::spec_unique_keys(kvs.defaults())
                        },
                    },
                }
            }),
    {
        let required_defaults = match need_defaults {
            OpenNeedDefaults::Optional => false,
            OpenNeedDefaults::Required => true,
        };
        let required_kvs = match need_kvs {
            OpenNeedKvs::Optional => false,
            OpenNeedKvs::Required => true,
        };
        let default = match open_json(defaults_data, None, required_defaults, false) {
            Ok(m) => m,
            Err(e) => {
                return Err(e);
            }
        };
        let kvs = match open_json(kvs_data, kvs_hash, required_kvs, true) {
            Ok(m) => m,
            Err(e) => {
                return Err(e);
            }
        };
        proof {
            use_type_invariant(&default);
            use_type_invariant(&kvs);
        }
        let mut prefix_chars: Vec<char> = Vec::new();
        prefix_chars.push('k');
        prefix_chars.push('v');
        prefix_chars.push('s');
        prefix_chars.push('_');
        push_decimal(&mut prefix_chars, instance_id.value());
        proof {
            assert(prefix_chars@ =~= spec_prefix(instance_id@));
        }
        let filename_prefix = chars_to_string(&prefix_chars);
        Ok(Kvs { kvs, default, filename_prefix, flush_on_exit: true })
    }

    /// Control the flush on exit behaviour.
    pub fn flush_on_exit(&mut self, flush_on_exit: bool)
        ensures
            final(self).flush_on_exit_flag() == flush_on_exit,
            final(self).store() == old(self).store(),
            final(self).defaults() == old(self).defaults(),
            final(self).prefix() == old(self).prefix(),
    {
        self.flush_on_exit = flush_on_exit;
    }

    /// Whether a flush is wanted when the instance ends.
    pub fn is_flush_on_exit(&self) -> (r: bool)
        ensures
            r == self.flush_on_exit_flag(),
    {
        self.flush_on_exit
    }

    /// Reset the key-value-storage: the store is emptied entirely; the
    /// defaults are untouched.
    pub fn reset(&mut self) -> (r: Result<(), ErrorCode>)
        ensures
            r == Ok::<(), ErrorCode>(()),
            final(self).store() == Seq::<(Seq<char>, SpecValue)>::empty(),
            final(self).defaults() == old(self).defaults(),
            final(self).prefix() == old(self).prefix(),
            final(self).flush_on_exit_flag() == old(self).flush_on_exit_flag(),
    {
        self.kvs = KvMap::new();
        Ok(())
    }

    /// The keys of the store, in storage order; defaults-only keys are
    /// not listed.
    pub fn get_all_keys(&self) -> (r: Result<Vec<String>, ErrorCode>)
        ensures
            r is Ok,
            r->Ok_0@.len() == self.store().len(),
            forall|i: int| 0 <= i < self.store().len() ==> #[trigger] r->Ok_0@[i]@
                == self.store()[i].0,
    {
        Ok(self.kvs.keys())
    }

    /// Whether the key is set in the store; a defaults-only key does not
    /// count as existing.
    pub fn key_exists(&self, key: &str) -> (r: Result<bool, ErrorCode>)
        ensures
            r == Ok::<bool, ErrorCode>(spec_lookup(self.store(), key@) is Some),
    {
        Ok(self.kvs.contains_key(key))
    }

    /// The value assigned to the key: the store's value, else the
    /// default, else `KeyNotFound`.
    pub fn get_value(&self, key: &str) -> (r: Result<Value, ErrorCode>)
        ensures
            match spec_get_value(self.store(), self.defaults(), key@) {
                Ok(v) => r is Ok && r->Ok_0.view() == v,
                Err(e) => r == Err::<Value, ErrorCode>(e),
            },
    {
        match self.kvs.get(key) {
            Some(v) => Ok(v.clone()),
            None => match self.default.get(key) {
                Some(v) => Ok(v.clone()),
                None => Err(ErrorCode::KeyNotFound),
            },
        }
    }

    /// The default value of the key, regardless of the store;
    /// `KeyNotFound` when the defaults do not know it.
    pub fn get_default_value(&self, key: &str) -> (r: Result<Value, ErrorCode>)
        ensures
            match spec_lookup(self.defaults(), key@) {
                Some(v) => r is Ok && r->Ok_0.view() == v,
                None => r == Err::<Value, ErrorCode>(ErrorCode::KeyNotFound),
            },
    {
        match self.default.get(key) {
            Some(v) => Ok(v.clone()),
            None => Err(ErrorCode::KeyNotFound),
        }
    }

    /// Whether the key currently answers with its default value.
    pub fn is_value_default(&self, key: &str) -> (r: Result<bool, ErrorCode>)
        ensures
            r == spec_is_value_default(self.store(), self.defaults(), key@),
    {
        if self.kvs.contains_key(key) {
            Ok(false)
        } else if self.default.contains_key(key) {
            Ok(true)
        } else {
            Err(ErrorCode::KeyNotFound)
        }
    }

    /// Assign a value to a key: an unconditional upsert into the store.
    pub fn set_value(&mut self, key: String, value: Value) -> (r: Result<(), ErrorCode>)
        ensures
            r == Ok::<(), ErrorCode>(()),
            final(self).store() == spec_upsert(old(self).store(), key@, value.view()),
            crate::kvmap::spec_unique_keys(final(self).store()),
            final(self).defaults() == old(self).defaults(),
            final(self).prefix() == old(self).prefix(),
            final(self).flush_on_exit_flag() == old(self).flush_on_exit_flag(),
    {
        self.kvs.insert(key, value);
        proof {
            use_type_invariant(&self.kvs);
        }
        Ok(())
    }

    /// Remove a key from the store; `KeyNotFound` when the store does
    /// not hold it, also when the defaults do.
    pub fn remove_key(&mut self, key: &str) -> (r: Result<(), ErrorCode>)
        ensures
            r == spec_remove_outcome(old(self).store(), key@),
            final(self).store() == spec_remove_key(old(self).store(), key@),
            crate::kvmap::spec_unique_keys(final(self).store()),
            final(self).defaults() == old(self).defaults(),
            final(self).prefix() == old(self).prefix(),
            final(self).flush_on_exit_flag() == old(self).flush_on_exit_flag(),
    {
        let found = self.kvs.remove(key);
        proof {
            use_type_invariant(&self.kvs);
        }
        if found {
            Ok(())
        } else {
            Err(ErrorCode::KeyNotFound)
        }
    }

    /// Serialize the store for flushing.
    ///
    /// Yields the encoded document, its checksum bytes and the rotation
    /// renames; the embedder runs the renames first, then writes the two
    /// generation-0 files.  Fails with `JsonGeneratorError` exactly when
    /// a number in the store holds an invalid lexeme.
    pub fn flush(&self) -> (r: Result<FlushData, ErrorCode>)
        ensures
            crate::kvmap::spec_unique_keys(self.store()),
            SpecValue::wf_pairs(self.store()) ==> r is Ok && {
                let f = r->Ok_0;
                &&& f.data@ == enc_document(self.store())
                &&& f.hash@ == spec_be_bytes(adler32_of(enc_document(self.store())))
                &&& f.renames@.len() == spec_rotate_renames(self.prefix()).len()
                &&& forall|i: int|
                    0 <= i < f.renames@.len() ==> (#[trigger] f.renames@[i].0@, f.renames@[i].1@)
                        == spec_rotate_renames(self.prefix())[i]
            },
            !SpecValue::wf_pairs(self.store()) ==> r == Err::<FlushData, ErrorCode>(
                ErrorCode::JsonGeneratorError,
            ),
    {
        let data = match crate::codec::encode(&self.kvs) {
            Ok(d) => d,
            Err(e) => {
                return Err(e);
            }
        };
        let sum = crate::integrity::checksum_of(data.as_str());
        let hash = crate::integrity::u32_to_be_bytes(sum);
        let mut renames: Vec<(String, String)> = Vec::new();
        let mut idx: usize = KVS_MAX_SNAPSHOTS;
        while idx >= 1
            invariant
                idx <= KVS_MAX_SNAPSHOTS,
                renames@.len() == 2 * (KVS_MAX_SNAPSHOTS - idx),
                forall|i: int|
                    0 <= i < renames@.len() ==> (#[trigger] renames@[i].0@, renames@[i].1@)
                        == spec_rotate_renames(self.prefix())[i],
            decreases idx,
        {
            let hash_old = self.hash_filename_for(idx - 1);
            let hash_new = self.hash_filename_for(idx);
            let json_old = self.json_filename_for(idx - 1);
            let json_new = self.json_filename_for(idx);
            renames.push((hash_old, hash_new));
            renames.push((json_old, json_new));
            idx = idx - 1;
        }
        Ok(FlushData { data, hash, renames })
    }

    /// The count of contiguous historical snapshots on disk.
    ///
    /// `json_present` says, for each generation from 0 to the maximum,
    /// whether its data file exists; the embedder fills it in.  The scan
    /// walks up from the live generation and stops at the first gap.
    pub fn snapshot_count(&self, json_present: &Vec<bool>) -> (r: usize)
        requires
            json_present@.len() == KVS_MAX_SNAPSHOTS + 1,
        ensures
            r == spec_snapshot_count(json_present@),
    {
        let mut count: usize = 0;
        let mut idx: usize = 0;
        while idx <= KVS_MAX_SNAPSHOTS
            invariant
                json_present@.len() == KVS_MAX_SNAPSHOTS + 1,
                idx <= KVS_MAX_SNAPSHOTS + 1,
                forall|j: int| 0 <= j < idx ==> json_present@[j],
                count == if idx == 0 {
                    0int
                } else if idx == 1 {
                    0int
                } else {
                    idx - 1
                },
            decreases KVS_MAX_SNAPSHOTS + 1 - idx,
        {
            if !json_present[idx] {
                proof {
                    lemma_contig_end_at(json_present@, idx as int);
                }
                return count;
            }
            if idx > 0 {
                count = idx;
            }
            idx = idx + 1;
        }
        proof {
            lemma_contig_end_at(json_present@, (KVS_MAX_SNAPSHOTS + 1) as int);
        }
        count
    }

    /// Return maximum snapshot count.
    pub fn snapshot_max_count() -> (r: usize)
        ensures
            r == KVS_MAX_SNAPSHOTS,
    {
        KVS_MAX_SNAPSHOTS
    }

    /// Recover the store from a snapshot.
    ///
    /// `count` is the current snapshot count (see
    /// [`Self::snapshot_count`]); `data` and `hash` are the contents of
    /// the snapshot's data and hash files.  Identifier 0 — the live
    /// generation — and identifiers beyond `count` are rejected as
    /// `InvalidSnapshotId`.  The snapshot is integrity-verified and
    /// replaces the store in memory only; it becomes durable at the next
    /// flush.
    pub fn snapshot_restore(
        &mut self,
        id: SnapshotId,
        count: usize,
        data: Option<String>,
        hash: Option<Vec<u8>>,
    ) -> (r: Result<(), ErrorCode>)
        ensures
            final(self).defaults() == old(self).defaults(),
            final(self).prefix() == old(self).prefix(),
            final(self).flush_on_exit_flag() == old(self).flush_on_exit_flag(),
            id@ == 0 || id@ > count ==> r == Err::<(), ErrorCode>(ErrorCode::InvalidSnapshotId)
                && final(self).store() == old(self).store(),
            id@ != 0 && id@ <= count ==> match spec_load(
                view_opt_text(data),
                view_opt_bytes(hash),
                true,
                true,
            ) {
                Ok(ps) => r == Ok::<(), ErrorCode>(()) && final(self).store() == ps
                    && crate::kvmap::spec_unique_keys(ps),
                Err(e) => r == Err::<(), ErrorCode>(e) && final(self).store() == old(self).store(),
            },
    {
        let idv = id.value();
        if idv == 0 {
            return Err(ErrorCode::InvalidSnapshotId);
        }
        if count < idv {
            return Err(ErrorCode::InvalidSnapshotId);
        }
        match open_json(data, hash, true, true) {
            Ok(m) => {
                proof {
                    use_type_invariant(&m);
                }
                self.kvs = m;
                Ok(())
            }
            Err(e) => Err(e),
        }
    }

    /// The data filename of a generation.
    pub fn get_kvs_filename(&self, id: SnapshotId) -> (r: String)
        ensures
            r@ == spec_json_name(self.prefix(), id@),
    {
        self.json_filename_for(id.value())
    }

    /// The hash filename of a generation.
    pub fn get_hash_filename(&self, id: SnapshotId) -> (r: String)
        ensures
            r@ == spec_hash_name(self.prefix(), id@),
    {
        self.hash_filename_for(id.value())
    }

    /// The data filename of a generation, by number.
    fn json_filename_for(&self, id: usize) -> (r: String)
        ensures
            r@ == spec_json_name(self.prefix(), id as int),
    {
        let mut cs = crate::text::str_to_chars(self.filename_prefix.as_str());
        cs.push('_');
        push_decimal(&mut cs, id);
        cs.push('.');
        cs.push('j');
        cs.push('s');
        cs.push('o');
        cs.push('n');
        proof {
            assert(cs@ =~= spec_json_name(self.prefix(), id as int));
        }
        chars_to_string(&cs)
    }

    /// The hash filename of a generation, by number.
    fn hash_filename_for(&self, id: usize) -> (r: String)
        ensures
            r@ == spec_hash_name(self.prefix(), id as int),
    {
        let mut cs = crate::text::str_to_chars(self.filename_prefix.as_str());
        cs.push('_');
        push_decimal(&mut cs, id);
        cs.push('.');
        cs.push('h');
        cs.push('a');
        cs.push('s');
        cs.push('h');
        proof {
            assert(cs@ =~= spec_hash_name(self.prefix(), id as int));
        }
        chars_to_string(&cs)
    }
}

/// The first missing generation bounds the contiguity scan.
proof fn lemma_contig_end_at(present: Seq<bool>, stop: int)
    requires
        0 <= stop <= present.len(),
        forall|j: int| 0 <= j < stop ==> present[j],
        stop < present.len() ==> !present[stop],
    ensures
        spec_contig_end(present, 0) == stop,
{
    lemma_contig_end_from(present, 0, stop);
}

/// Contiguity scan from a position inside the run of present files.
proof fn lemma_contig_end_from(present: Seq<bool>, i: int, stop: int)
    requires
        0 <= i <= stop <= present.len(),
        forall|j: int| i <= j < stop ==> present[j],
        stop < present.len() ==> !present[stop],
    ensures
        spec_contig_end(present, i) == stop,
    decreases stop - i,
{
    if i < stop {
        lemma_contig_end_from(present, i + 1, stop);
    }
}

/// Open and parse a JSON document, with optional integrity verification,
/// realizing [`spec_load`].
fn open_json(data: Option<String>, hash: Option<Vec<u8>>, required: bool, verify: bool) -> (r:
    Result<KvMap, ErrorCode>)
    ensures
        match spec_load(view_opt_text(data), view_opt_bytes(hash), required, verify) {
            Ok(ps) => r is Ok && r->Ok_0.pairs() == ps,
            Err(e) => r == Err::<KvMap, ErrorCode>(e),
        },
{
    let d = match data {
        Some(d) => d,
        None => {
            if required {
                return Err(ErrorCode::FileNotFound);
            } else {
                return Ok(KvMap::new());
            }
        }
    };
    if verify {
        let h = match hash {
            Some(h) => h,
            None => {
                return Err(ErrorCode::KvsHashFileReadError);
            }
        };
        if !crate::integrity::verify_checksum(d.as_str(), &h) {
            return Err(ErrorCode::ValidationFailed);
        }
        crate::codec::decode(d.as_str())
    } else {
        crate::codec::decode(d.as_str())
    }
}

} // verus!
