//! # Key-Value-Storage engine
//!
//! An embedded, file-backed key-value store: values are held in memory,
//! optionally seeded from an immutable defaults set, serialized to a JSON
//! document, protected by an Adler-32 checksum and kept as a bounded ring
//! of snapshot generations.
//!
//! This crate is the storage engine proper, verified with Verus: the typed
//! value model, the JSON codec, the integrity layer, the snapshot scheme
//! and the defaults overlay.  It works on plain values; reading and
//! writing the actual files is left to its (unverified) embedder, which
//! feeds file contents in and carries file contents and rename plans out.

pub mod codec;
pub mod error;
pub mod integrity;
pub mod kvmap;
pub mod kvs;
pub mod laws;
pub mod roundtrip;
pub mod text;
pub mod value;

pub use error::ErrorCode;
pub use kvmap::KvMap;
pub use kvs::FlushData;
pub use kvs::InstanceId;
pub use kvs::Kvs;
pub use kvs::OpenNeedDefaults;
pub use kvs::OpenNeedKvs;
pub use kvs::SnapshotId;
pub use value::SpecValue;
pub use value::Value;
