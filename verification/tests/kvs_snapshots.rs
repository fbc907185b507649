//! Snapshot behaviour: rotation through repeated flushes, restore with
//! integrity verification, invalid snapshot identifiers, and corrupted
//! or missing checksum files, against a simulated disk.

use rust_kvs::{ErrorCode, InstanceId, Kvs, OpenNeedDefaults, OpenNeedKvs, SnapshotId, Value};
use std::collections::HashMap;

struct Disk {
    files: HashMap<String, Vec<u8>>,
}

impl Disk {
    fn new() -> Disk {
        Disk { files: HashMap::new() }
    }

    fn read_text(&self, name: &str) -> Option<String> {
        self.files.get(name).map(|b| String::from_utf8(b.clone()).unwrap())
    }

    fn read_bytes(&self, name: &str) -> Option<Vec<u8>> {
        self.files.get(name).cloned()
    }

    fn rename(&mut self, from: &str, to: &str) {
        if let Some(v) = self.files.remove(from) {
            self.files.insert(to.to_string(), v);
        }
    }

    fn has_file(&self, name: &str) -> bool {
        self.files.contains_key(name)
    }
}

fn open_kvs(disk: &Disk, id: usize, need_defaults: bool, need_kvs: bool) -> Result<Kvs, ErrorCode> {
    Kvs::open(
        InstanceId::new(id),
        if need_defaults { OpenNeedDefaults::Required } else { OpenNeedDefaults::Optional },
        if need_kvs { OpenNeedKvs::Required } else { OpenNeedKvs::Optional },
        disk.read_text(&format!("kvs_{}_default.json", id)),
        disk.read_text(&format!("kvs_{}_0.json", id)),
        disk.read_bytes(&format!("kvs_{}_0.hash", id)),
    )
}

fn flush_kvs(disk: &mut Disk, kvs: &Kvs) -> Result<(), ErrorCode> {
    let fd = kvs.flush()?;
    for (from, to) in fd.renames.iter() {
        disk.rename(from, to);
    }
    disk.files
        .insert(kvs.get_kvs_filename(SnapshotId::new(0)), fd.data.as_bytes().to_vec());
    disk.files.insert(kvs.get_hash_filename(SnapshotId::new(0)), fd.hash);
    Ok(())
}

fn close_kvs(disk: &mut Disk, kvs: Kvs) {
    if kvs.is_flush_on_exit() {
        let _ = flush_kvs(disk, &kvs);
    }
}

fn snapshot_count(disk: &Disk, kvs: &Kvs) -> usize {
    let mut present = Vec::new();
    for idx in 0..=Kvs::snapshot_max_count() {
        present.push(disk.has_file(&kvs.get_kvs_filename(SnapshotId::new(idx))));
    }
    kvs.snapshot_count(&present)
}

fn restore_kvs(disk: &Disk, kvs: &mut Kvs, id: usize) -> Result<(), ErrorCode> {
    let count = snapshot_count(disk, kvs);
    let data = disk.read_text(&kvs.get_kvs_filename(SnapshotId::new(id)));
    let hash = disk.read_bytes(&kvs.get_hash_filename(SnapshotId::new(id)));
    kvs.snapshot_restore(SnapshotId::new(id), count, data, hash)
}

fn num(x: f64) -> Value {
    Value::Number(format!("{}", x))
}

fn get_f64(kvs: &Kvs, key: &str) -> Result<f64, ErrorCode> {
    let v = kvs.get_value(key)?;
    let s = v.as_number()?;
    Ok(s.parse::<f64>().unwrap())
}

/// Test snapshot recovery
#[test]
fn kvs_snapshot_restore() -> Result<(), ErrorCode> {
    let mut disk = Disk::new();

    let max_count = Kvs::snapshot_max_count();
    let mut kvs = open_kvs(&disk, 0, false, false)?;

    // we need a double zero here because after the first sync no snapshot is created
    // and the max count is also added twice to make sure we rotate once
    let mut cnts: Vec<usize> = vec![0];
    let mut cnts_mid: Vec<usize> = (0..=max_count).collect();
    let mut cnts_post: Vec<usize> = vec![max_count];
    cnts.append(&mut cnts_mid);
    cnts.append(&mut cnts_post);

    let mut counter = 0;
    for (idx, _) in cnts.into_iter().enumerate() {
        counter = idx;
        kvs.set_value("counter".to_string(), num(counter as f64))?;

        // drop the current instance with sync-on-exit enabled and re-open it
        close_kvs(&mut disk, kvs);
        kvs = open_kvs(&disk, 0, false, true)?;
    }

    // restore snapshots and check `counter` value
    for idx in 1..=max_count {
        restore_kvs(&disk, &mut kvs, idx)?;
        assert_eq!(get_f64(&kvs, "counter")?, (counter - idx) as f64);
    }

    Ok(())
}

/// Create a KVS, close it, delete checksum and try to reopen it.
#[test]
fn kvs_checksum_missing() -> Result<(), ErrorCode> {
    let mut disk = Disk::new();

    let mut kvs = open_kvs(&disk, 0, false, false)?;

    kvs.set_value("number".to_string(), num(123.0))?;
    kvs.set_value("bool".to_string(), Value::Boolean(true))?;
    kvs.set_value("string".to_string(), Value::Text("Hello".to_string()))?;
    kvs.set_value("null".to_string(), Value::Null)?;
    kvs.set_value(
        "array".to_string(),
        Value::Array(vec![num(456.0), Value::Boolean(false), Value::Text("Bye".to_string())]),
    )?;

    // remember hash filename
    let hash_filename = kvs.get_hash_filename(SnapshotId::new(0));

    // drop the current instance with sync-on-exit enabled and reopen storage
    close_kvs(&mut disk, kvs);

    // delete the checksum
    disk.files.remove(&hash_filename);

    // opening must fail because of the missing checksum file
    let kvs = open_kvs(&disk, 0, false, true);
    assert_eq!(kvs.err(), Some(ErrorCode::KvsHashFileReadError));

    Ok(())
}

/// Corrupting the checksum of the live generation makes the next
/// verifying open fail with a validation error instead of loading stale
/// or garbled data.
#[test]
fn kvs_corrupted_hash_fails_open() -> Result<(), ErrorCode> {
    let mut disk = Disk::new();

    let mut kvs = open_kvs(&disk, 0, false, false)?;
    kvs.set_value("number".to_string(), num(42.0))?;
    let hash_filename = kvs.get_hash_filename(SnapshotId::new(0));
    close_kvs(&mut disk, kvs);

    // flip one byte of the stored checksum
    let mut hash = disk.files.get(&hash_filename).unwrap().clone();
    hash[2] ^= 0x40;
    disk.files.insert(hash_filename.clone(), hash);

    let kvs = open_kvs(&disk, 0, false, true);
    assert_eq!(kvs.err(), Some(ErrorCode::ValidationFailed));

    // a checksum file of the wrong length is a failure as well
    disk.files.insert(hash_filename, vec![0, 1, 2]);
    let kvs = open_kvs(&disk, 0, false, true);
    assert_eq!(kvs.err(), Some(ErrorCode::ValidationFailed));

    Ok(())
}

/// Restoring the live generation or a generation beyond the current
/// count is rejected; restoring a valid generation replaces the store
/// content exactly.
#[test]
fn kvs_snapshot_restore_bounds() -> Result<(), ErrorCode> {
    let mut disk = Disk::new();

    let mut kvs = open_kvs(&disk, 0, false, false)?;
    kvs.set_value("n".to_string(), num(1.0))?;
    flush_kvs(&mut disk, &kvs)?;
    kvs.set_value("n".to_string(), num(2.0))?;
    flush_kvs(&mut disk, &kvs)?;

    let count = snapshot_count(&disk, &kvs);
    assert_eq!(count, 1);

    assert_eq!(restore_kvs(&disk, &mut kvs, 0).unwrap_err(), ErrorCode::InvalidSnapshotId);
    assert_eq!(
        restore_kvs(&disk, &mut kvs, count + 1).unwrap_err(),
        ErrorCode::InvalidSnapshotId
    );
    // the store is untouched by the failed restores
    assert_eq!(get_f64(&kvs, "n")?, 2.0);

    restore_kvs(&disk, &mut kvs, 1)?;
    assert_eq!(get_f64(&kvs, "n")?, 1.0);

    Ok(())
}

/// Flushing more often than the snapshot capacity keeps exactly the
/// maximum count of historical generations, the oldest holding the value
/// written that many flushes ago.
#[test]
fn kvs_rotation_bounds_history() -> Result<(), ErrorCode> {
    let mut disk = Disk::new();
    let max_count = Kvs::snapshot_max_count();

    let mut kvs = open_kvs(&disk, 0, false, false)?;
    // max_count + 2 flushes with distinct values
    for i in 0..(max_count + 2) {
        kvs.set_value("gen".to_string(), num(i as f64))?;
        flush_kvs(&mut disk, &kvs)?;
    }

    assert_eq!(snapshot_count(&disk, &kvs), max_count);
    // no file of a generation beyond the maximum exists
    assert!(!disk.has_file(&kvs.get_kvs_filename(SnapshotId::new(max_count + 1))));

    // generation g holds the value written g flushes before the last one
    let last = (max_count + 2 - 1) as f64;
    for g in 1..=max_count {
        restore_kvs(&disk, &mut kvs, g)?;
        assert_eq!(get_f64(&kvs, "gen")?, last - g as f64);
    }

    Ok(())
}

/// Scenario: set one value, flush, close, reopen the same instance with
/// the store required — the value survived.
#[test]
fn kvs_persisted_value_survives_reopen() -> Result<(), ErrorCode> {
    let mut disk = Disk::new();

    let mut kvs = open_kvs(&disk, 0, false, false)?;
    kvs.set_value("n".to_string(), num(1.0))?;
    flush_kvs(&mut disk, &kvs)?;
    close_kvs(&mut disk, kvs);

    let kvs = open_kvs(&disk, 0, false, true)?;
    assert_eq!(get_f64(&kvs, "n")?, 1.0);

    Ok(())
}

/// Disabling flush-on-exit leaves the disk untouched when the instance
/// ends.
#[test]
fn kvs_flush_on_exit_can_be_disabled() -> Result<(), ErrorCode> {
    let mut disk = Disk::new();

    let mut kvs = open_kvs(&disk, 0, false, false)?;
    kvs.set_value("n".to_string(), num(1.0))?;
    kvs.flush_on_exit(false);
    close_kvs(&mut disk, kvs);

    assert!(disk.files.is_empty());

    Ok(())
}

/// A value that cannot be serialized — an invalid number lexeme — makes
/// the flush fail with the generator error and writes nothing.
#[test]
fn kvs_flush_rejects_invalid_number() -> Result<(), ErrorCode> {
    let mut disk = Disk::new();

    let mut kvs = open_kvs(&disk, 0, false, false)?;
    kvs.set_value("bad".to_string(), Value::Number("not-a-number".to_string()))?;
    assert_eq!(flush_kvs(&mut disk, &kvs).unwrap_err(), ErrorCode::JsonGeneratorError);
    assert!(disk.files.is_empty());

    Ok(())
}
