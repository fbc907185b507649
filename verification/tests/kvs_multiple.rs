//! Multiple independent instances: different identities never interfere;
//! a shared value survives in both.

use rust_kvs::{ErrorCode, InstanceId, Kvs, OpenNeedDefaults, OpenNeedKvs, SnapshotId, Value};
use std::collections::HashMap;

struct Disk {
    files: HashMap<String, Vec<u8>>,
}

impl Disk {
    fn new() -> Disk {
        Disk { files: HashMap::new() }
    }

    fn read_text(&self, name: &str) -> Option<String> {
        self.files.get(name).map(|b| String::from_utf8(b.clone()).unwrap())
    }

    fn read_bytes(&self, name: &str) -> Option<Vec<u8>> {
        self.files.get(name).cloned()
    }

    fn rename(&mut self, from: &str, to: &str) {
        if let Some(v) = self.files.remove(from) {
            self.files.insert(to.to_string(), v);
        }
    }
}

fn open_kvs(disk: &Disk, id: usize, need_defaults: bool, need_kvs: bool) -> Result<Kvs, ErrorCode> {
    Kvs::open(
        InstanceId::new(id),
        if need_defaults { OpenNeedDefaults::Required } else { OpenNeedDefaults::Optional },
        if need_kvs { OpenNeedKvs::Required } else { OpenNeedKvs::Optional },
        disk.read_text(&format!("kvs_{}_default.json", id)),
        disk.read_text(&format!("kvs_{}_0.json", id)),
        disk.read_bytes(&format!("kvs_{}_0.hash", id)),
    )
}

fn flush_kvs(disk: &mut Disk, kvs: &Kvs) -> Result<(), ErrorCode> {
    let fd = kvs.flush()?;
    for (from, to) in fd.renames.iter() {
        disk.rename(from, to);
    }
    disk.files
        .insert(kvs.get_kvs_filename(SnapshotId::new(0)), fd.data.as_bytes().to_vec());
    disk.files.insert(kvs.get_hash_filename(SnapshotId::new(0)), fd.hash);
    Ok(())
}

fn close_kvs(disk: &mut Disk, kvs: Kvs) {
    if kvs.is_flush_on_exit() {
        let _ = flush_kvs(disk, &kvs);
    }
}

fn num(x: f64) -> Value {
    Value::Number(format!("{}", x))
}

fn get_f64(kvs: &Kvs, key: &str) -> Result<f64, ErrorCode> {
    let v = kvs.get_value(key)?;
    let s = v.as_number()?;
    Ok(s.parse::<f64>().unwrap())
}

#[test]
fn cit_persistency_multiple_instances() -> Result<(), ErrorCode> {
    let mut disk = Disk::new();

    // Values.
    let keyname = "number".to_string();
    let value1 = 111.1;
    let value2 = 222.2;

    {
        // First KVS run.
        let mut kvs1 = open_kvs(&disk, 0, false, false)?;
        let mut kvs2 = open_kvs(&disk, 1, false, false)?;

        // Set values to both KVS instances.
        kvs1.set_value(keyname.clone(), num(value1))?;
        kvs2.set_value(keyname.clone(), num(value2))?;

        close_kvs(&mut disk, kvs1);
        close_kvs(&mut disk, kvs2);
    }

    // Assertions.
    {
        // Second KVS run.
        let kvs1 = open_kvs(&disk, 0, false, false)?;
        let kvs2 = open_kvs(&disk, 1, false, false)?;

        // Compare values, ensure they are not mixed up.
        assert_eq!(
            get_f64(&kvs1, &keyname)?,
            value1,
            "kvs1: key '{keyname}' should have value1 {value1}"
        );
        assert_ne!(
            get_f64(&kvs1, &keyname)?,
            value2,
            "kvs1: key '{keyname}' should not have value2 {value2}"
        );

        assert_eq!(
            get_f64(&kvs2, &keyname)?,
            value2,
            "kvs2: key '{keyname}' should have value2 {value2}"
        );
        assert_ne!(
            get_f64(&kvs2, &keyname)?,
            value1,
            "kvs2: key '{keyname}' should not have value1 {value1}"
        );
    }

    Ok(())
}

#[test]
fn cit_persistency_multiple_instances_same_id_common_value() -> Result<(), ErrorCode> {
    let mut disk = Disk::new();

    // Values.
    let common_keyname = "number".to_string();
    let common_value = 100.0;

    {
        // First KVS run.
        let mut kvs1 = open_kvs(&disk, 0, false, false)?;
        let mut kvs2 = open_kvs(&disk, 1, false, false)?;

        // Set values to both KVS instances.
        kvs1.set_value(common_keyname.clone(), num(common_value))?;
        kvs2.set_value(common_keyname.clone(), num(common_value))?;

        close_kvs(&mut disk, kvs1);
        close_kvs(&mut disk, kvs2);
    }

    // Assertions.
    {
        // Second KVS run.
        let kvs1 = open_kvs(&disk, 0, false, false)?;
        let kvs2 = open_kvs(&disk, 1, false, false)?;

        assert_eq!(
            get_f64(&kvs1, &common_keyname)?,
            common_value,
            "kvs1: key '{common_keyname}' should have common_value {common_value}"
        );
        assert_eq!(
            get_f64(&kvs2, &common_keyname)?,
            common_value,
            "kvs2: key '{common_keyname}' should have common_value {common_value}"
        );
    }

    Ok(())
}
