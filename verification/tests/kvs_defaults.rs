//! Default-value behaviour: overlay reads, is-default reporting, removal
//! and reset, against stores persisted through a simulated disk.

use rust_kvs::{ErrorCode, InstanceId, Kvs, OpenNeedDefaults, OpenNeedKvs, SnapshotId, Value};
use std::collections::HashMap;

struct Disk {
    files: HashMap<String, Vec<u8>>,
}

impl Disk {
    fn new() -> Disk {
        Disk { files: HashMap::new() }
    }

    fn read_text(&self, name: &str) -> Option<String> {
        self.files.get(name).map(|b| String::from_utf8(b.clone()).unwrap())
    }

    fn read_bytes(&self, name: &str) -> Option<Vec<u8>> {
        self.files.get(name).cloned()
    }

    fn rename(&mut self, from: &str, to: &str) {
        if let Some(v) = self.files.remove(from) {
            self.files.insert(to.to_string(), v);
        }
    }

    fn has_file(&self, name: &str) -> bool {
        self.files.contains_key(name)
    }
}

fn open_kvs(disk: &Disk, id: usize, need_defaults: bool, need_kvs: bool) -> Result<Kvs, ErrorCode> {
    Kvs::open(
        InstanceId::new(id),
        if need_defaults { OpenNeedDefaults::Required } else { OpenNeedDefaults::Optional },
        if need_kvs { OpenNeedKvs::Required } else { OpenNeedKvs::Optional },
        disk.read_text(&format!("kvs_{}_default.json", id)),
        disk.read_text(&format!("kvs_{}_0.json", id)),
        disk.read_bytes(&format!("kvs_{}_0.hash", id)),
    )
}

fn flush_kvs(disk: &mut Disk, kvs: &Kvs) -> Result<(), ErrorCode> {
    let fd = kvs.flush()?;
    for (from, to) in fd.renames.iter() {
        disk.rename(from, to);
    }
    disk.files
        .insert(kvs.get_kvs_filename(SnapshotId::new(0)), fd.data.as_bytes().to_vec());
    disk.files.insert(kvs.get_hash_filename(SnapshotId::new(0)), fd.hash);
    Ok(())
}

fn close_kvs(disk: &mut Disk, kvs: Kvs) {
    if kvs.is_flush_on_exit() {
        let _ = flush_kvs(disk, &kvs);
    }
}

fn write_defaults_file(disk: &mut Disk, data: HashMap<String, tinyjson::JsonValue>, id: usize) {
    let json = tinyjson::JsonValue::from(data);
    let mut buf = Vec::new();
    let mut gen = tinyjson::JsonGenerator::new(&mut buf).indent("  ");
    gen.generate(&json).unwrap();
    disk.files.insert(format!("kvs_{}_default.json", id), buf);
}

fn num(x: f64) -> Value {
    Value::Number(format!("{}", x))
}

fn get_f64(kvs: &Kvs, key: &str) -> Result<f64, ErrorCode> {
    let v = kvs.get_value(key)?;
    let s = v.as_number()?;
    Ok(s.parse::<f64>().unwrap())
}

fn get_bool(kvs: &Kvs, key: &str) -> Result<bool, ErrorCode> {
    kvs.get_value(key)?.as_bool()
}

fn get_string(kvs: &Kvs, key: &str) -> Result<String, ErrorCode> {
    let v = kvs.get_value(key)?;
    let s = v.as_string()?;
    Ok(s.clone())
}

/// Start with no files at all and check that the `need_defaults` flag is
/// working.
#[test]
fn kvs_check_need_defaults_kvs_check_needs_kvs() -> Result<(), ErrorCode> {
    let disk = Disk::new();

    let kvs = open_kvs(&disk, 0, true, false);

    assert_eq!(kvs.err(), Some(ErrorCode::FileNotFound));

    Ok(())
}

/// Start with no files at all and check that the `need_kvs` flag is
/// working.
#[test]
fn kvs_check_need_kvs_kvs_check_needs_kvs() -> Result<(), ErrorCode> {
    let disk = Disk::new();

    let kvs = open_kvs(&disk, 0, false, true);

    assert_eq!(kvs.err(), Some(ErrorCode::FileNotFound));

    Ok(())
}

/// Test default values
///   * Default file must exist
///   * Default value must be returned when key isn't set
///   * Key must report that default is used
///   * Key must be returned when it was written and report it
///   * Change in default must be returned when key isn't set
///   * Change in default must be ignored when key was once set
#[test]
fn kvs_without_defaults() -> Result<(), ErrorCode> {
    let mut disk = Disk::new();

    // create defaults file
    write_defaults_file(
        &mut disk,
        HashMap::from([
            ("number1".to_string(), tinyjson::JsonValue::from(123.0)),
            ("bool1".to_string(), true.into()),
            ("string1".to_string(), "Hello".to_string().into()),
        ]),
        0,
    );

    // create KVS
    let mut kvs = open_kvs(&disk, 0, true, false)?;

    kvs.set_value("number2".to_string(), num(345.0))?;
    kvs.set_value("bool2".to_string(), Value::Boolean(false))?;
    kvs.set_value("string2".to_string(), Value::Text("Ola".to_string()))?;

    assert_eq!(get_f64(&kvs, "number1")?, 123.0);
    assert_eq!(get_f64(&kvs, "number2")?, 345.0);

    assert!(get_bool(&kvs, "bool1")?);
    assert!(!get_bool(&kvs, "bool2")?);

    assert_eq!(get_string(&kvs, "string1")?, "Hello".to_string());
    assert_eq!(get_string(&kvs, "string2")?, "Ola".to_string());

    assert!(kvs.is_value_default("number1")?);
    assert!(!kvs.is_value_default("number2")?);

    assert!(kvs.is_value_default("bool1")?);
    assert!(!kvs.is_value_default("bool2")?);

    assert!(kvs.is_value_default("string1")?);
    assert!(!kvs.is_value_default("string2")?);

    // write same-as-default-value into `bool1`
    kvs.set_value("bool1".to_string(), Value::Boolean(true))?;

    // write not-same-as-default into `string1`
    kvs.set_value("string1".to_string(), Value::Text("Bonjour".to_string()))?;

    // drop the current instance with sync-on-exit enabled and reopen storage
    close_kvs(&mut disk, kvs);

    let mut kvs = open_kvs(&disk, 0, false, true)?;

    assert!(get_bool(&kvs, "bool1")?);
    assert!(!kvs.is_value_default("bool1")?);

    assert_eq!(get_string(&kvs, "string1")?, "Bonjour".to_string());
    assert!(!kvs.is_value_default("string1")?);

    // drop the current instance with sync-on-exit enabled and reopen storage
    close_kvs(&mut disk, kvs);

    // change default of `number1` and `bool1`
    write_defaults_file(
        &mut disk,
        HashMap::from([
            ("number1".to_string(), tinyjson::JsonValue::from(987.0)),
            ("bool1".to_string(), false.into()),
            ("string1".to_string(), "Hello".to_string().into()),
        ]),
        0,
    );

    kvs = open_kvs(&disk, 0, false, true)?;

    assert_eq!(get_f64(&kvs, "number1")?, 987.0);
    assert!(kvs.is_value_default("number1")?);

    assert!(get_bool(&kvs, "bool1")?);
    assert!(!kvs.is_value_default("bool1")?);

    Ok(())
}

#[test]
fn cit_persistency_default_values() -> Result<(), ErrorCode> {
    let mut disk = Disk::new();

    // Values.
    let keyname = "test_number".to_string();
    let default_value = 111.1;
    let non_default_value = 333.3;

    // Create defaults file for instance 0.
    write_defaults_file(
        &mut disk,
        HashMap::from([(keyname.clone(), tinyjson::JsonValue::from(default_value))]),
        0,
    );

    // Assertions.
    {
        // KVS instance with defaults.
        let mut kvs_with_defaults = open_kvs(&disk, 0, true, false)?;
        // KVS instance without defaults.
        let mut kvs_without_defaults = open_kvs(&disk, 1, false, false)?;
        // Check defaults.
        assert!(
            kvs_with_defaults.is_value_default(&keyname)?,
            "kvs_with_defaults: key '{}' should be default",
            keyname
        );
        assert_eq!(
            kvs_without_defaults.is_value_default(&keyname).unwrap_err(),
            ErrorCode::KeyNotFound,
            "kvs_without_defaults: key '{}' should not exist and return KeyNotFound",
            keyname
        );

        // Check values.
        assert_eq!(
            get_f64(&kvs_with_defaults, &keyname)?,
            default_value,
            "kvs_with_defaults: key '{}' should have default value {}",
            keyname,
            default_value
        );
        assert_eq!(
            get_f64(&kvs_without_defaults, &keyname).unwrap_err(),
            ErrorCode::KeyNotFound,
            "kvs_without_defaults: key '{}' should not exist and return KeyNotFound",
            keyname
        );
        // Set non-default value to both KVS instances.
        kvs_with_defaults.set_value(keyname.clone(), num(non_default_value))?;
        kvs_without_defaults.set_value(keyname.clone(), num(non_default_value))?;
        // Check that the value is non-default.
        assert!(
            !kvs_with_defaults.is_value_default(&keyname)?,
            "kvs_with_defaults: key '{}' should NOT be default after set",
            keyname
        );
        assert!(
            !kvs_without_defaults.is_value_default(&keyname)?,
            "kvs_without_defaults: key '{}' should NOT be default after set",
            keyname
        );
        close_kvs(&mut disk, kvs_with_defaults);
        close_kvs(&mut disk, kvs_without_defaults);
    }
    // Flush and reopen KVS instances to ensure persistency.
    {
        // KVS instance with defaults.
        let kvs_with_defaults = open_kvs(&disk, 0, true, false)?;
        // KVS instance without defaults.
        let kvs_without_defaults = open_kvs(&disk, 1, false, false)?;
        // Check that the value is still non-default.
        assert_eq!(
            get_f64(&kvs_with_defaults, &keyname)?,
            non_default_value,
            "kvs_with_defaults: key '{}' should persist non-default value {} after reopen",
            keyname,
            non_default_value
        );
        assert_eq!(
            get_f64(&kvs_without_defaults, &keyname)?,
            non_default_value,
            "kvs_without_defaults: key '{}' should persist non-default value {} after reopen",
            keyname,
            non_default_value
        );
    }

    Ok(())
}

#[test]
fn cit_persistency_default_values_removal() -> Result<(), ErrorCode> {
    let mut disk = Disk::new();

    // Values.
    let keyname = "test_number".to_string();
    let default_value = 111.1;
    let non_default_value = 333.3;

    // Create defaults file for instance 0.
    write_defaults_file(
        &mut disk,
        HashMap::from([(keyname.clone(), tinyjson::JsonValue::from(default_value))]),
        0,
    );

    // Assertions.
    {
        // KVS instance with defaults.
        let mut kvs_with_defaults = open_kvs(&disk, 0, true, false)?;
        // Check default value.
        assert_eq!(
            get_f64(&kvs_with_defaults, &keyname)?,
            default_value,
            "kvs_with_defaults: key '{}' should have default value {}",
            keyname,
            default_value
        );

        // Set non-default value and check it.
        kvs_with_defaults.set_value(keyname.clone(), num(non_default_value))?;
        assert_eq!(
            get_f64(&kvs_with_defaults, &keyname)?,
            non_default_value,
            "kvs_with_defaults: key '{}' should have non-default value {} after set",
            keyname,
            non_default_value
        );

        // Remove key and check that the value is back to default.
        kvs_with_defaults.remove_key(&keyname)?;
        assert_eq!(
            get_f64(&kvs_with_defaults, &keyname)?,
            default_value,
            "kvs_with_defaults: key '{}' should revert to default value {} after remove",
            keyname,
            default_value
        );
        assert!(
            kvs_with_defaults.is_value_default(&keyname)?,
            "kvs_with_defaults: key '{}' should be default after remove",
            keyname
        );
    }

    Ok(())
}

#[test]
fn cit_persistency_invalid_default_values() -> Result<(), ErrorCode> {
    let mut disk = Disk::new();

    // Write invalid JSON directly
    let keyname = "test_bool";
    let invalid_json = format!(r#"{{"{}": True}}"#, keyname);
    disk.files
        .insert("kvs_0_default.json".to_string(), invalid_json.into_bytes());

    // Assertions: opening should fail due to invalid JSON
    let kvs = open_kvs(&disk, 0, true, false);
    assert!(kvs.is_err(), "Kvs::open should fail with invalid JSON in defaults file");
    assert_eq!(kvs.err(), Some(ErrorCode::JsonParserError));

    Ok(())
}

#[test]
fn cit_persistency_reset_all_default_values() -> Result<(), ErrorCode> {
    let mut disk = Disk::new();

    // Values.
    let keyname1 = "test_number1".to_string();
    let keyname2 = "test_number2".to_string();
    let default_value: f64 = 111.1;
    let non_default_value = 333.3;

    // Create defaults file for instance 0.
    write_defaults_file(
        &mut disk,
        HashMap::from([
            (keyname1.clone(), tinyjson::JsonValue::from(default_value)),
            (keyname2.clone(), tinyjson::JsonValue::from(default_value)),
        ]),
        0,
    );

    // Assertions.
    {
        // KVS instance with defaults.
        let mut kvs_with_defaults = open_kvs(&disk, 0, true, false)?;

        // Check defaults.
        assert!(
            kvs_with_defaults.is_value_default(&keyname1)?,
            "kvs_with_defaults: key '{}' should be default",
            keyname1
        );
        assert!(
            kvs_with_defaults.is_value_default(&keyname2)?,
            "kvs_with_defaults: key '{}' should be default",
            keyname2
        );

        // Set non-default value
        kvs_with_defaults.set_value(keyname1.clone(), num(non_default_value))?;
        kvs_with_defaults.set_value(keyname2.clone(), num(non_default_value))?;
        // Check that the value is non-default.
        assert!(
            !kvs_with_defaults.is_value_default(&keyname1)?,
            "kvs_with_defaults: key '{}' should NOT be default after set",
            keyname1
        );
        assert!(
            !kvs_with_defaults.is_value_default(&keyname2)?,
            "kvs_with_defaults: key '{}' should NOT be default after set",
            keyname2
        );

        // Reset the KVS instance - all keys should revert to default values.
        kvs_with_defaults.reset()?;
        // Check that the value is default again.
        assert!(
            kvs_with_defaults.is_value_default(&keyname1)?,
            "kvs_with_defaults: key '{}' should be default",
            keyname1
        );
        assert!(
            kvs_with_defaults.is_value_default(&keyname2)?,
            "kvs_with_defaults: key '{}' should be default",
            keyname2
        );
    }

    Ok(())
}

/// A defaults-only key cannot be removed; removal reports `KeyNotFound`
/// and the default stays readable.
#[test]
fn kvs_remove_defaulted_key_fails() -> Result<(), ErrorCode> {
    let mut disk = Disk::new();

    write_defaults_file(
        &mut disk,
        HashMap::from([("fallback".to_string(), tinyjson::JsonValue::from(7.0))]),
        0,
    );

    let mut kvs = open_kvs(&disk, 0, true, false)?;
    assert_eq!(kvs.remove_key("fallback").unwrap_err(), ErrorCode::KeyNotFound);
    assert_eq!(get_f64(&kvs, "fallback")?, 7.0);

    // an entirely unknown key behaves the same
    assert_eq!(kvs.remove_key("unknown").unwrap_err(), ErrorCode::KeyNotFound);

    Ok(())
}

/// `get_default_value` consults only the defaults, whatever the store
/// holds; `get_all_keys` and `key_exists` consult only the store.
#[test]
fn kvs_defaults_are_not_store_keys() -> Result<(), ErrorCode> {
    let mut disk = Disk::new();

    write_defaults_file(
        &mut disk,
        HashMap::from([("fallback".to_string(), tinyjson::JsonValue::from(7.0))]),
        0,
    );

    let mut kvs = open_kvs(&disk, 0, true, false)?;
    assert!(!kvs.key_exists("fallback")?);
    assert_eq!(kvs.get_all_keys()?.len(), 0);
    assert_eq!(kvs.get_default_value("fallback")?, num(7.0));
    assert_eq!(kvs.get_default_value("other").unwrap_err(), ErrorCode::KeyNotFound);

    kvs.set_value("fallback".to_string(), num(9.0))?;
    kvs.set_value("other".to_string(), num(1.0))?;
    assert!(kvs.key_exists("fallback")?);
    assert_eq!(kvs.get_all_keys()?, vec!["fallback".to_string(), "other".to_string()]);
    // the default is unchanged by the write
    assert_eq!(kvs.get_default_value("fallback")?, num(7.0));

    Ok(())
}
