use rlox::gc::ObjString;
use rlox::table::Table;

#[test]
fn test_simple_set() {
    let mut table = Table::new();

    let foo = ObjString::new("foo".to_string());
    assert!(table.set(&foo, ()));
    assert!(!table.set(&foo, ()));

    let bar = ObjString::new("bar".to_string());
    assert!(table.set(&bar, ()));
    assert!(!table.set(&bar, ()));

    let baz = ObjString::new("baz".to_string());
    assert!(table.set(&baz, ()));
    assert!(!table.set(&baz, ()));
}

#[test]
fn test_setting_256_values() {
    let keys = (0..255)
        .map(|i| (i, ObjString::new(format!("key_{}", i))))
        .collect::<Vec<_>>();
    // We need to use a large number of keys to trigger the capacity
    // adjustment at least a few times.
    let mut table = Table::new();
    for (i, key) in &keys {
        assert!(table.set(key, i));
        assert!(!table.set(key, i));
    }
}

#[test]
fn test_set_get() {
    let mut table = Table::new();

    let foo = ObjString::new("foo".to_string());

    assert!(table.set(&foo, ()));
    assert_eq!(table.get(&foo), Some(&()));
}

#[test]
fn test_empty_get() {
    let table: Table<()> = Table::new();

    let foo = ObjString::new("foo".to_string());

    assert_eq!(table.get(&foo), None);
}

#[test]
fn test_wrong_get() {
    let mut table = Table::new();

    let foo = ObjString::new("foo".to_string());

    assert!(table.set(&foo, ()));

    let bar = ObjString::new("bar".to_string());

    assert_eq!(table.get(&bar), None);
}

#[test]
fn test_getting_256_values() {
    let keys = (0..255)
        .map(|i| (i, ObjString::new(format!("key_{}", i))))
        .collect::<Vec<_>>();
    let mut table = Table::new();
    for (i, key) in &keys {
        assert!(table.set(&key, *i));
        assert!(!table.set(&key, *i));
        assert_eq!(table.get(&key), Some(i));
    }
}

#[test]
fn test_set_delete() {
    let mut table = Table::new();

    let foo = ObjString::new("foo".to_string());

    assert!(table.set(&foo, ()));
    assert!(!table.set(&foo, ()));
    assert!(table.delete(&foo));
    assert!(!table.delete(&foo));
    assert_eq!(table.get(&foo), None);
}

#[test]
fn test_empty_delete() {
    let mut table: Table<()> = Table::new();

    let foo = ObjString::new("foo".to_string());

    assert!(!table.delete(&foo));
}

#[test]
fn test_delete_wrong() {
    let mut table = Table::new();

    let foo = ObjString::new("foo".to_string());

    assert!(table.set(&foo, ()));
    let bar = ObjString::new("bar".to_string());

    assert!(!table.delete(&bar));
    assert_eq!(table.get(&foo), Some(&()));
}

#[test]
fn test_delete_256_values() {
    let mut table = Table::new();
    let keys = (0..256)
        .map(|i| ObjString::new(format!("key_{}", i)))
        .collect::<Vec<_>>();

    for key in &keys {
        assert!(table.set(key, ()));
        assert!(!table.set(key, ()));
    }

    for key in &keys {
        assert!(table.delete(key));
        assert_eq!(table.get(key), None);
    }
}

#[test]
fn test_delete_half_values() {
    let mut table = Table::new();
    let deleted_keys = (0..255)
        .map(|i| ObjString::new(format!("key_{}", i)))
        .collect::<Vec<_>>();
    let spared_keys = (256..512)
        .map(|i| ObjString::new(format!("key_{}", i)))
        .collect::<Vec<_>>();
    let all_keys = deleted_keys.iter().chain(&spared_keys).collect::<Vec<_>>();
    for key in &all_keys {
        assert!(table.set(key, ()));
        assert!(!table.set(key, ()));
    }
    for key in &deleted_keys {
        assert!(table.delete(key));
        assert_eq!(table.get(key), None);
    }
    for key in &spared_keys {
        assert_eq!(table.get(key), Some(&()));
    }
}

#[test]
fn test_delete_8_values_then_add_16() {
    let mut table: Table<isize> = Table::new();
    let first_keys = (0..8)
        .map(|i| (i, ObjString::new(format!("key_{}", i))))
        .collect::<Vec<_>>();

    for (i, key) in &first_keys {
        assert!(table.set(key, *i));
        assert!(!table.set(key, *i));
    }

    for (_, key) in &first_keys {
        assert!(table.delete(key));
        assert_eq!(table.get(key), None);
    }

    // Second keys are twice longer and will need to use the tombstones.
    let second_keys = (0..16)
        .map(|i| (i, ObjString::new(format!("key_{}", i))))
        .collect::<Vec<_>>();

    for (i, key) in &second_keys {
        assert!(table.set(key, *i));
        assert!(!table.set(key, *i));
    }

    for (i, key) in &second_keys {
        assert_eq!(table.get(key), Some(i));
    }
}

#[test]
fn test_set_find() {
    let mut table = Table::new();
    let foo = ObjString::new("foo".to_string());
    assert!(table.set(&foo, ()));
    let foo_2 = ObjString::new("foo".to_string());
    assert_eq!(table.find(&foo_2), Some(&()));
}

#[test]
fn test_empty_find() {
    let table: Table<()> = Table::new();
    let foo = ObjString::new("foo".to_string());
    assert_eq!(table.find(&foo), None);
}

#[test]
fn test_wrong_find() {
    let mut table = Table::new();
    let foo = ObjString::new("foo".to_string());
    assert!(table.set(&foo, ()));
    let bar = ObjString::new("bar".to_string());
    assert_eq!(table.find(&bar), None);
}

#[test]
fn test_finding_256_values() {
    let mut table: Table<usize> = Table::new();
    let keys = (0..256)
        .map(|i| (i, ObjString::new(format!("key_{}", i))))
        .collect::<Vec<_>>();
    for (i, key) in &keys {
        assert!(table.set(key, *i));
    }

    for (i, _) in &keys {
        let key = ObjString::new(format!("key_{}", i));
        assert_eq!(table.find(&key), Some(i));
    }
}

#[test]
fn overwrite_keeps_latest_value() {
    let mut table: Table<u32> = Table::new();
    let k = ObjString::new("k".to_string());
    assert!(table.set(&k, 1));
    assert!(!table.set(&k, 2));
    assert_eq!(table.get(&k), Some(&2));
    assert!(table.delete(&k));
    assert_eq!(table.get(&k), None);
    assert!(table.set(&k, 3));
    assert_eq!(table.get(&k), Some(&3));
}
