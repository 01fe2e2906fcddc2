use persist_cache::backend::{get_value, set_value, MemoryStorage, StorageBacking};
use persist_cache::codec::{
    serde_from_string, serde_to_bytes, serde_to_string, try_serde_from_bytes,
    try_serde_from_string,
};
use persist_cache::entry::{storage_entry, synced_storage_entry, StorageEntry};
use persist_cache::hex::{from_hex, to_hex};
use persist_cache::identity::{derive_key, CellIdentity};
use persist_cache::hub::{publish, use_onchange, use_synced_storage_entry, ChangeHub};
use persist_cache::slots::{use_cached_signal, PersistentStorage};

#[test]
fn hex_writes_two_lower_case_digits_per_byte() {
    assert_eq!(to_hex(&[0x0f, 0xa0, 0x00, 0xff]), "0fa000ff");
    assert_eq!(to_hex(&[]), "");
}

#[test]
fn hex_reads_either_case() {
    assert_eq!(from_hex("0fA0ff"), Some(vec![0x0f, 0xa0, 0xff]));
    assert_eq!(from_hex(""), Some(vec![]));
}

#[test]
fn hex_refuses_odd_length_and_other_characters() {
    assert_eq!(from_hex("abc"), None);
    assert_eq!(from_hex("zz"), None);
    assert_eq!(from_hex("0g"), None);
}

#[test]
fn round_trip_of_integers() {
    for v in [0i64, 1, -1, 5, i64::MAX, i64::MIN, 123456789] {
        let text = serde_to_string(&v);
        assert_eq!(try_serde_from_string::<i64>(&text), Some(v));
        assert_eq!(serde_from_string::<i64>(&text), v);
    }
}

#[test]
fn round_trip_of_strings() {
    for v in ["", "counter", "héllo wörld", "a longer piece of text, a longer piece of text"] {
        let text = serde_to_string(&v.to_string());
        assert_eq!(try_serde_from_string::<String>(&text), Some(v.to_string()));
    }
}

#[test]
fn encoding_is_a_zlib_stream_in_hex() {
    let bytes = serde_to_bytes(&5i64);
    // zlib streams open with the byte 0x78.
    assert_eq!(bytes[0], 0x78);
    let text = serde_to_string(&5i64);
    assert_eq!(text, to_hex(&bytes));
    assert!(text.chars().all(|c| c.is_ascii_hexdigit() && !c.is_ascii_uppercase()));
    assert_eq!(try_serde_from_bytes::<i64>(&bytes), Some(5));
}

#[test]
fn corrupt_text_decodes_to_nothing() {
    assert_eq!(try_serde_from_string::<i64>("not hex at all"), None);
    assert_eq!(try_serde_from_string::<i64>("abc"), None);
    assert_eq!(try_serde_from_string::<i64>("00ff00ff"), None);
    assert_eq!(try_serde_from_bytes::<i64>(&[1, 2, 3]), None);
}

#[test]
fn memory_storage_get_and_set() {
    let mut backend = MemoryStorage::new();
    let key = "counter".to_string();
    assert_eq!(get_value::<_, i64>(&backend, &key), None);
    assert_eq!(set_value(&mut backend, key.clone(), &7i64), Ok(()));
    assert_eq!(get_value::<_, i64>(&backend, &key), Some(7));
    assert_eq!(set_value(&mut backend, key.clone(), &9i64), Ok(()));
    assert_eq!(get_value::<_, i64>(&backend, &key), Some(9));
    assert_eq!(backend.get_raw(&key), Some(serde_to_string(&9i64)));
    assert_eq!(backend.get_raw(&"other".to_string()), None);
}

#[test]
fn setting_twice_changes_nothing_more() {
    let mut backend = MemoryStorage::new();
    let key = "k".to_string();
    set_value(&mut backend, key.clone(), &42i64).unwrap();
    let first = backend.get_raw(&key);
    set_value(&mut backend, key.clone(), &42i64).unwrap();
    assert_eq!(backend.get_raw(&key), first);
    assert_eq!(get_value::<_, i64>(&backend, &key), Some(42));
}

#[test]
fn corrupted_slot_reads_as_missing() {
    let mut backend = MemoryStorage::new();
    let key = "counter".to_string();
    backend.set_raw(key.clone(), "zz-not-a-payload".to_string()).unwrap();
    assert_eq!(get_value::<_, i64>(&backend, &key), None);
    backend.set_raw(key.clone(), "0102".to_string()).unwrap();
    assert_eq!(get_value::<_, i64>(&backend, &key), None);
}

#[test]
fn guard_release_writes_the_value() {
    let mut backend = MemoryStorage::new();
    let entry = StorageEntry::new("k".to_string(), 1i64);
    let mut guard = entry.write();
    assert_eq!(*guard.read(), 1);
    guard.set_data(10);
    assert_eq!(get_value::<_, i64>(&backend, &"k".to_string()), None);
    let (entry, res) = guard.release(&mut backend);
    assert_eq!(res, Ok(()));
    assert_eq!(*entry.read(), 10);
    assert_eq!(get_value::<_, i64>(&backend, &"k".to_string()), Some(10));
}

#[test]
fn with_mut_applies_and_flushes() {
    let mut backend = MemoryStorage::new();
    let mut entry = StorageEntry::new("k".to_string(), 4i64);
    assert_eq!(entry.with_mut(&mut backend, |x: &i64| *x * 3), Ok(()));
    assert_eq!(entry.data, 12);
    assert_eq!(get_value::<_, i64>(&backend, &"k".to_string()), Some(12));
}

#[test]
fn update_takes_the_stored_value_and_keeps_on_miss() {
    let mut backend = MemoryStorage::new();
    let mut entry = StorageEntry::new("k".to_string(), 3i64);
    entry.update(&backend);
    assert_eq!(entry.data, 3);
    set_value(&mut backend, "k".to_string(), &8i64).unwrap();
    entry.update(&backend);
    assert_eq!(entry.data, 8);
    backend.set_raw("k".to_string(), "garbage".to_string()).unwrap();
    entry.update(&backend);
    assert_eq!(entry.data, 8);
    assert_eq!(entry.key(), "k");
}

#[test]
fn save_writes_the_held_value() {
    let mut backend = MemoryStorage::new();
    let entry = StorageEntry::new("name".to_string(), "dioxus".to_string());
    assert_eq!(entry.save(&mut backend), Ok(()));
    assert_eq!(
        get_value::<_, String>(&backend, &"name".to_string()),
        Some("dioxus".to_string())
    );
}

#[test]
fn cold_start_runs_the_initializer_and_stores() {
    let mut backend = MemoryStorage::new();
    let mut calls = 0;
    let (entry, res) = synced_storage_entry(&mut backend, "counter".to_string(), || {
        calls += 1;
        0i64
    });
    assert_eq!(res, Ok(()));
    assert_eq!(calls, 1);
    assert_eq!(entry.data, 0);
    assert_eq!(backend.get_raw(&"counter".to_string()), Some(serde_to_string(&0i64)));
}

#[test]
fn warm_start_does_not_run_the_initializer() {
    let mut backend = MemoryStorage::new();
    set_value(&mut backend, "counter".to_string(), &17i64).unwrap();
    let (value, res) = storage_entry(&mut backend, "counter".to_string(), || -> i64 {
        panic!("the initializer must not run on a hit")
    });
    assert_eq!(res, Ok(()));
    assert_eq!(value, 17);
}

#[test]
fn corrupt_slot_falls_back_to_the_initializer() {
    let mut backend = MemoryStorage::new();
    backend.set_raw("counter".to_string(), "xyz".to_string()).unwrap();
    let (value, res) = storage_entry(&mut backend, "counter".to_string(), || 4i64);
    assert_eq!(res, Ok(()));
    assert_eq!(value, 4);
    assert_eq!(get_value::<_, i64>(&backend, &"counter".to_string()), Some(4));
}

#[test]
fn same_explicit_key_gives_the_same_slot() {
    let mut backend = MemoryStorage::new();
    let mut hub = ChangeHub::new();
    let (first, _) = use_synced_storage_entry(&mut backend, &mut hub, 1, "k".to_string(), || 5i64);
    let (second, _) =
        use_synced_storage_entry(&mut backend, &mut hub, 1, "k".to_string(), || 99i64);
    assert_eq!(first.key(), second.key());
    assert_eq!(first.data, 5);
    assert_eq!(second.data, 5);
}

#[test]
fn change_reaches_the_other_instance() {
    let mut backend = MemoryStorage::new();
    let mut hub = ChangeHub::new();
    let writer = 1u64;
    let reader = 2u64;
    let (mut reader_entry, _) =
        use_synced_storage_entry(&mut backend, &mut hub, reader, "counter".to_string(), || 0i64);
    let (_writer_entry, _) =
        use_synced_storage_entry(&mut backend, &mut hub, writer, "counter".to_string(), || 0i64);
    let (res, targets) = publish(&mut backend, &hub, writer, "counter".to_string(), &5i64);
    assert_eq!(res, Ok(()));
    assert_eq!(targets, vec![reader]);
    for t in targets {
        if t == reader {
            reader_entry.update(&backend);
        }
    }
    assert_eq!(reader_entry.data, 5);
}

#[test]
fn writer_is_not_told_of_its_own_write() {
    let mut hub = ChangeHub::new();
    use_onchange(&mut hub, 1, "a".to_string());
    use_onchange(&mut hub, 2, "a".to_string());
    use_onchange(&mut hub, 3, "b".to_string());
    assert_eq!(hub.notify_targets(1, &"a".to_string()), vec![2]);
    assert_eq!(hub.notify_targets(9, &"b".to_string()), vec![3]);
    assert_eq!(hub.notify_targets(9, &"c".to_string()), Vec::<u64>::new());
}

#[test]
fn teardown_removes_the_scope_listeners() {
    let mut hub = ChangeHub::new();
    hub.subscribe(1, "a".to_string());
    hub.subscribe(2, "a".to_string());
    hub.subscribe(2, "b".to_string());
    hub.teardown(2);
    assert_eq!(hub.notify_targets(0, &"a".to_string()), vec![1]);
    assert_eq!(hub.notify_targets(0, &"b".to_string()), Vec::<u64>::new());
}

#[test]
fn two_anonymous_cells_keep_their_ordinals_across_renders() {
    let mut slots = PersistentStorage::new();
    slots.begin_render();
    let (a, va) = use_cached_signal(&mut slots, || 1i64);
    let (b, vb) = use_cached_signal(&mut slots, || 2i64);
    assert_eq!((a, b), (0, 1));
    assert_eq!((va, vb), (1, 2));
    slots.store(a, &11i64);
    slots.begin_render();
    let (a2, va2) = use_cached_signal(&mut slots, || 100i64);
    let (b2, vb2) = use_cached_signal(&mut slots, || 200i64);
    assert_eq!((a2, b2), (0, 1));
    assert_eq!((va2, vb2), (11, 2));
    assert_eq!(slots.data.len(), 2);
}

#[test]
fn mod_test_use_cached_state() {
    let mut slots = PersistentStorage::new();
    let (ordinal, signal) = use_cached_signal(&mut slots, || 0i32);
    assert_eq!(ordinal, 0);
    assert_eq!(format!("{signal}"), "0");
}

#[test]
fn keys_of_identities() {
    assert_eq!(derive_key(&CellIdentity::Explicit("counter".to_string())), "counter");
    assert_eq!(derive_key(&CellIdentity::Slot { scope: 12, ordinal: 0 }), "12:0");
    assert_eq!(derive_key(&CellIdentity::Slot { scope: 0, ordinal: 345 }), "0:345");
    assert_eq!(
        derive_key(&CellIdentity::Slot { scope: u64::MAX, ordinal: 10 }),
        "18446744073709551615:10"
    );
    assert_ne!(
        derive_key(&CellIdentity::Slot { scope: 1, ordinal: 23 }),
        derive_key(&CellIdentity::Slot { scope: 12, ordinal: 3 })
    );
}

#[test]
fn mirror_writes_only_on_change() {
    let mut backend = MemoryStorage::new();
    let mut entry = StorageEntry::new("m".to_string(), 1i64);
    assert_eq!(entry.mirror(&mut backend), Ok(true));
    assert_eq!(entry.mirror(&mut backend), Ok(false));
    entry.data = 2;
    assert_eq!(entry.mirror(&mut backend), Ok(true));
    assert_eq!(get_value::<_, i64>(&backend, &"m".to_string()), Some(2));
}

#[test]
fn round_trip_of_small_integers() {
    for v in [0i32, 5, -7, i32::MAX, i32::MIN] {
        let text = serde_to_string(&v);
        assert_eq!(try_serde_from_string::<i32>(&text), Some(v));
    }
}

#[test]
fn encoding_is_deterministic_and_distinguishes_values() {
    assert_eq!(serde_to_string(&5i32), serde_to_string(&5i32));
    assert_ne!(serde_to_string(&5i32), serde_to_string(&6i32));
    let text = serde_to_string(&"x".to_string());
    assert!(!text.is_empty() && text.len() % 2 == 0);
}

#[test]
fn subscribing_twice_notifies_once() {
    let mut hub = ChangeHub::new();
    hub.subscribe(2, "counter".to_string());
    hub.subscribe(2, "counter".to_string());
    let mut backend = MemoryStorage::new();
    let (_e, _) = use_synced_storage_entry(&mut backend, &mut hub, 2, "counter".to_string(), || 0i32);
    assert_eq!(hub.notify_targets(1, &"counter".to_string()), vec![2]);
}
