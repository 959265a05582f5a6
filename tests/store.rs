use game_relay::{PeerRegistry, RemoteState, WorldStateStore};

#[test]
fn store_keeps_ascending_ids() {
    let mut store = WorldStateStore::new();
    store.upsert(RemoteState::new(3, 0, 0, 0));
    store.upsert(RemoteState::new(1, 1, 1, 1));
    store.upsert(RemoteState::new(2, 2, 2, 2));
    let ids: Vec<usize> = store.snapshot().iter().map(|s| s.id).collect();
    assert_eq!(ids, vec![1, 2, 3]);
}

#[test]
fn store_upsert_replaces_wholesale() {
    let mut store = WorldStateStore::new();
    store.upsert(RemoteState::new(5, 1, 2, 3));
    store.upsert(RemoteState::new(5, 7, 8, 9));
    assert_eq!(store.snapshot(), vec![RemoteState::new(5, 7, 8, 9)]);
}

#[test]
fn store_remove_forgets_only_that_id() {
    let mut store = WorldStateStore::new();
    store.upsert(RemoteState::new(0, 1, 1, 1));
    store.upsert(RemoteState::new(usize::MAX, 2, 2, 2));
    store.remove(0);
    store.remove(17);
    assert_eq!(store.snapshot(), vec![RemoteState::new(usize::MAX, 2, 2, 2)]);
}

#[test]
fn registry_register_replace_and_unregister() {
    let mut reg: PeerRegistry<&str> = PeerRegistry::new();
    reg.register(2, "b");
    reg.register(1, "a");
    reg.register(2, "c");
    assert_eq!(reg.ids(), vec![1, 2]);
    assert_eq!(reg.sink(2), Some(&"c"));
    assert!(reg.contains(1));
    assert_eq!(reg.unregister(1), Some("a"));
    assert_eq!(reg.unregister(1), None);
    assert!(!reg.contains(1));
    assert_eq!(reg.sink(1), None);
    assert_eq!(reg.ids(), vec![2]);
}
