use gwars::simulation::objectstore::{ObjectDefault, ObjectStore};

#[derive(Clone, Debug, PartialEq)]
struct Thing {
    value: u32,
}

impl ObjectDefault for Thing {
    fn default() -> Self {
        Thing { value: 7 }
    }
}

fn store_with(values: &[u32]) -> (ObjectStore<Thing>, Vec<usize>) {
    let mut store: ObjectStore<Thing> = ObjectStore::new();
    let mut ids = Vec::new();
    for v in values {
        ids.push(store.insert_object(Thing { value: *v }));
    }
    (store, ids)
}

#[test]
fn new_store_is_empty() {
    let store: ObjectStore<Thing> = ObjectStore::new();
    assert_eq!(store.len(), 0);
    assert_eq!(store.id(), 0);
}

#[test]
fn create_object_gives_increasing_ids_and_default() {
    let mut store: ObjectStore<Thing> = ObjectStore::new();
    assert_eq!(store.create_object(), 0);
    assert_eq!(store.create_object(), 1);
    assert_eq!(store.create_object(), 2);
    assert_eq!(store.len(), 3);
    assert_eq!(store.id(), 3);
    assert_eq!(store.get_object(1), Thing { value: 7 });
}

#[test]
fn insert_then_get_returns_object() {
    let (store, ids) = store_with(&[10, 20, 30]);
    assert_eq!(ids, vec![0, 1, 2]);
    assert_eq!(store.get_object(0), Thing { value: 10 });
    assert_eq!(store.get_object(1), Thing { value: 20 });
    assert_eq!(store.get_object_clone(2), Thing { value: 30 });
}

#[test]
fn update_changes_only_that_object() {
    let (mut store, _) = store_with(&[10, 20, 30]);
    store.update_object(1, Thing { value: 99 });
    assert_eq!(store.get_object(0), Thing { value: 10 });
    assert_eq!(store.get_object(1), Thing { value: 99 });
    assert_eq!(store.get_object(2), Thing { value: 30 });
    assert_eq!(store.len(), 3);
}

#[test]
fn garbage_collect_removes_listed_ids_keeping_order() {
    let (mut store, _) = store_with(&[10, 20, 30, 40]);
    store.garbage_collect(&vec![1, 3, 17]);
    assert_eq!(store.len(), 2);
    assert_eq!(store.filter_ids(|_| true), vec![0, 2]);
    assert_eq!(store.get_object(2), Thing { value: 30 });
}

#[test]
fn ids_are_not_reused_after_garbage_collection() {
    let (mut store, _) = store_with(&[10, 20]);
    store.garbage_collect(&vec![0, 1]);
    assert_eq!(store.len(), 0);
    let id = store.insert_object(Thing { value: 5 });
    assert_eq!(id, 2);
    assert_eq!(store.get_object(2), Thing { value: 5 });
}

#[test]
fn garbage_collect_filter_removes_matching() {
    let (mut store, _) = store_with(&[1, 2, 3, 4, 5]);
    store.garbage_collect_filter(|t| t.value % 2 == 0);
    assert_eq!(store.filter_ids(|_| true), vec![0, 2, 4]);
    assert_eq!(store.filter_map(|t| Some(t.value)), vec![1, 3, 5]);
}

#[test]
fn filter_ids_in_store_order() {
    let (store, _) = store_with(&[5, 50, 6, 60]);
    assert_eq!(store.filter_ids(|t| t.value >= 10), vec![1, 3]);
    assert_eq!(store.filter_ids(|_| false), Vec::<usize>::new());
}

#[test]
fn filter_map_keeps_some_answers() {
    let (store, _) = store_with(&[5, 50, 6, 60]);
    let out = store.filter_map(|t| if t.value < 10 { Some(t.value * 2) } else { None });
    assert_eq!(out, vec![10, 12]);
}

#[test]
fn for_each_passes_ids_and_replaces_objects() {
    let (mut store, _) = store_with(&[1, 2, 3]);
    let mut seen = Vec::new();
    store.for_each(|t, id| {
        seen.push(id);
        Thing { value: t.value + id as u32 * 100 }
    });
    assert_eq!(seen, vec![0, 1, 2]);
    assert_eq!(store.filter_map(|t| Some(t.value)), vec![1, 102, 203]);
}

#[test]
fn with_changes_the_object_under_the_id() {
    let (mut store, _) = store_with(&[1, 2, 3]);
    store.with(2, |t| t.value *= 10);
    assert_eq!(store.filter_map(|t| Some(t.value)), vec![1, 2, 30]);
}

#[test]
fn with_new_starts_from_default() {
    let (mut store, _) = store_with(&[1]);
    let mut given = None;
    store.with_new(|t, id| {
        given = Some(id);
        t.value += 1;
    });
    assert_eq!(given, Some(1));
    assert_eq!(store.get_object(1), Thing { value: 8 });
    assert_eq!(store.len(), 2);
}

#[test]
fn contains_follows_inserts_and_removals() {
    let (mut store, _) = store_with(&[1, 2]);
    assert!(store.contains(0));
    assert!(store.contains(1));
    assert!(!store.contains(2));
    store.garbage_collect(&vec![0]);
    assert!(!store.contains(0));
    assert!(store.contains(1));
}
