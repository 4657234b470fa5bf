use simetrics_api::store::{
    delete_outcome, exists_outcome, get_outcome, set_outcome, MemoryStore, Resource,
};
use simetrics_api::Exception;

#[test]
fn test_store_set_get_has_delete() {
    let mut store = MemoryStore::new();
    assert!(!store.has(1));
    store.set(1, Resource::Simulation(String::from("alpha")), Some(60));
    assert!(store.has(1));
    match store.get(1) {
        Some(Resource::Simulation(s)) => assert_eq!(s, "alpha"),
        _ => panic!("expected the stored body"),
    }
    assert_eq!(store.delete(1), 1);
    assert!(!store.has(1));
    assert_eq!(store.delete(1), 0);
}

#[test]
fn test_store_set_replaces_whole_value() {
    let mut store = MemoryStore::new();
    store.set(5, Resource::Simulation(String::from("old")), Some(60));
    store.set(5, Resource::Simulation(String::from("new")), None);
    match store.get(5) {
        Some(Resource::Simulation(s)) => assert_eq!(s, "new"),
        _ => panic!("expected the replacement"),
    }
}

#[test]
fn test_exists_outcome() {
    assert!(exists_outcome(Ok(1)));
    assert!(exists_outcome(Ok(3)));
    assert!(!exists_outcome(Ok(0)));
    assert!(!exists_outcome(Err(())));
}

#[test]
fn test_get_outcome() {
    assert_eq!(get_outcome(Ok(Some(String::from("v")))), Some(String::from("v")));
    assert_eq!(get_outcome(Ok(None)), None);
    assert_eq!(get_outcome(Err(())), None);
}

#[test]
fn test_set_outcome() {
    assert!(set_outcome(Ok(())).is_ok());
    match set_outcome(Err(())) {
        Err(Exception::InternalError) => {},
        _ => panic!("expected InternalError"),
    }
}

#[test]
fn test_delete_outcome() {
    match delete_outcome(Ok(2)) {
        Ok(n) => assert_eq!(n, 2),
        Err(_) => panic!("expected the count to pass through"),
    }
    match delete_outcome(Err(())) {
        Err(Exception::InternalError) => {},
        _ => panic!("expected InternalError"),
    }
}
