use ferrumcraft::id::NamespacedId;
use ferrumcraft::registry::{Registry, RegistryBuilder};

#[test]
fn register_and_lookup() {
    let mut reg: Registry<u32> = Registry::new();
    let id: NamespacedId = "ferrumcraft:stone".parse().unwrap();
    reg.register(id.clone(), 42);
    assert_eq!(reg.get(&id), Some(&42));
}

#[test]
fn contains_works() {
    let mut reg: Registry<u32> = Registry::new();
    let id: NamespacedId = "ferrumcraft:stone".parse().unwrap();
    assert!(!reg.contains(&id));
    reg.register(id.clone(), 1);
    assert!(reg.contains(&id));
}

#[test]
fn len_tracks_count() {
    let mut reg: Registry<u32> = Registry::new();
    assert_eq!(reg.len(), 0);
    reg.register("a:b".parse().unwrap(), 1);
    reg.register("c:d".parse().unwrap(), 2);
    assert_eq!(reg.len(), 2);
}

#[test]
fn iter_in_order() {
    let mut reg: Registry<u32> = Registry::new();
    reg.register("mod:a".parse().unwrap(), 10);
    reg.register("mod:b".parse().unwrap(), 20);
    let ids: Vec<String> = reg.iter().into_iter().map(|(id, _)| id.to_string()).collect();
    assert_eq!(ids, vec!["mod:a", "mod:b"]);
}

#[test]
fn builder_constructs_registry() {
    let reg: Registry<&str> = RegistryBuilder::new()
        .add("ferrumcraft:a".parse().unwrap(), "alpha")
        .add("ferrumcraft:b".parse().unwrap(), "beta")
        .build();
    assert_eq!(reg.len(), 2);
}

#[test]
fn into_iter_yields_all() {
    let mut reg: Registry<i32> = Registry::new();
    reg.register("m:x".parse().unwrap(), 100);
    reg.register("m:y".parse().unwrap(), 200);
    let vec: Vec<(String, i32)> = reg.into_iter().into_iter().map(|(id, v)| (id.to_string(), v)).collect();
    assert_eq!(vec.len(), 2);
}

#[test]
fn lookup_of_missing_id_is_none_and_builder_keeps_order() {
    let reg: Registry<u8> = RegistryBuilder::new()
        .add("m:b".parse().unwrap(), 2)
        .add("m:a".parse().unwrap(), 1)
        .build();
    assert_eq!(reg.get(&"m:c".parse().unwrap()), None);
    let order: Vec<(String, u8)> = reg.iter().into_iter().map(|(id, v)| (id.to_string(), *v)).collect();
    assert_eq!(order, vec![("m:b".to_string(), 2), ("m:a".to_string(), 1)]);
    let copy = reg.clone();
    assert_eq!(copy.get(&"m:a".parse().unwrap()), Some(&1));
}
