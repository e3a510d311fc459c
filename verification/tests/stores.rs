use things::{
    store, Component, ComponentCollection, ComponentKind, ComponentStore, DefaultStore, Query,
    Read, Statement, Store, StoreRegistry, Value,
};

#[test]
fn component_test_implicit_component_trait() {
    #[derive(Debug)]
    struct C;

    let _: Box<dyn Component> = Box::new(C);
}

#[test]
fn test_component_collection() {
    let mut reg = StoreRegistry::new();
    let v = vec![Value::Flag(false), Value::Flag(false)];
    let _ = ComponentCollection::store(v, &mut reg, 0);
}

#[test]
fn test_component_collection_heterogeneous() {
    let mut reg = StoreRegistry::new();
    let v = vec![Value::Flag(false), Value::Int(1)];
    let _ = ComponentCollection::store(v, &mut reg, 0);
}

#[test]
fn test_store_trait_push_through_default_store() {
    let mut s = <DefaultStore as Store>::new(ComponentKind::Int);
    assert_eq!(Store::push(&mut s, 0, Value::Int(9)), 1);
    assert_eq!(Store::as_slice(&s), &[Some(Value::Int(9))]);
}

#[test]
fn test_push_appends_and_returns_new_length() {
    let mut s = DefaultStore::new(ComponentKind::Int);
    assert_eq!(s.len(), 0);
    assert_eq!(s.push(0, Value::Int(1)), 1);
    assert_eq!(s.push(1, Value::Int(2)), 2);
    // a position below the current length appends right after the last slot
    assert_eq!(s.push(0, Value::Int(3)), 3);
    assert_eq!(s.get(2), &Some(Value::Int(3)));
}

#[test]
fn test_push_gap_fills_with_absent_markers() {
    let mut s = DefaultStore::new(ComponentKind::Int);
    let new_len = s.push(3, Value::Int(7));
    assert_eq!(new_len, 4);
    assert_eq!(s.get(0), &None);
    assert_eq!(s.get(1), &None);
    assert_eq!(s.get(2), &None);
    assert_eq!(s.get(3), &Some(Value::Int(7)));
    assert_eq!(s.as_slice().len(), 4);
}

#[test]
fn test_erased_store_downcast_reports_failure_safely() {
    let cs = ComponentStore::erase(DefaultStore::new(ComponentKind::Int));
    assert!(cs.as_store(ComponentKind::Int).is_some());
    assert!(cs.as_store(ComponentKind::Text).is_none());
    assert!(cs.as_store(ComponentKind::Flag).is_none());
}

#[test]
fn test_mutable_downcast_reaches_the_typed_store() {
    let mut cs = ComponentStore::erase(DefaultStore::new(ComponentKind::Flag));
    let s = cs.as_mut_store(ComponentKind::Flag);
    assert_eq!(s.push(0, Value::Flag(true)), 1);
    let back = cs.as_store(ComponentKind::Flag).unwrap();
    assert_eq!(back.get(0), &Some(Value::Flag(true)));
}

#[test]
fn test_store_result_aligned_pair() {
    let mut reg = StoreRegistry::new();
    let r = store(
        vec![Value::Int(1), Value::Text(String::from("a"))],
        &mut reg,
        0,
    );
    assert_eq!(r.position, 0);
    assert_eq!(r.len, 1);
}

#[test]
fn test_store_result_duplicate_type_spans_two_positions() {
    let mut reg = StoreRegistry::new();
    let r = store(vec![Value::Int(1), Value::Int(2)], &mut reg, 0);
    assert_eq!(r.position, 0);
    assert_eq!(r.len, 2);
    let cs = reg.get(ComponentKind::Int).unwrap();
    let s = cs.as_store(ComponentKind::Int).unwrap();
    assert_eq!(s.get(0), &Some(Value::Int(1)));
    assert_eq!(s.get(1), &Some(Value::Int(2)));
}

#[test]
fn test_store_registers_lazily() {
    let mut reg = StoreRegistry::new();
    assert!(reg.get(ComponentKind::Text).is_none());
    reg.push_component(0, Value::Text(String::from("x")));
    assert!(reg.get(ComponentKind::Text).is_some());
    assert!(reg.get(ComponentKind::Int).is_none());
}

#[test]
fn test_alignment_across_stores() {
    // Entities created at consecutive cursors: components of one entity
    // share one alignment position across their stores.
    let mut reg = StoreRegistry::new();
    let mut cursor: usize = 0;
    let r1 = store(
        vec![Value::Int(1), Value::Text(String::from("a"))],
        &mut reg,
        cursor,
    );
    cursor += r1.len;
    let r2 = store(vec![Value::Text(String::from("b"))], &mut reg, cursor);
    cursor += r2.len;
    let r3 = store(
        vec![Value::Int(3), Value::Text(String::from("c"))],
        &mut reg,
        cursor,
    );
    assert_eq!(r1.position, 0);
    assert_eq!(r2.position, 1);
    assert_eq!(r3.position, 2);
    // the integer store was padded across the middle entity
    let ints = reg.get(ComponentKind::Int).unwrap();
    let s = ints.as_store(ComponentKind::Int).unwrap();
    assert_eq!(s.get(1), &None);
    assert_eq!(s.get(2), &Some(Value::Int(3)));
}

#[test]
fn test_join_yields_only_fully_populated_rows_in_order() {
    let mut reg = StoreRegistry::new();
    let mut cursor: usize = 0;
    for components in [
        vec![Value::Int(1), Value::Text(String::from("a"))],
        vec![Value::Text(String::from("b"))],
        vec![Value::Int(3), Value::Text(String::from("c"))],
    ] {
        let r = store(components, &mut reg, cursor);
        cursor += r.len;
    }
    let q = Query::new(vec![
        Statement::Read(ComponentKind::Int),
        Statement::Read(ComponentKind::Text),
    ]);
    let rows = q.join(&reg);
    assert_eq!(rows, vec![0, 2]);
}

#[test]
fn test_join_of_never_stored_type_is_empty() {
    let mut reg = StoreRegistry::new();
    let r = store(vec![Value::Int(1)], &mut reg, 0);
    assert_eq!(r.len, 1);
    let q = Query::new(vec![
        Statement::Read(ComponentKind::Int),
        Statement::Read(ComponentKind::Flag),
    ]);
    let rows = q.join(&reg);
    assert_eq!(rows.len(), 0);
}

#[test]
fn test_join_of_empty_query_is_empty() {
    let mut reg = StoreRegistry::new();
    store(vec![Value::Int(1)], &mut reg, 0);
    let q = Query::new(vec![]);
    assert_eq!(q.join(&reg).len(), 0);
}

#[test]
fn test_read_declaration_resolves_to_slot_view() {
    let mut reg = StoreRegistry::new();
    store(vec![Value::Int(1)], &mut reg, 0);
    store(vec![Value::Int(2)], &mut reg, 1);
    let ints = Read(ComponentKind::Int).find(&reg);
    assert_eq!(ints, &[Some(Value::Int(1)), Some(Value::Int(2))]);
    // a type that was never stored resolves to an empty view
    let flags = Read(ComponentKind::Flag).find(&reg);
    assert!(flags.is_empty());
}

#[test]
fn test_value_kind_and_clone() {
    let v = Value::Text(String::from("hello"));
    assert_eq!(v.which_kind(), ComponentKind::Text);
    assert_eq!(v.clone(), v);
    assert_eq!(Value::Int(4).which_kind(), ComponentKind::Int);
    assert_eq!(Value::Flag(true).which_kind(), ComponentKind::Flag);
}
