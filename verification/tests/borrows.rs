use things::{
    ComponentKind, KindSet, Query, RegisterBorrow, RuntimeBorrow, Statement, Things,
};

fn read(k: ComponentKind) -> Statement {
    Statement::Read(k)
}

fn write(k: ComponentKind) -> Statement {
    Statement::Write(k)
}

#[test]
fn test_kind_set_has_set_semantics() {
    let mut s = KindSet::new();
    assert!(!s.contains(ComponentKind::Int));
    assert!(s.insert(ComponentKind::Int));
    assert!(s.contains(ComponentKind::Int));
    // inserting a present type reports it and changes nothing
    assert!(!s.insert(ComponentKind::Int));
    let mut other = KindSet::new();
    other.insert(ComponentKind::Text);
    assert!(s.is_disjoint(&other));
    other.insert(ComponentKind::Int);
    assert!(!s.is_disjoint(&other));
}

#[test]
fn test_double_write_is_rejected_at_registration() {
    let q = Query::new(vec![write(ComponentKind::Int), write(ComponentKind::Int)]);
    let r = q.register_borrow();
    assert!(r.is_err());
    assert_eq!(
        r.err().unwrap().message(),
        String::from("unable to borrow component")
    );
}

#[test]
fn test_read_then_write_of_same_type_is_rejected() {
    let mut things = Things::new();
    let q = Query::new(vec![read(ComponentKind::Int), write(ComponentKind::Int)]);
    assert!(things.borrow_and_validate(&q).is_err());
}

#[test]
fn test_write_then_read_of_same_type_is_rejected() {
    let mut things = Things::new();
    let q = Query::new(vec![write(ComponentKind::Text), read(ComponentKind::Text)]);
    assert!(things.borrow_and_validate(&q).is_err());
}

#[test]
fn test_reads_never_conflict_with_reads() {
    let mut things = Things::new();
    let q1 = Query::new(vec![read(ComponentKind::Int), read(ComponentKind::Text)]);
    let q2 = Query::new(vec![read(ComponentKind::Int), read(ComponentKind::Text)]);
    assert!(things.borrow_and_validate(&q1).is_ok());
    assert!(things.borrow_and_validate(&q2).is_ok());
}

#[test]
fn test_later_write_against_outstanding_reads_is_admitted() {
    // An outstanding query that only reads does not block a later writer:
    // the rule is applied once per ordered pair, from earlier writes only.
    let mut things = Things::new();
    let q1 = Query::new(vec![read(ComponentKind::Int), read(ComponentKind::Text)]);
    let q2 = Query::new(vec![read(ComponentKind::Text), write(ComponentKind::Int)]);
    assert!(things.borrow_and_validate(&q1).is_ok());
    assert!(things.borrow_and_validate(&q2).is_ok());
}

#[test]
fn test_outstanding_write_blocks_later_write() {
    let mut things = Things::new();
    let q1 = Query::new(vec![write(ComponentKind::Int)]);
    let q2 = Query::new(vec![write(ComponentKind::Int)]);
    assert!(things.borrow_and_validate(&q1).is_ok());
    assert!(things.borrow_and_validate(&q2).is_err());
}

#[test]
fn test_outstanding_write_blocks_later_read() {
    let mut things = Things::new();
    let q1 = Query::new(vec![write(ComponentKind::Int)]);
    let q2 = Query::new(vec![read(ComponentKind::Int)]);
    assert!(things.borrow_and_validate(&q1).is_ok());
    assert!(things.borrow_and_validate(&q2).is_err());
}

#[test]
fn test_outstanding_write_tolerates_disjoint_access() {
    let mut things = Things::new();
    let q1 = Query::new(vec![write(ComponentKind::Int)]);
    let q2 = Query::new(vec![read(ComponentKind::Text), write(ComponentKind::Flag)]);
    assert!(things.borrow_and_validate(&q1).is_ok());
    assert!(things.borrow_and_validate(&q2).is_ok());
}

#[test]
fn test_release_lets_conflicting_query_in_again() {
    let mut things = Things::new();
    let q1 = Query::new(vec![write(ComponentKind::Int)]);
    let q2 = Query::new(vec![write(ComponentKind::Int)]);
    assert!(things.borrow_and_validate(&q1).is_ok());
    assert!(things.borrow_and_validate(&q2).is_err());
    // drop the failed attempt, then the outstanding one
    things.release_borrow();
    things.release_borrow();
    assert!(things.borrow_and_validate(&q2).is_ok());
}

#[test]
fn test_ledger_validates_as_a_whole() {
    let mut ledger = RuntimeBorrow::new();
    assert!(ledger.validate().is_ok());
    let q1 = Query::new(vec![read(ComponentKind::Int)]);
    let q2 = Query::new(vec![write(ComponentKind::Int)]);
    assert!(ledger.push_access(&q1).is_ok());
    assert!(ledger.validate().is_ok());
    assert!(ledger.push_access(&q2).is_ok());
    // the later writer is tolerated once, per the ordered-pair rule
    assert!(ledger.validate().is_ok());
    let q3 = Query::new(vec![read(ComponentKind::Int)]);
    assert!(ledger.push_access(&q3).is_ok());
    // now the middle writer precedes a reader of the same type
    assert!(ledger.validate().is_err());
    ledger.release_access();
    assert!(ledger.validate().is_ok());
}
