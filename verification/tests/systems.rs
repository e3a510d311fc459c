use things::{ComponentKind, Query, Statement, System, Things, Value};

struct AssertValues;

impl System for AssertValues {
    fn query() -> Query {
        Query::new(vec![
            Statement::Read(ComponentKind::Int),
            Statement::Read(ComponentKind::Text),
        ])
    }

    fn update(reads: &Vec<Value>, _writes: &mut Vec<Value>) {
        assert_eq!(reads[0], Value::Int(10));
        assert_eq!(reads[1], Value::Text(String::from("hello")));
    }
}

#[test]
fn test_reader_system() {
    let mut ecs = Things::new();
    ecs.create_entity(vec![Value::Int(10), Value::Text(String::from("hello"))]);
    let _ = ecs.execute_system::<AssertValues>();
}

struct IncrementCounter;

impl System for IncrementCounter {
    fn query() -> Query {
        Query::new(vec![
            Statement::Read(ComponentKind::Text),
            Statement::Write(ComponentKind::Int),
        ])
    }

    fn update(reads: &Vec<Value>, writes: &mut Vec<Value>) {
        match writes[0] {
            Value::Int(i) => writes[0] = Value::Int(i + 1),
            _ => panic!("expected an integer component"),
        }
        assert_eq!(writes[0], Value::Int(11));
        assert_eq!(reads[0], Value::Text(String::from("hello")));
    }
}

#[test]
fn test_writer_system() {
    let mut ecs = Things::new();
    ecs.create_entity(vec![Value::Text(String::from("hello")), Value::Int(10)]);
    let _ = ecs.execute_system::<IncrementCounter>();
}

struct ReadBackEleven;

impl System for ReadBackEleven {
    fn query() -> Query {
        Query::new(vec![Statement::Read(ComponentKind::Int)])
    }

    fn update(reads: &Vec<Value>, _writes: &mut Vec<Value>) {
        assert_eq!(reads[0], Value::Int(11));
    }
}

struct CountRows;

impl System for CountRows {
    fn query() -> Query {
        Query::new(vec![Statement::Write(ComponentKind::Flag)])
    }

    fn update(_reads: &Vec<Value>, writes: &mut Vec<Value>) {
        // mark the row as visited
        writes[0] = Value::Flag(true);
    }
}

#[test]
fn test_written_component_reads_back_updated() {
    let mut ecs = Things::new();
    ecs.create_entity(vec![Value::Text(String::from("hello")), Value::Int(10)]);
    assert!(ecs.execute_system::<IncrementCounter>().is_ok());
    // the access set was released, so a second query may touch the type;
    // the stored integer now reads back as 11
    assert!(ecs.execute_system::<ReadBackEleven>().is_ok());
}

struct NeverRuns;

impl System for NeverRuns {
    fn query() -> Query {
        Query::new(vec![Statement::Read(ComponentKind::Flag)])
    }

    fn update(_reads: &Vec<Value>, _writes: &mut Vec<Value>) {
        panic!("a component type with zero stored instances joined a row");
    }
}

#[test]
fn test_querying_unstored_type_is_not_an_error() {
    let mut ecs = Things::new();
    ecs.create_entity(vec![Value::Int(5)]);
    // the joined iteration is empty, never an error
    assert!(ecs.execute_system::<NeverRuns>().is_ok());
}

struct InternallyConflicted;

impl System for InternallyConflicted {
    fn query() -> Query {
        Query::new(vec![
            Statement::Read(ComponentKind::Int),
            Statement::Write(ComponentKind::Int),
        ])
    }

    fn update(_reads: &Vec<Value>, _writes: &mut Vec<Value>) {
        panic!("a rejected query must not iterate");
    }
}

#[test]
fn test_rejected_query_touches_no_store() {
    let mut ecs = Things::new();
    ecs.create_entity(vec![Value::Int(10), Value::Text(String::from("hello"))]);
    assert!(ecs.execute_system::<InternallyConflicted>().is_err());
    // the rejection left no outstanding access set and changed no store
    assert!(ecs.execute_system::<AssertValues>().is_ok());
}

struct DoubleWriter;

impl System for DoubleWriter {
    fn query() -> Query {
        Query::new(vec![
            Statement::Write(ComponentKind::Int),
            Statement::Write(ComponentKind::Int),
        ])
    }

    fn update(_reads: &Vec<Value>, _writes: &mut Vec<Value>) {
        panic!("a rejected query must not iterate");
    }
}

#[test]
fn test_double_write_system_is_rejected() {
    let mut ecs = Things::new();
    ecs.create_entity(vec![Value::Int(1)]);
    assert!(ecs.execute_system::<DoubleWriter>().is_err());
}

struct AssertFlagsTrue;

impl System for AssertFlagsTrue {
    fn query() -> Query {
        Query::new(vec![Statement::Read(ComponentKind::Flag)])
    }

    fn update(reads: &Vec<Value>, _writes: &mut Vec<Value>) {
        assert_eq!(reads[0], Value::Flag(true));
    }
}

#[test]
fn test_execute_query_visits_every_joined_row() {
    let mut ecs = Things::new();
    ecs.create_entity(vec![Value::Flag(false)]);
    ecs.create_entity(vec![Value::Int(1)]);
    ecs.create_entity(vec![Value::Flag(false)]);
    let q = <CountRows as System>::query();
    assert!(ecs.execute_query::<CountRows>(&q).is_ok());
    // both flag rows were handed to the system and written back
    assert!(ecs.execute_system::<AssertFlagsTrue>().is_ok());
    assert_eq!(ecs.current_cursor(), 3);
    assert_eq!(ecs.entity_count(), 3);
}

#[test]
fn test_cursor_and_references_advance_per_entity() {
    let mut ecs = Things::new();
    assert_eq!(ecs.current_cursor(), 0);
    ecs.create_entity(vec![Value::Int(1), Value::Text(String::from("a"))]);
    assert_eq!(ecs.current_cursor(), 1);
    ecs.create_entity(vec![Value::Int(2), Value::Int(3)]);
    // two components of one type span two positions
    assert_eq!(ecs.current_cursor(), 3);
    assert_eq!(ecs.entity_count(), 2);
}
