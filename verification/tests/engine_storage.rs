use vddb::condition::{CompareOp, Condition};
use vddb::engine::{AggResult, Aggregation, Execution, Query, QueryEngine};
use vddb::schema::Schema;
use vddb::storage::StorageManager;
use vddb::types::{DataType, DbError, Value};

fn engine_with_people() -> QueryEngine {
    let mut engine = QueryEngine::new(StorageManager::new());
    let created = engine.execute(Query::CreateTable {
        table: "T".to_string(),
        columns: vec![
            ("id".to_string(), DataType::Int32),
            ("name".to_string(), DataType::String),
        ],
    });
    assert!(created.is_ok());
    for (id, name) in [(1, "a"), (2, "b"), (3, "c")] {
        let inserted = engine.execute(Query::Insert {
            table: "T".to_string(),
            values: vec![Value::Int32(id), Value::String(name.to_string())],
        });
        assert!(inserted.is_ok());
    }
    engine
}

fn id_greater_than(n: i32) -> Condition {
    Condition::Compare {
        column: "id".to_string(),
        op: CompareOp::GreaterThan,
        value: Value::Int32(n),
    }
}

#[test]
fn insert_increments_row_count() {
    let mut engine = engine_with_people();
    assert_eq!(engine.storage.tables[0].metadata.row_count, 3);
    for store in &engine.storage.tables[0].columns {
        assert_eq!(store.len(), 3);
    }
    let inserted = engine.execute(Query::Insert {
        table: "T".to_string(),
        values: vec![Value::Int32(4), Value::String("d".to_string())],
    });
    assert!(inserted.is_ok());
    assert_eq!(engine.storage.tables[0].metadata.row_count, 4);
    for store in &engine.storage.tables[0].columns {
        assert_eq!(store.len(), 4);
    }
}

#[test]
fn insert_validates_shape() {
    let mut engine = engine_with_people();
    assert!(matches!(
        engine.execute(Query::Insert {
            table: "T".to_string(),
            values: vec![Value::Int32(9)],
        }),
        Err(DbError::InvalidData(_))
    ));
    assert!(matches!(
        engine.execute(Query::Insert {
            table: "T".to_string(),
            values: vec![Value::String("x".to_string()), Value::String("y".to_string())],
        }),
        Err(DbError::TypeMismatch)
    ));
    assert!(matches!(
        engine.execute(Query::Insert {
            table: "missing".to_string(),
            values: vec![],
        }),
        Err(DbError::SchemaError(_))
    ));
    // a failed insert leaves no column half-written
    assert_eq!(engine.storage.tables[0].metadata.row_count, 3);
}

#[test]
fn select_filters_and_projects() {
    let mut engine = engine_with_people();
    let result = engine.execute(Query::Select {
        table: "T".to_string(),
        columns: vec!["name".to_string()],
        condition: Some(id_greater_than(1)),
    });
    let rows = match result {
        Ok(Execution::Rows(rows)) => rows,
        other => panic!("unexpected: {:?}", other),
    };
    assert_eq!(rows.len(), 2);
    let mut names: Vec<String> = rows
        .iter()
        .map(|row| match &row[0] {
            Value::String(s) => s.clone(),
            other => panic!("wrong tag: {:?}", other),
        })
        .collect();
    names.sort();
    assert_eq!(names, vec!["b".to_string(), "c".to_string()]);
}

#[test]
fn select_defaults_to_all_columns() {
    let mut engine = engine_with_people();
    let result = engine.execute(Query::Select {
        table: "T".to_string(),
        columns: vec![],
        condition: None,
    });
    match result {
        Ok(Execution::Rows(rows)) => {
            assert_eq!(rows.len(), 3);
            assert_eq!(rows[0].len(), 2);
            assert_eq!(rows[0][0], Value::Int32(1));
            assert_eq!(rows[0][1], Value::String("a".to_string()));
        }
        other => panic!("unexpected: {:?}", other),
    }
}

#[test]
fn unknown_column_is_rejected_before_io() {
    let mut engine = engine_with_people();
    assert!(matches!(
        engine.execute(Query::Select {
            table: "T".to_string(),
            columns: vec!["nope".to_string()],
            condition: None,
        }),
        Err(DbError::InvalidData(_))
    ));
    assert!(matches!(
        engine.execute(Query::Select {
            table: "T".to_string(),
            columns: vec!["name".to_string()],
            condition: Some(Condition::Compare {
                column: "ghost".to_string(),
                op: CompareOp::Eq,
                value: Value::Int32(0),
            }),
        }),
        Err(DbError::InvalidData(_))
    ));
    assert!(matches!(
        engine.execute(Query::SelectAggregate {
            table: "T".to_string(),
            aggregations: vec![Aggregation::Sum("ghost".to_string())],
            condition: None,
        }),
        Err(DbError::InvalidData(_))
    ));
}

#[test]
fn condition_type_mismatch_fails() {
    let mut engine = engine_with_people();
    assert!(matches!(
        engine.execute(Query::Select {
            table: "T".to_string(),
            columns: vec!["name".to_string()],
            condition: Some(Condition::Compare {
                column: "id".to_string(),
                op: CompareOp::Eq,
                value: Value::String("1".to_string()),
            }),
        }),
        Err(DbError::TypeMismatch)
    ));
}

#[test]
fn condition_combinators() {
    let mut engine = engine_with_people();
    let cond = Condition::And(
        Box::new(id_greater_than(1)),
        Box::new(Condition::Not(Box::new(Condition::Compare {
            column: "name".to_string(),
            op: CompareOp::Eq,
            value: Value::String("c".to_string()),
        }))),
    );
    let result = engine.execute(Query::Select {
        table: "T".to_string(),
        columns: vec!["id".to_string()],
        condition: Some(cond),
    });
    match result {
        Ok(Execution::Rows(rows)) => {
            assert_eq!(rows.len(), 1);
            assert_eq!(rows[0][0], Value::Int32(2));
        }
        other => panic!("unexpected: {:?}", other),
    }
}

fn engine_with_numbers() -> QueryEngine {
    let mut engine = QueryEngine::new(StorageManager::new());
    engine
        .execute(Query::CreateTable {
            table: "N".to_string(),
            columns: vec![("ID".to_string(), DataType::Int32)],
        })
        .expect("create");
    for v in [1, 2, 3, 4] {
        engine
            .execute(Query::Insert {
                table: "N".to_string(),
                values: vec![Value::Int32(v)],
            })
            .expect("insert");
    }
    engine
}

fn fold_sum(terms: &[Value]) -> f32 {
    let mut acc = 0.0f32;
    for t in terms {
        match t {
            Value::Int32(i) => acc += *i as f32,
            Value::Float32(b) => acc += f32::from_bits(*b),
            Value::String(_) => {}
        }
    }
    acc
}

#[test]
fn aggregate_correctness() {
    let mut engine = engine_with_numbers();
    let result = engine.execute(Query::SelectAggregate {
        table: "N".to_string(),
        aggregations: vec![
            Aggregation::Count,
            Aggregation::Sum("ID".to_string()),
            Aggregation::Avg("ID".to_string()),
            Aggregation::Min("ID".to_string()),
            Aggregation::Max("ID".to_string()),
        ],
        condition: None,
    });
    let outcomes = match result {
        Ok(Execution::Aggregates(rs)) => rs,
        other => panic!("unexpected: {:?}", other),
    };
    assert_eq!(outcomes.len(), 5);
    match &outcomes[0] {
        AggResult::Scalar(v) => assert_eq!(*v, Value::Int32(4)),
        other => panic!("count: {:?}", other),
    }
    match &outcomes[1] {
        AggResult::Sum { terms } => {
            assert_eq!(
                terms,
                &vec![Value::Int32(1), Value::Int32(2), Value::Int32(3), Value::Int32(4)]
            );
            assert_eq!(fold_sum(terms), 10.0f32);
        }
        other => panic!("sum: {:?}", other),
    }
    match &outcomes[2] {
        AggResult::Avg { terms } => {
            let avg = fold_sum(terms) / terms.len() as f32;
            assert_eq!(avg, 2.5f32);
        }
        other => panic!("avg: {:?}", other),
    }
    match &outcomes[3] {
        AggResult::Scalar(v) => assert_eq!(*v, Value::Int32(1)),
        other => panic!("min: {:?}", other),
    }
    match &outcomes[4] {
        AggResult::Scalar(v) => assert_eq!(*v, Value::Int32(4)),
        other => panic!("max: {:?}", other),
    }
}

#[test]
fn aggregate_type_guard() {
    let mut engine = engine_with_people();
    for agg in [
        Aggregation::Sum("name".to_string()),
        Aggregation::Avg("name".to_string()),
    ] {
        assert!(matches!(
            engine.execute(Query::SelectAggregate {
                table: "T".to_string(),
                aggregations: vec![agg],
                condition: None,
            }),
            Err(DbError::InvalidData(_))
        ));
    }
}

#[test]
fn join_correctness() {
    let mut engine = QueryEngine::new(StorageManager::new());
    engine
        .execute(Query::CreateTable {
            table: "Left".to_string(),
            columns: vec![("id".to_string(), DataType::Int32)],
        })
        .expect("create left");
    engine
        .execute(Query::CreateTable {
            table: "Right".to_string(),
            columns: vec![("lid".to_string(), DataType::Int32)],
        })
        .expect("create right");
    for v in [1, 2] {
        engine
            .execute(Query::Insert {
                table: "Left".to_string(),
                values: vec![Value::Int32(v)],
            })
            .expect("insert left");
    }
    for v in [2, 2, 3] {
        engine
            .execute(Query::Insert {
                table: "Right".to_string(),
                values: vec![Value::Int32(v)],
            })
            .expect("insert right");
    }
    let result = engine.execute(Query::Join {
        left_table: "Left".to_string(),
        right_table: "Right".to_string(),
        left_column: "id".to_string(),
        right_column: "lid".to_string(),
        columns: vec!["id".to_string(), "Right.lid".to_string()],
        condition: None,
    });
    match result {
        Ok(Execution::Rows(rows)) => {
            assert_eq!(rows.len(), 2);
            for row in rows {
                assert_eq!(row[0], Value::Int32(2));
                assert_eq!(row[1], Value::Int32(2));
            }
        }
        other => panic!("unexpected: {:?}", other),
    }
}

#[test]
fn delete_removes_matching_rows() {
    let mut engine = engine_with_people();
    let deleted = engine.execute(Query::Delete {
        table: "T".to_string(),
        condition: Some(id_greater_than(1)),
    });
    assert!(deleted.is_ok());
    assert_eq!(engine.storage.tables[0].metadata.row_count, 1);
    // no row satisfying the predicate remains
    let check = engine.execute(Query::Select {
        table: "T".to_string(),
        columns: vec!["id".to_string()],
        condition: Some(id_greater_than(1)),
    });
    match check {
        Ok(Execution::Rows(rows)) => assert!(rows.is_empty()),
        other => panic!("unexpected: {:?}", other),
    }
    // deleting with no predicate clears the table
    let mut engine2 = engine_with_people();
    engine2
        .execute(Query::Delete {
            table: "T".to_string(),
            condition: None,
        })
        .expect("delete all");
    assert_eq!(engine2.storage.tables[0].metadata.row_count, 0);
}

#[test]
fn drop_table_removes_entry() {
    let mut engine = engine_with_people();
    assert!(engine
        .execute(Query::DropTable { table: "T".to_string() })
        .is_ok());
    assert!(matches!(
        engine.execute(Query::Select {
            table: "T".to_string(),
            columns: vec![],
            condition: None,
        }),
        Err(DbError::InvalidData(_))
    ));
    assert!(matches!(
        engine.execute(Query::DropTable { table: "T".to_string() }),
        Err(DbError::StorageError(_))
    ));
}

#[test]
fn create_table_guards() {
    let mut engine = engine_with_people();
    assert!(matches!(
        engine.execute(Query::CreateTable {
            table: "T".to_string(),
            columns: vec![("x".to_string(), DataType::Int32)],
        }),
        Err(DbError::StorageError(_))
    ));
    assert!(matches!(
        engine.execute(Query::CreateTable {
            table: "U".to_string(),
            columns: vec![
                ("x".to_string(), DataType::Int32),
                ("x".to_string(), DataType::String),
            ],
        }),
        Err(DbError::SchemaError(_))
    ));
    assert!(matches!(
        engine.execute(Query::CreateTable {
            table: "V".to_string(),
            columns: vec![],
        }),
        Err(DbError::SchemaError(_))
    ));
}

#[test]
fn transaction_markers_are_no_ops() {
    let mut engine = engine_with_people();
    for q in [Query::StartTransaction, Query::Commit, Query::Rollback] {
        match engine.execute(q) {
            Ok(Execution::Rows(rows)) => assert!(rows.is_empty()),
            other => panic!("unexpected: {:?}", other),
        }
    }
    assert_eq!(engine.storage.tables[0].metadata.row_count, 3);
}

#[test]
fn storage_read_column_with_predicate() {
    let engine = engine_with_people();
    let values = engine
        .storage
        .read_column("T", "name", Some(&id_greater_than(2)))
        .expect("read");
    assert_eq!(values, vec![Value::String("c".to_string())]);
    assert!(matches!(
        engine.storage.read_column("T", "ghost", None),
        Err(DbError::SchemaError(_))
    ));
    assert!(matches!(
        engine.storage.read_column("ghost", "name", None),
        Err(DbError::SchemaError(_))
    ));
}

#[test]
fn schema_catalog_operations() {
    let mut schema = Schema::new();
    assert!(schema.get_table("a").is_none());
    let table = vddb::schema::Table {
        name: "a".to_string(),
        columns: vec![],
        primary_key: None,
        indexes: vec![],
        constraints: vec![],
    };
    assert!(schema.add_table(table).is_ok());
    assert!(schema.get_table("a").is_some());
    let dup = vddb::schema::Table {
        name: "a".to_string(),
        columns: vec![],
        primary_key: None,
        indexes: vec![],
        constraints: vec![],
    };
    assert!(matches!(schema.add_table(dup), Err(DbError::SchemaError(_))));
    assert!(schema.remove_table("a").is_ok());
    assert!(matches!(
        schema.remove_table("a"),
        Err(DbError::SchemaError(_))
    ));
}

#[test]
fn logging_lines_are_exact() {
    assert_eq!(
        vddb::logging::log_operation("insert", "T"),
        "Operation: insert - T".to_string()
    );
    assert_eq!(
        vddb::logging::log_query("SELECT", None),
        "Query: SELECT".to_string()
    );
    assert_eq!(
        vddb::logging::log_query("SELECT", Some("x=1")),
        "Query: SELECT with params: x=1".to_string()
    );
    assert_eq!(
        vddb::logging::log_performance("scan", 1234),
        "Performance: scan took 1234ms".to_string()
    );
    assert_eq!(
        vddb::logging::log_error(&DbError::TypeMismatch),
        "Error occurred: Type Mismatch".to_string()
    );
}

#[test]
fn example_plugin_echo() {
    let mut plugin = vddb::plugins::ExamplePlugin::new();
    assert_eq!(plugin.name(), "example");
    assert_eq!(plugin.version(), "1.0.0");
    assert!(plugin.initialize().is_ok());
    let out = plugin
        .execute("echo", &[Value::String("hi".to_string())])
        .expect("echo");
    assert_eq!(out, Value::String("hi".to_string()));
    let empty = plugin.execute("echo", &[]).expect("echo empty");
    assert_eq!(empty, Value::String(String::new()));
    assert!(matches!(
        plugin.execute("nope", &[]),
        Err(DbError::QueryError(_))
    ));
    assert!(plugin.shutdown().is_ok());
}
