use codex::catalog::aggregate::{CodexAggregate, CodexEntity, CodexRoot, CodexSink};
use codex::catalog::column::{CodexColumn, CodexRole, CodexType};
use codex::catalog::relation::{CodexKind, CodexRelation};
use codex::definition::Codex;
use codex::error::{LaxError, MasonError};
use codex::mason::archive::{LaxEvent, archive_events, archive_events_at, archive_events_now, reading_micros};
use codex::mason::project::{build_audit_row, finish_projection, project_effects};
use codex::mason::sink::sink_effects;
use codex::mason::sql::{SqlPiece, SqlStatement};
use codex::mason::value::{Actor, MasonEffect, MasonEffectTarget, MasonRow, MasonValue, Provenance};

fn sql_of(statement: &SqlStatement) -> (String, Vec<String>) {
    let mut sql = String::new();
    let mut args = Vec::new();
    for piece in &statement.pieces {
        match piece {
            SqlPiece::Text(text) => sql.push_str(text),
            SqlPiece::Bind(arg) => {
                args.push(format!("{:?}", arg));
                sql.push_str(&format!("${}", args.len()));
            }
            SqlPiece::Again(ordinal) => sql.push_str(&format!("${}", ordinal + 1)),
        }
    }
    (sql, args)
}

fn col(name: &str, data_type: CodexType, role: CodexRole) -> CodexColumn {
    CodexColumn { name: name.to_string(), data_type, role, filterable: false, searchable: false, selectable: false }
}

fn audit_columns() -> Vec<CodexColumn> {
    vec![
        col("actor_type", CodexType::Text, CodexRole::Data),
        col("actor_id", CodexType::Text, CodexRole::Data),
        col("correlation_id", CodexType::Uuid, CodexRole::Data),
        col("occurred_at", CodexType::Timestamp, CodexRole::Data),
    ]
}

fn relation(name: &str, columns: Vec<CodexColumn>) -> CodexRelation {
    CodexRelation { name: name.to_string(), kind: CodexKind::Table, columns }
}

fn codex() -> Codex {
    let mut orders = vec![
        col("order_id", CodexType::Uuid, CodexRole::Id),
        col("version", CodexType::Number, CodexRole::Data),
        col("is_deleted", CodexType::Bool, CodexRole::Data),
        col("total", CodexType::Number, CodexRole::Data),
        col("status", CodexType::Enum("order_status".to_string()), CodexRole::Data),
    ];
    orders.extend(audit_columns());
    let mut lines = vec![
        col("order_id", CodexType::Uuid, CodexRole::Id),
        col("line_id", CodexType::Text, CodexRole::Reference),
        col("version", CodexType::Number, CodexRole::Data),
        col("is_deleted", CodexType::Bool, CodexRole::Data),
        col("qty", CodexType::Number, CodexRole::Data),
    ];
    lines.extend(audit_columns());
    Codex {
        relations: vec![
            relation("snap_orders", orders),
            relation("snap_order_lines", lines),
            relation(
                "sink_orders",
                vec![col("order_id", CodexType::Uuid, CodexRole::Id), col("total", CodexType::Number, CodexRole::Data)],
            ),
            relation(
                "sink_order_lines",
                vec![
                    col("order_id", CodexType::Uuid, CodexRole::Id),
                    col("line_id", CodexType::Text, CodexRole::Reference),
                    col("qty", CodexType::Number, CodexRole::Data),
                ],
            ),
        ],
        aggregates: vec![CodexAggregate {
            name: "order".to_string(),
            root: CodexRoot { relation: "snap_orders".to_string(), id_column: "order_id".to_string() },
            entities: vec![CodexEntity {
                name: "line".to_string(),
                display_name: "Line".to_string(),
                relation: "snap_order_lines".to_string(),
                reference_column: "line_id".to_string(),
            }],
            sinks: vec![
                CodexSink { relation: "sink_orders".to_string(), entity: None },
                CodexSink { relation: "sink_order_lines".to_string(), entity: Some("line".to_string()) },
            ],
            surfaces: vec![],
        }],
        enum_types: vec![("order_status".to_string(), vec!["open".to_string(), "closed".to_string()])],
    }
}

fn row(entries: Vec<(&str, MasonValue)>) -> MasonRow {
    MasonRow::from_static(entries.into_iter().map(|(name, value)| (name.to_string(), value)).collect())
}

fn line_keys(line: &str) -> MasonRow {
    row(vec![("line_id", MasonValue::Text(line.to_string()))])
}

fn anonymous() -> Provenance {
    Provenance { actor: Actor::Anonymous, correlation_id: 9 }
}

fn mason_error(outcome: Result<Option<codex::mason::project::ProjectionPlan>, LaxError>) -> MasonError {
    match outcome {
        Err(LaxError::Mason(error)) => error,
        other => panic!("expected a mason error, got {other:?}"),
    }
}

#[test]
fn create_writes_the_lock_and_the_root_row() {
    let effects = vec![MasonEffect::Upsert {
        target: MasonEffectTarget::Root,
        fields: row(vec![("total", MasonValue::Number(5)), ("status", MasonValue::Text("open".to_string()))]),
    }];
    let plan = project_effects(&codex(), "order", 1, 1, &effects, &anonymous(), 1000).unwrap().unwrap();
    assert!(plan.is_create);
    assert_eq!(plan.statements.len(), 2);
    let (lock, lock_args) = sql_of(&plan.statements[0]);
    assert_eq!(lock, "SELECT pg_advisory_xact_lock(hashtext($1))");
    assert_eq!(lock_args, vec!["Text(\"order:00000000-0000-0000-0000-000000000001\")"]);
    let (insert, args) = sql_of(&plan.statements[1]);
    assert_eq!(
        insert,
        "INSERT INTO \"snap_orders\" (\"order_id\", \"version\", \"is_deleted\", \"total\", \"status\", \"actor_type\", \"actor_id\", \"correlation_id\", \"occurred_at\") VALUES ($1, $2, FALSE, $3, $4::\"order_status\", $5, $6, $7::uuid, $8::timestamptz) ON CONFLICT (\"order_id\", \"version\") DO NOTHING"
    );
    assert_eq!(
        args,
        vec![
            "Uuid(1)",
            "BigInt(1)",
            "Value(Number(5))",
            "Value(Text(\"open\"))",
            "Value(Text(\"Anonymous\"))",
            "Value(Text(\"\"))",
            "Value(Uuid(9))",
            "Value(Timestamp(1000))",
        ]
    );
}

#[test]
fn create_skips_columns_nothing_fills() {
    let effects = vec![MasonEffect::Upsert { target: MasonEffectTarget::Root, fields: row(vec![]) }];
    let mut bare = codex();
    bare.relations[0].columns.push(col("note", CodexType::Text, CodexRole::Data));
    let plan = project_effects(&bare, "order", 1, 1, &effects, &anonymous(), 0).unwrap().unwrap();
    let (insert, _) = sql_of(&plan.statements[1]);
    assert!(!insert.contains("\"total\""));
    assert!(!insert.contains("\"note\""));
}

#[test]
fn copy_forward_writes_entities_then_the_root() {
    let effects = vec![
        MasonEffect::Revise { target: MasonEffectTarget::Root, fields: row(vec![("total", MasonValue::Number(7))]) },
        MasonEffect::Delete {
            target: MasonEffectTarget::Entity { name: "line".to_string(), keys: line_keys("L1") },
        },
    ];
    let plan = project_effects(&codex(), "order", 1, 2, &effects, &anonymous(), 5).unwrap().unwrap();
    assert!(!plan.is_create);
    assert_eq!(plan.statements.len(), 4);
    let (copy, copy_args) = sql_of(&plan.statements[1]);
    assert_eq!(
        copy,
        "INSERT INTO \"snap_order_lines\" (\"order_id\", \"line_id\", \"version\", \"is_deleted\", \"qty\", \"actor_type\", \"actor_id\", \"correlation_id\", \"occurred_at\") SELECT $1, \"line_id\", $2, \"is_deleted\", \"qty\", \"actor_type\", \"actor_id\", \"correlation_id\", \"occurred_at\" FROM \"snap_order_lines\" WHERE \"order_id\" = $3 AND \"version\" = $4 AND \"is_deleted\" = FALSE AND \"line_id\" <> $5 ON CONFLICT (\"order_id\", \"version\", \"line_id\") DO NOTHING"
    );
    assert_eq!(copy_args, vec!["Uuid(1)", "BigInt(2)", "Uuid(1)", "BigInt(1)", "Value(Text(\"L1\"))"]);
    let (remove, _) = sql_of(&plan.statements[2]);
    assert_eq!(
        remove,
        "INSERT INTO \"snap_order_lines\" (\"order_id\", \"line_id\", \"version\", \"is_deleted\", \"qty\", \"actor_type\", \"actor_id\", \"correlation_id\", \"occurred_at\") SELECT $1, \"line_id\", $2, TRUE, \"qty\", $3, $4, $5::uuid, $6::timestamptz FROM \"snap_order_lines\" WHERE \"order_id\" = $7 AND \"version\" = $8 AND \"line_id\" = $9 ON CONFLICT (\"order_id\", \"version\", \"line_id\") DO NOTHING"
    );
    let (root, root_args) = sql_of(&plan.statements[3]);
    assert_eq!(
        root,
        "INSERT INTO \"snap_orders\" (\"order_id\", \"version\", \"is_deleted\", \"total\", \"status\", \"actor_type\", \"actor_id\", \"correlation_id\", \"occurred_at\") SELECT $1, $2, FALSE, $3, \"status\", $4, $5, $6::uuid, $7::timestamptz FROM \"snap_orders\" WHERE \"order_id\" = $8 AND \"version\" = $9 ON CONFLICT (\"order_id\", \"version\") DO NOTHING"
    );
    assert_eq!(root_args[2], "Value(Number(7))");
}

#[test]
fn root_delete_marks_the_copied_root_deleted() {
    let effects = vec![MasonEffect::Delete { target: MasonEffectTarget::Root }];
    let plan = project_effects(&codex(), "order", 1, 3, &effects, &anonymous(), 5).unwrap().unwrap();
    let (root, _) = sql_of(plan.statements.last().unwrap());
    assert!(root.contains("SELECT $1, $2, TRUE, \"total\""));
}

#[test]
fn nothing_to_project() {
    assert!(project_effects(&codex(), "order", 1, 1, &vec![], &anonymous(), 0).unwrap().is_none());
    let effects = vec![MasonEffect::Delete { target: MasonEffectTarget::Root }];
    assert!(project_effects(&codex(), "unknown", 1, 1, &effects, &anonymous(), 0).unwrap().is_none());
}

#[test]
fn upsert_keys_must_be_the_full_reference_set() {
    let effects = vec![MasonEffect::Upsert {
        target: MasonEffectTarget::Entity { name: "line".to_string(), keys: row(vec![]) },
        fields: row(vec![]),
    }];
    match mason_error(project_effects(&codex(), "order", 1, 2, &effects, &anonymous(), 0)) {
        MasonError::IncompleteEntityKeys { entity, missing, extra } => {
            assert_eq!(entity, "line");
            assert_eq!(missing, vec!["line_id".to_string()]);
            assert!(extra.is_empty());
        }
        other => panic!("unexpected {other:?}"),
    }
}

#[test]
fn keys_must_be_reference_columns() {
    let effects = vec![MasonEffect::Revise {
        target: MasonEffectTarget::Entity {
            name: "line".to_string(),
            keys: row(vec![("line_id", MasonValue::Text("L1".to_string())), ("order_id", MasonValue::Uuid(1))]),
        },
        fields: row(vec![]),
    }];
    match mason_error(project_effects(&codex(), "order", 1, 2, &effects, &anonymous(), 0)) {
        MasonError::InvalidEntityKey { entity, key } => {
            assert_eq!(entity, "line");
            assert_eq!(key, "order_id");
        }
        other => panic!("unexpected {other:?}"),
    }
}

#[test]
fn delete_keys_may_not_be_empty() {
    let effects = vec![MasonEffect::Delete {
        target: MasonEffectTarget::Entity { name: "line".to_string(), keys: row(vec![]) },
    }];
    match mason_error(project_effects(&codex(), "order", 1, 2, &effects, &anonymous(), 0)) {
        MasonError::EmptyEntityKeys { entity } => assert_eq!(entity, "line"),
        other => panic!("unexpected {other:?}"),
    }
}

#[test]
fn copy_forward_that_touched_nothing_is_an_error() {
    match finish_projection(false, 0, "order", 1, 2) {
        Err(LaxError::Mason(MasonError::ProjectionNoOp { aggregate, aggregate_id, aggregate_version })) => {
            assert_eq!(aggregate, "order");
            assert_eq!(aggregate_id, 1);
            assert_eq!(aggregate_version, 2);
        }
        other => panic!("unexpected {other:?}"),
    }
    assert_eq!(finish_projection(true, 0, "order", 1, 1).unwrap(), 0);
    assert_eq!(finish_projection(false, 3, "order", 1, 2).unwrap(), 3);
}

#[test]
fn audit_row_of_each_actor() {
    let identity = build_audit_row(&Provenance { actor: Actor::Identity(255), correlation_id: 1 }, 7);
    assert_eq!(format!("{:?}", identity.columns[1].1), "Text(\"00000000-0000-0000-0000-0000000000ff\")");
    let system = build_audit_row(&Provenance { actor: Actor::System("Scheduler".to_string()), correlation_id: 1 }, 7);
    assert_eq!(format!("{:?}", system.columns[0].1), "Text(\"System\")");
    assert_eq!(format!("{:?}", system.columns[1].1), "Text(\"Scheduler\")");
    assert_eq!(system.columns[3].0, "occurred_at");
}

#[test]
fn sink_upserts_and_soft_deletes() {
    let effects = vec![
        MasonEffect::Upsert { target: MasonEffectTarget::Root, fields: row(vec![("total", MasonValue::Number(5))]) },
        MasonEffect::Revise {
            target: MasonEffectTarget::Entity { name: "line".to_string(), keys: line_keys("L1") },
            fields: row(vec![("qty", MasonValue::Number(2))]),
        },
        MasonEffect::Delete { target: MasonEffectTarget::Root },
        MasonEffect::Delete {
            target: MasonEffectTarget::Entity { name: "line".to_string(), keys: line_keys("L2") },
        },
    ];
    let statements = sink_effects(&codex(), "order", 4, &effects).unwrap();
    let rendered: Vec<String> = statements.iter().map(|statement| sql_of(statement).0).collect();
    assert_eq!(
        rendered,
        vec![
            "INSERT INTO \"sink_orders\" (\"order_id\", \"total\") VALUES ($1, $2) ON CONFLICT (\"order_id\") DO UPDATE SET \"total\" = EXCLUDED.\"total\"",
            "INSERT INTO \"sink_order_lines\" (\"order_id\", \"line_id\", \"qty\") VALUES ($1, $2, $3) ON CONFLICT (\"order_id\", \"line_id\") DO UPDATE SET \"qty\" = EXCLUDED.\"qty\"",
            "UPDATE \"sink_orders\" SET \"is_deleted\" = TRUE WHERE \"order_id\" = $1",
            "UPDATE \"sink_order_lines\" SET \"is_deleted\" = TRUE WHERE \"order_id\" = $1 AND \"line_id\" = $2",
        ]
    );
}

#[test]
fn sink_without_sinks_writes_nothing() {
    let mut bare = codex();
    bare.aggregates[0].sinks.clear();
    let effects = vec![MasonEffect::Delete { target: MasonEffectTarget::Root }];
    assert!(sink_effects(&bare, "order", 4, &effects).unwrap().is_empty());
}

fn event(id: u128) -> LaxEvent {
    LaxEvent {
        event_id: id,
        aggregate_version: 2,
        aggregate_id: 3,
        aggregate_type: "order".to_string(),
        schema_version: 1,
        event_type: "OrderPlaced".to_string(),
        event_data: serde_json::Value::Null,
        provenance: serde_json::Value::Bool(true),
        idempotency_key: "k".to_string(),
        occurred_at: 44,
    }
}

#[test]
fn archive_inserts_events_and_moves_the_checkpoint() {
    let statements = archive_events(&vec![event(1), event(2)], "cartographer", 9, 100);
    assert_eq!(statements.len(), 2);
    let (insert, args) = sql_of(&statements[0]);
    assert!(insert.starts_with("INSERT INTO \"arcv_events\" (\"event_id\", "));
    assert!(insert.ends_with(
        "VALUES ($1, $2, $3, $4, $5, $6, $7, $8, $9, $10), ($11, $12, $13, $14, $15, $16, $17, $18, $19, $20) ON CONFLICT (\"event_id\") DO NOTHING"
    ));
    assert_eq!(args.len(), 20);
    assert_eq!(args[5], "Text(\"OrderPlaced\")");
    let (checkpoint, checkpoint_args) = sql_of(&statements[1]);
    assert!(checkpoint.ends_with("WHERE \"syst_consumer_checkpoints\".\"last_sequence\" < $4"));
    assert_eq!(checkpoint_args, vec!["Text(\"cartographer\")", "BigInt(9)", "Value(Timestamp(100))", "BigInt(9)"]);
    assert!(archive_events(&vec![], "cartographer", 9, 100).is_empty());
}

#[test]
fn archiving_now_reads_the_clock_only_for_a_batch() {
    assert!(archive_events_now(&vec![], "cartographer", 9).unwrap().is_empty());
    let statements = archive_events_now(&vec![event(1)], "cartographer", 9).unwrap();
    assert_eq!(statements.len(), 2);
}

#[test]
fn write_errors_show_their_messages() {
    let error = codex::error::MasonError::projection_no_op("flow".to_string(), 255, 3);
    assert_eq!(
        error.message(),
        "projection of `flow` 00000000-0000-0000-0000-0000000000ff at version 3 affected no rows"
    );
    let keys = codex::error::MasonError::incomplete_entity_keys(
        "node".to_string(),
        vec!["a".to_string()],
        vec![],
    );
    assert_eq!(keys.message(), "entity `node`: keys must be exactly the Reference columns (missing [\"a\"], extra [])");
}

#[test]
fn clock_readings_become_archive_times() {
    assert_eq!(reading_micros(Some(5)), Some(5));
    assert_eq!(reading_micros(Some(i64::MAX as u128)), Some(i64::MAX));
    assert_eq!(reading_micros(Some(i64::MAX as u128 + 1)), None);
    assert_eq!(reading_micros(None), None);
    let at = archive_events_at(&vec![event(1)], "cartographer", 9, Some(100)).unwrap();
    let expected = archive_events(&vec![event(1)], "cartographer", 9, 100);
    assert_eq!(format!("{:?}", at), format!("{:?}", expected));
    assert!(archive_events_at(&vec![event(1)], "cartographer", 9, None).is_none());
    assert!(archive_events_at(&vec![], "cartographer", 9, None).unwrap().is_empty());
}
