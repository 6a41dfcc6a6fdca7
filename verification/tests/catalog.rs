use codex::catalog::aggregate::{CodexAggregate, CodexEntity, CodexRoot, CodexSink, CodexSurface};
use codex::catalog::column::{CodexRole, CodexType};
use codex::catalog::read_shape::ReadShape;
use codex::compile::compile_document;
use codex::definition::Codex;
use codex::dtos::column::RawCodexColumnDefinition;
use codex::dtos::document::{RawCodexCatalog, RawCodexDocument};
use codex::dtos::partial::{RawCodexColumnsPartial, RawCodexPartial, RawCodexPartialReference};
use codex::dtos::table::{RawCodexPrimaryKey, RawCodexTable, RawCodexTableAggregate};
use codex::error::{CodexError, HolocronError, LaxError};

#[test]
fn operators_each_type_supports() {
    assert!(CodexType::Text.supports_equality());
    assert!(!CodexType::Json.supports_equality());
    assert!(CodexType::Number.supports_ordering());
    assert!(CodexType::Timestamp.supports_ordering());
    assert!(!CodexType::Text.supports_ordering());
    assert!(CodexType::Text.supports_text_pattern());
    assert!(!CodexType::Uuid.supports_text_pattern());
    assert!(CodexType::Enum("e".to_string()).supports_set());
    assert!(!CodexType::Bool.supports_set());
    assert!(CodexType::TextArray.supports_null_check());
}

#[test]
fn schema_type_names_map_to_catalog_types() {
    let enums = vec!["flow_status".to_string()];
    assert!(matches!(CodexType::from_schema_name("bigint", &enums), CodexType::Number));
    assert!(matches!(CodexType::from_schema_name("text[]", &enums), CodexType::TextArray));
    assert!(matches!(CodexType::from_schema_name("timestamptz", &enums), CodexType::Timestamp));
    match CodexType::from_schema_name("flow_status", &enums) {
        CodexType::Enum(name) => assert_eq!(name, "flow_status"),
        other => panic!("unexpected {other:?}"),
    }
    assert!(matches!(CodexType::from_schema_name("mystery", &enums), CodexType::Text));
}

#[test]
fn only_data_columns_are_selectable_by_default() {
    assert!(CodexRole::Data.default_selectable());
    assert!(!CodexRole::Id.default_selectable());
    assert!(!CodexRole::Reference.default_selectable());
}

#[test]
fn read_shapes_print_as_kind_and_name() {
    assert_eq!(ReadShape::List("default".to_string()).to_display_string(), "list:default");
    assert_eq!(ReadShape::Detail("full".to_string()).to_display_string(), "detail:full");
}

fn aggregate() -> CodexAggregate {
    CodexAggregate {
        name: "flow".to_string(),
        root: CodexRoot { relation: "snap_flows".to_string(), id_column: "flow_id".to_string() },
        entities: vec![CodexEntity {
            name: "node".to_string(),
            display_name: "Node".to_string(),
            relation: "snap_flow_nodes".to_string(),
            reference_column: "node_id".to_string(),
        }],
        sinks: vec![CodexSink { relation: "sink_flows".to_string(), entity: None }],
        surfaces: vec![
            CodexSurface { view: "flows".to_string(), entity: None, shape: ReadShape::List("default".to_string()) },
            CodexSurface { view: "flow".to_string(), entity: None, shape: ReadShape::Detail("full".to_string()) },
            CodexSurface {
                view: "flow_nodes".to_string(),
                entity: Some("node".to_string()),
                shape: ReadShape::List("default".to_string()),
            },
        ],
    }
}

#[test]
fn aggregates_find_their_surfaces_entities_and_sinks() {
    let flow = aggregate();
    assert_eq!(flow.list_surface("default").unwrap().view, "flows");
    assert_eq!(flow.one_surface("full").unwrap().view, "flow");
    assert_eq!(flow.one_surface("default").unwrap().view, "flows");
    assert!(flow.one_surface("missing").is_none());
    assert_eq!(flow.entity_list_surface("node", "default").unwrap().view, "flow_nodes");
    assert!(flow.entity_list_surface("edge", "default").is_none());
    assert_eq!(flow.entity("node").unwrap().reference_column, "node_id");
    assert_eq!(flow.sink(None).unwrap().relation, "sink_flows");
    assert!(flow.sink(Some("node")).is_none());
}

#[test]
fn the_catalog_looks_up_by_name() {
    let codex = Codex::from_catalog(RawCodexCatalog {
        relations: vec![],
        aggregates: vec![aggregate()],
        enum_types: vec![("flow_status".to_string(), vec!["draft".to_string(), "live".to_string()])],
    });
    assert_eq!(codex.aggregate("flow").unwrap().root.id_column, "flow_id");
    assert!(codex.aggregate("other").is_none());
    assert_eq!(codex.aggregates().len(), 1);
    assert_eq!(codex.enum_type("flow_status").unwrap(), &vec!["draft".to_string(), "live".to_string()]);
    assert!(codex.enum_type("other").is_none());
    assert!(codex.relation("snap_flows").is_none());
}

#[test]
fn partial_references_name_their_partial() {
    let plain = RawCodexPartialReference::ByName("audit".to_string());
    assert_eq!(plain.partial_name(), "audit");
    assert_eq!(plain.from_override(), None);
    let qualified = RawCodexPartialReference::Qualified { partial: "audit".to_string(), from: Some("f".to_string()) };
    assert_eq!(qualified.partial_name(), "audit");
    assert_eq!(qualified.from_override(), Some("f"));
}

fn table(columns: Vec<(&str, &str, Option<CodexRole>)>, primary_key: Vec<&str>, partials: Vec<&str>) -> RawCodexTable {
    RawCodexTable {
        name: "snap_flows".to_string(),
        columns: columns
            .into_iter()
            .map(|(name, schema_type, role)| {
                (name.to_string(), RawCodexColumnDefinition { schema_type: schema_type.to_string(), x_role: role })
            })
            .collect(),
        primary_key: Some(RawCodexPrimaryKey {
            name: None,
            columns: primary_key.into_iter().map(str::to_string).collect(),
        }),
        x_aggregate: Some(RawCodexTableAggregate { name: "flow".to_string() }),
        x_entity: None,
        x_sink: None,
        x_partials: partials.into_iter().map(str::to_string).collect(),
    }
}

fn document(table: RawCodexTable, partials: Vec<(String, RawCodexPartial)>) -> RawCodexDocument {
    RawCodexDocument { x_partials: partials, types: vec![], tables: vec![table], views: vec![] }
}

#[test]
fn an_unknown_partial_is_rejected() {
    let broken = document(table(vec![("flow_id", "uuid", Some(CodexRole::Id))], vec!["flow_id"], vec!["audit"]), vec![]);
    match compile_document(broken) {
        Err(LaxError::Codex(CodexError::Partials(message))) => {
            assert_eq!(message, "table `snap_flows`: unknown partial `audit`")
        }
        other => panic!("expected a partials error, got {other:?}"),
    }
}

#[test]
fn a_primary_key_that_misses_the_id_is_rejected() {
    let partial = RawCodexPartial::Columns(RawCodexColumnsPartial {
        columns: vec![(
            "created_at".to_string(),
            RawCodexColumnDefinition { schema_type: "timestamptz".to_string(), x_role: None },
        )],
    });
    let broken = document(
        table(vec![("flow_id", "uuid", Some(CodexRole::Id))], vec!["created_at", "version"], vec!["audit"]),
        vec![("audit".to_string(), partial)],
    );
    match compile_document(broken) {
        Err(LaxError::Codex(CodexError::MismatchedPrimaryKey { table, expected, actual })) => {
            assert_eq!(table, "snap_flows");
            assert_eq!(expected, vec!["flow_id".to_string()]);
            assert_eq!(actual, vec!["created_at".to_string()]);
        }
        other => panic!("expected a primary key mismatch, got {other:?}"),
    }
}

#[test]
fn an_unknown_column_type_is_rejected() {
    let broken = document(
        table(vec![("flow_id", "uuid", Some(CodexRole::Id)), ("state", "flow_state", None)], vec!["flow_id"], vec![]),
        vec![],
    );
    match compile_document(broken) {
        Err(LaxError::Codex(CodexError::Semantic(message))) => assert_eq!(
            message,
            "column `snap_flows.state`: type `flow_state` is not a built-in or declared enum"
        ),
        other => panic!("expected a semantic error, got {other:?}"),
    }
}

#[test]
fn a_root_without_a_default_list_is_rejected() {
    let lonely = document(table(vec![("flow_id", "uuid", Some(CodexRole::Id))], vec!["flow_id"], vec![]), vec![]);
    match compile_document(lonely) {
        Err(LaxError::Codex(CodexError::Semantic(message))) => assert_eq!(
            message,
            "aggregate `flow` root must declare exactly one `list: default` view (found 0)"
        ),
        other => panic!("expected a semantic error, got {other:?}"),
    }
}

#[test]
fn holocron_errors_carry_their_parts() {
    match HolocronError::unknown_type("t".to_string(), "c".to_string(), "x".to_string()) {
        HolocronError::UnknownType { relation, column, schema_type } => {
            assert_eq!((relation.as_str(), column.as_str(), schema_type.as_str()), ("t", "c", "x"))
        }
        other => panic!("unexpected {other:?}"),
    }
    assert!(matches!(HolocronError::parse("bad".to_string()), HolocronError::Parse(message) if message == "bad"));
    assert!(matches!(HolocronError::duplicate_relation("r".to_string()), HolocronError::DuplicateRelation(name) if name == "r"));
    assert!(matches!(HolocronError::duplicate_enum("e".to_string()), HolocronError::DuplicateEnum(name) if name == "e"));
}

#[test]
fn mismatched_primary_key_message_lists_both_column_sets() {
    let error = CodexError::mismatched_primary_key(
        "t".to_string(),
        vec!["id".to_string(), "ref".to_string()],
        vec!["id".to_string()],
    );
    match error {
        LaxError::Codex(codex_error) => assert_eq!(
            codex_error.message(),
            "table `t`: primary_key (excluding `version`) [\"id\"] does not match Id + Reference columns [\"id\", \"ref\"]"
        ),
        other => panic!("unexpected {other:?}"),
    }
}

#[test]
fn codex_and_parser_messages() {
    match CodexError::merge("boom".to_string()) {
        LaxError::Codex(codex_error) => assert_eq!(codex_error.message(), "yaml merge: boom"),
        other => panic!("unexpected {other:?}"),
    }
    let unknown = HolocronError::unknown_type("t".to_string(), "c".to_string(), "mystery".to_string());
    assert_eq!(unknown.message(), "unknown type `mystery` on column `t.c`");
    assert_eq!(HolocronError::duplicate_enum("e".to_string()).message(), "duplicate enum type `e`");
    assert_eq!(HolocronError::parse("bad".to_string()).message(), "parse error: bad");
}

#[test]
fn catalogs_hold_one_relation_per_name() {
    let relation = |name: &str| codex::catalog::relation::CodexRelation {
        name: name.to_string(),
        kind: codex::catalog::relation::CodexKind::Table,
        columns: vec![],
    };
    let distinct = RawCodexCatalog {
        relations: vec![relation("a"), relation("b")],
        aggregates: vec![],
        enum_types: vec![("e".to_string(), vec![])],
    };
    assert!(distinct.has_distinct_names());
    let repeated = RawCodexCatalog { relations: vec![relation("a"), relation("a")], aggregates: vec![], enum_types: vec![] };
    assert!(!repeated.has_distinct_names());
    let repeated_enum = RawCodexCatalog {
        relations: vec![],
        aggregates: vec![],
        enum_types: vec![("e".to_string(), vec![]), ("e".to_string(), vec![])],
    };
    assert!(!repeated_enum.has_distinct_names());
}
