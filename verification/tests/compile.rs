use codex::catalog::column::CodexRole;
use codex::compile::{
    DefinitionRank, compile_document, compile_merged, definition_rank, merge, schema_files, schemas, validate_schema,
};
use codex::dtos::column::RawCodexColumnDefinition;
use codex::dtos::document::RawCodexDocument;
use codex::dtos::select::{RawCodexSelectColumn, RawCodexSelectItem, RawCodexSelectOverrides};
use codex::dtos::table::{RawCodexPrimaryKey, RawCodexTable, RawCodexTableAggregate};
use codex::dtos::view::{RawCodexView, RawCodexViewAggregate, RawCodexViewSource};
use codex::error::{CodexError, DriverError, LaxError};
use codex::yaml::YamlDriver;

fn json(text: &str) -> serde_json::Value {
    serde_json::from_str(text).unwrap()
}

fn merge_message(outcome: Result<serde_json::Value, LaxError>) -> String {
    match outcome {
        Err(LaxError::Codex(CodexError::Merge(message))) => message,
        other => panic!("expected a merge error, got {other:?}"),
    }
}

#[test]
fn ranks_by_the_last_path_segment() {
    assert_eq!(definition_rank("shared"), DefinitionRank::Shared);
    assert_eq!(definition_rank("flow/root"), DefinitionRank::Root);
    assert_eq!(definition_rank("a/b/history"), DefinitionRank::History);
    assert_eq!(definition_rank("execution"), DefinitionRank::Other);
    assert_eq!(definition_rank("flow/rooted"), DefinitionRank::Other);
    assert_eq!(definition_rank("shared/"), DefinitionRank::Other);
}

#[test]
fn merge_order_is_shared_roots_others_histories() {
    let documents = vec![
        ("flow/history".to_string(), json(r#"{"views": [{"name": "h"}]}"#)),
        ("zeta".to_string(), json(r#"{"tables": [{"name": "z"}]}"#)),
        ("flow/root".to_string(), json(r#"{"tables": [{"name": "r"}]}"#)),
        ("alpha".to_string(), json(r#"{"tables": [{"name": "a"}], "views": [{"name": "v"}]}"#)),
        ("shared".to_string(), json(r#"{"types": [{"name": "t"}]}"#)),
    ];
    let merged = merge(&documents).unwrap();
    assert_eq!(
        merged,
        json(r#"{"tables": [{"name": "r"}, {"name": "a"}, {"name": "z"}], "views": [{"name": "v"}, {"name": "h"}], "types": [{"name": "t"}]}"#)
    );
}

#[test]
fn merge_does_not_depend_on_the_order_of_the_files() {
    let first = vec![
        ("b".to_string(), json(r#"{"tables": [1], "x_partials": {"p": {"columns": {}}}}"#)),
        ("a".to_string(), json(r#"{"tables": [2], "x_partials": {"q": {"columns": {}}}}"#)),
        ("x/root".to_string(), json(r#"{"tables": [3]}"#)),
    ];
    let mut second: Vec<(String, serde_json::Value)> = first.iter().cloned().collect();
    second.reverse();
    let merged = merge(&first).unwrap();
    assert_eq!(merged, merge(&second).unwrap());
    assert_eq!(merged["tables"], json("[3, 2, 1]"));
    assert_eq!(merged["x_partials"], json(r#"{"p": {"columns": {}}, "q": {"columns": {}}}"#));
}

#[test]
fn empty_sections_are_dropped() {
    let documents = vec![("a".to_string(), json(r#"{"tables": [], "indexes": [1]}"#))];
    assert_eq!(merge(&documents).unwrap(), json(r#"{"indexes": [1]}"#));
}

#[test]
fn a_partial_declared_twice_is_rejected() {
    let documents = vec![
        ("b".to_string(), json(r#"{"x_partials": {"p": 1}}"#)),
        ("a".to_string(), json(r#"{"x_partials": {"p": 2}}"#)),
    ];
    assert_eq!(
        merge_message(merge(&documents)),
        "duplicate x_partials entry `p` across yaml files (found in `b`)"
    );
}

#[test]
fn a_file_that_is_not_a_map_is_rejected() {
    let documents = vec![("list".to_string(), json("[1, 2]"))];
    assert_eq!(merge_message(merge(&documents)), "yaml `list` is not a top-level map");
}

#[test]
fn yaml_is_parsed_into_json_values() {
    let driver = YamlDriver::new();
    assert_eq!(driver.parse("tables:\n  - name: t\n").unwrap(), json(r#"{"tables": [{"name": "t"}]}"#));
    match driver.parse("a: [1, 2") {
        Err(LaxError::Driver(DriverError::Yaml(message))) => assert!(!message.is_empty()),
        other => panic!("expected a yaml error, got {other:?}"),
    }
    let parsed = driver
        .parse_many(&vec![("one".to_string(), "a: 1".to_string()), ("two".to_string(), "b: 2".to_string())])
        .unwrap();
    assert_eq!(parsed.len(), 2);
    assert_eq!(parsed[1].0, "two");
    assert_eq!(parsed[1].1, json(r#"{"b": 2}"#));
    assert!(driver.parse_many(&vec![("bad".to_string(), "a: [".to_string())]).is_err());
}

#[test]
fn schema_checks_report_each_failure_kind() {
    let document = json(r#"{"tables": []}"#);
    assert!(validate_schema(&document, r#"{"type": "object"}"#).is_ok());
    match validate_schema(&document, r#"{"required": ["views"]}"#) {
        Err(LaxError::Codex(CodexError::SchemaViolation(message))) => assert!(message.contains("views")),
        other => panic!("expected a violation, got {other:?}"),
    }
    match validate_schema(&document, r#"{"type": 12}"#) {
        Err(LaxError::Codex(CodexError::SchemaInvalid(message))) => {
            assert!(message.starts_with("aggregate-schema.json: "))
        }
        other => panic!("expected an invalid schema, got {other:?}"),
    }
    match validate_schema(&document, "not json") {
        Err(LaxError::Driver(DriverError::Json(_))) => {}
        other => panic!("expected a json error, got {other:?}"),
    }
}

#[test]
fn compile_merged_parses_merges_and_checks() {
    let contents = vec![
        ("flow/root".to_string(), "tables:\n  - name: flows\n".to_string()),
        ("shared".to_string(), "types: []\n".to_string()),
    ];
    let merged = compile_merged(&YamlDriver::new(), &contents, r#"{"type": "object"}"#).unwrap();
    assert_eq!(merged, json(r#"{"tables": [{"name": "flows"}]}"#));
}

fn column(schema_type: &str, role: Option<CodexRole>) -> RawCodexColumnDefinition {
    RawCodexColumnDefinition { schema_type: schema_type.to_string(), x_role: role }
}

fn selected(column: &str, role: Option<CodexRole>) -> RawCodexSelectItem {
    RawCodexSelectItem::Column(RawCodexSelectColumn {
        column: column.to_string(),
        from: None,
        alias: None,
        overrides: RawCodexSelectOverrides { x_role: role, x_filterable: None, x_searchable: None, x_selectable: None },
    })
}

fn flows_document(with_id: bool) -> RawCodexDocument {
    let mut columns = vec![("name".to_string(), column("text", None))];
    if with_id {
        columns.insert(0, ("flow_id".to_string(), column("uuid", Some(CodexRole::Id))));
    }
    RawCodexDocument {
        x_partials: vec![],
        types: vec![],
        tables: vec![RawCodexTable {
            name: "snap_flows".to_string(),
            columns,
            primary_key: Some(RawCodexPrimaryKey { name: None, columns: vec!["flow_id".to_string(), "version".to_string()] }),
            x_aggregate: Some(RawCodexTableAggregate { name: "flow".to_string() }),
            x_entity: None,
            x_sink: None,
            x_partials: vec![],
        }],
        views: vec![RawCodexView {
            name: "flows".to_string(),
            x_aggregate: Some(RawCodexViewAggregate {
                name: "flow".to_string(),
                list: Some("default".to_string()),
                detail: None,
            }),
            x_entity: None,
            x_partials: vec![],
            select: vec![selected("flow_id", Some(CodexRole::Id)), selected("name", None)],
            from: Some(RawCodexViewSource { table: Some("snap_flows".to_string()), subquery: None, alias: "f".to_string() }),
            join: vec![],
        }],
    }
}

#[test]
fn a_small_document_compiles_into_the_catalog() {
    let catalog = compile_document(flows_document(true)).unwrap();
    let names: Vec<&str> = catalog.relations.iter().map(|relation| relation.name.as_str()).collect();
    assert_eq!(names, vec!["snap_flows", "flows"]);
    assert_eq!(catalog.aggregates.len(), 1);
    assert_eq!(catalog.aggregates[0].root.id_column, "flow_id");
}

#[test]
fn a_root_without_an_id_column_is_a_semantic_error() {
    match compile_document(flows_document(false)) {
        Err(LaxError::Codex(CodexError::Semantic(message))) => assert_eq!(
            message,
            "aggregate root `snap_flows` must declare exactly one column with `x_role: Id`"
        ),
        other => panic!("expected a semantic error, got {other:?}"),
    }
}

#[test]
fn schema_files_list_every_definition() {
    let files = schema_files();
    assert_eq!(files.len(), 8);
    assert_eq!(files[0], ("shared".to_string(), "definitions/shared.yml".to_string()));
    assert_eq!(files[7].0, "flow/history");
}

#[test]
fn schemas_pair_each_name_with_its_text() {
    let texts: Vec<String> = (0..8).map(|index| format!("text {index}")).collect();
    let named = schemas(texts);
    assert_eq!(named.len(), 8);
    assert_eq!(named[0], ("shared".to_string(), "text 0".to_string()));
    assert_eq!(named[3], ("flow/root".to_string(), "text 3".to_string()));
    assert_eq!(named[7], ("flow/history".to_string(), "text 7".to_string()));
}
