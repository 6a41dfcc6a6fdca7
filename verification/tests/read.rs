use codex::catalog::column::{CodexColumn, CodexRole, CodexType};
use codex::catalog::relation::{CodexKind, CodexRelation};
use codex::mason::query::{MasonFilter, MasonQuery};
use codex::mason::read::{build_list, build_one, page_total, visible_columns};
use codex::mason::sql::{SqlPiece, SqlStatement, quote_ident};
use codex::mason::value::{MasonDirection, MasonRow, MasonSort, MasonValue};

fn render(statement: &SqlStatement) -> (String, Vec<String>) {
    let mut sql = String::new();
    let mut args = Vec::new();
    for piece in &statement.pieces {
        match piece {
            SqlPiece::Text(text) => sql.push_str(text),
            SqlPiece::Bind(arg) => {
                args.push(format!("{:?}", arg));
                sql.push_str(&format!("${}", args.len()));
            }
            SqlPiece::Again(ordinal) => sql.push_str(&format!("${}", ordinal + 1)),
        }
    }
    (sql, args)
}

fn column(name: &str, data_type: CodexType, role: CodexRole, searchable: bool, selectable: bool) -> CodexColumn {
    CodexColumn { name: name.to_string(), data_type, role, filterable: true, searchable, selectable }
}

fn items() -> CodexRelation {
    CodexRelation {
        name: "items".to_string(),
        kind: CodexKind::View,
        columns: vec![
            column("id", CodexType::Uuid, CodexRole::Id, false, false),
            column("name", CodexType::Text, CodexRole::Data, true, true),
            column("status", CodexType::Enum("item_status".to_string()), CodexRole::Data, false, true),
        ],
    }
}

fn query() -> MasonQuery {
    MasonQuery {
        select: vec![],
        filter: None,
        search: None,
        sort: vec![],
        page: 1,
        page_size: 0,
        project_ids: vec![],
    }
}

#[test]
fn quoting_doubles_embedded_quotes() {
    assert_eq!(quote_ident("plain"), "\"plain\"");
    assert_eq!(quote_ident("we\"ird"), "\"we\"\"ird\"");
}

#[test]
fn one_without_filters_selects_every_column() {
    let (sql, args) = render(&build_one("items", &items(), &query()));
    assert_eq!(sql, "SELECT \"id\", \"name\", \"status\" FROM \"items\" LIMIT 1");
    assert!(args.is_empty());
}

#[test]
fn explicit_selection_keeps_always_returned_columns() {
    let mut request = query();
    request.select = vec!["status".to_string(), "id".to_string()];
    let (sql, _) = render(&build_one("items", &items(), &request));
    assert_eq!(sql, "SELECT \"id\", \"status\" FROM \"items\" LIMIT 1");
}

#[test]
fn relation_without_columns_selects_star() {
    let empty = CodexRelation { name: "empty".to_string(), kind: CodexKind::View, columns: vec![] };
    let (sql, _) = render(&build_one("empty", &empty, &query()));
    assert_eq!(sql, "SELECT * FROM \"empty\" LIMIT 1");
}

#[test]
fn list_pages_with_limit_and_offset() {
    let mut request = query();
    request.page = 3;
    request.page_size = 10;
    request.sort = vec![
        MasonSort { column: "name".to_string(), direction: MasonDirection::Asc },
        MasonSort { column: "id".to_string(), direction: MasonDirection::Desc },
    ];
    let (sql, args) = render(&build_list("items", &items(), &request));
    assert_eq!(
        sql,
        "SELECT \"id\", \"name\", \"status\", COUNT(*) OVER() AS \"_total\" FROM \"items\" ORDER BY \"name\" ASC, \"id\" DESC LIMIT $1 OFFSET $2"
    );
    assert_eq!(args, vec!["BigInt(10)", "BigInt(20)"]);
}

#[test]
fn page_zero_reads_as_the_first_page() {
    let mut request = query();
    request.page = 0;
    request.page_size = 5;
    let (_, args) = render(&build_list("items", &items(), &request));
    assert_eq!(args, vec!["BigInt(5)", "BigInt(0)"]);
}

#[test]
fn enum_filter_gets_the_enum_cast() {
    let mut request = query();
    request.filter = Some(MasonFilter::Eq("status".to_string(), MasonValue::Text("open".to_string())));
    let (sql, args) = render(&build_one("items", &items(), &request));
    assert_eq!(sql, "SELECT \"id\", \"name\", \"status\" FROM \"items\" WHERE \"status\" = $1::\"item_status\" LIMIT 1");
    assert_eq!(args, vec!["Value(Text(\"open\"))"]);
}

#[test]
fn uuid_text_is_coerced_for_a_uuid_column() {
    let mut request = query();
    request.filter = Some(MasonFilter::Eq(
        "id".to_string(),
        MasonValue::Text("00000000-0000-0000-0000-00000000002a".to_string()),
    ));
    let (sql, args) = render(&build_one("items", &items(), &request));
    assert!(sql.ends_with("WHERE \"id\" = $1::uuid LIMIT 1"));
    assert_eq!(args, vec!["Value(Uuid(42))"]);
}

#[test]
fn text_that_is_no_uuid_stays_text() {
    let mut request = query();
    request.filter = Some(MasonFilter::Eq("id".to_string(), MasonValue::Text("nope".to_string())));
    let (sql, args) = render(&build_one("items", &items(), &request));
    assert!(sql.ends_with("WHERE \"id\" = $1 LIMIT 1"));
    assert_eq!(args, vec!["Value(Text(\"nope\"))"]);
}

#[test]
fn where_joins_projects_filter_and_search() {
    let mut request = query();
    request.project_ids = vec![7, 8];
    request.filter = Some(MasonFilter::Or(vec![
        MasonFilter::IsNull("name".to_string(), true),
        MasonFilter::Like("name".to_string(), "ab".to_string()),
    ]));
    request.search = Some("  hello ".to_string());
    let (sql, args) = render(&build_one("items", &items(), &request));
    assert_eq!(
        sql,
        "SELECT \"id\", \"name\", \"status\" FROM \"items\" WHERE \"identity_project_id\" IN ($1, $2) AND (\"name\" IS NULL OR \"name\" ILIKE $3) AND (\"name\" ILIKE $4) LIMIT 1"
    );
    assert_eq!(args, vec!["Uuid(7)", "Uuid(8)", "Text(\"%ab%\")", "Text(\"%hello%\")"]);
}

#[test]
fn search_shares_one_parameter_across_columns() {
    let mut relation = items();
    relation.columns[2].searchable = true;
    let mut request = query();
    request.project_ids = vec![7];
    request.search = Some("hi".to_string());
    let (sql, args) = render(&build_one("items", &relation, &request));
    assert_eq!(
        sql,
        "SELECT \"id\", \"name\", \"status\" FROM \"items\" WHERE \"identity_project_id\" IN ($1) AND (\"name\" ILIKE $2 OR \"status\" ILIKE $2) LIMIT 1"
    );
    assert_eq!(args, vec!["Uuid(7)", "Text(\"%hi%\")"]);
}

#[test]
fn blank_search_adds_nothing() {
    let mut request = query();
    request.search = Some("   ".to_string());
    let (sql, _) = render(&build_one("items", &items(), &request));
    assert_eq!(sql, "SELECT \"id\", \"name\", \"status\" FROM \"items\" LIMIT 1");
}

#[test]
fn empty_sets_and_junctions_are_literals() {
    let mut request = query();
    request.filter = Some(MasonFilter::And(vec![
        MasonFilter::In("name".to_string(), vec![]),
        MasonFilter::NotIn("name".to_string(), vec![]),
        MasonFilter::Or(vec![]),
        MasonFilter::StartsWith("name".to_string(), "a".to_string()),
        MasonFilter::EndsWith("name".to_string(), "z".to_string()),
    ]));
    let (sql, args) = render(&build_one("items", &items(), &request));
    assert!(sql.contains("WHERE (FALSE AND TRUE AND TRUE AND \"name\" ILIKE $1 AND \"name\" ILIKE $2)"));
    assert_eq!(args, vec!["Text(\"a%\")", "Text(\"%z\")"]);
}

#[test]
fn set_members_are_bound_one_by_one() {
    let mut request = query();
    request.filter = Some(MasonFilter::In(
        "status".to_string(),
        vec![MasonValue::Text("a".to_string()), MasonValue::Null],
    ));
    let (sql, _) = render(&build_one("items", &items(), &request));
    assert!(sql.contains("WHERE \"status\" IN ($1::\"item_status\", NULL)"));
}

#[test]
fn total_comes_from_the_first_counted_row() {
    let rows = vec![
        MasonRow::from_static(vec![("_total".to_string(), MasonValue::Number(0))]),
        MasonRow::from_static(vec![
            ("name".to_string(), MasonValue::Text("a".to_string())),
            ("_total".to_string(), MasonValue::Number(12)),
        ]),
    ];
    assert_eq!(page_total(&rows), 12);
    assert_eq!(page_total(&vec![]), 0);
}

#[test]
fn read_rows_drop_the_total_column() {
    let row = MasonRow::from_static(vec![
        ("name".to_string(), MasonValue::Text("a".to_string())),
        ("_total".to_string(), MasonValue::Number(3)),
    ]);
    let visible = visible_columns(&row);
    assert_eq!(visible.columns.len(), 1);
    assert_eq!(visible.columns[0].0, "name");
}

#[test]
fn unpaginated_query_reads_every_row() {
    let mut request = query();
    request.page = 4;
    request.page_size = 25;
    request.select = vec!["name".to_string()];
    let all = request.unpaginated();
    assert_eq!(all.page, 1);
    assert_eq!(all.page_size, 0);
    assert_eq!(all.select, vec!["name".to_string()]);
    let (sql, args) = render(&build_list("items", &items(), &all));
    assert!(!sql.contains("LIMIT"));
    assert!(args.is_empty());
}
