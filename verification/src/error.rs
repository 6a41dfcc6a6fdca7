//! The layered error types: the root `LaxError` and the layers it wraps.

use vstd::prelude::*;

verus! {

/// Schema compilation errors — raised while the catalog is built.
#[derive(Debug)]
pub enum CodexError {
    SchemaInvalid(String),
    SchemaViolation(String),
    Merge(String),
    Partials(String),
    Semantic(String),
    MismatchedPrimaryKey { table: String, expected: Vec<String>, actual: Vec<String> },
    Catalog(String),
}

/// Write-path errors — an effect that the catalog does not allow.
#[derive(Debug)]
pub enum MasonError {
    InvalidEntityKey { entity: String, key: String },
    EmptyEntityKeys { entity: String },
    IncompleteEntityKeys { entity: String, missing: Vec<String>, extra: Vec<String> },
    ProjectionNoOp { aggregate: String, aggregate_id: u128, aggregate_version: u64 },
}

/// Request-level errors, such as a filter that does not parse.
#[derive(Debug)]
pub enum ApplicationError {
    Validation(String),
}

/// Errors of the YAML and JSON drivers, carried as their messages.
#[derive(Debug)]
pub enum DriverError {
    Yaml(String),
    Json(String),
}

/// The single root error type; each layer wraps the one below it.
#[derive(Debug)]
pub enum LaxError {
    Codex(CodexError),
    Mason(MasonError),
    Application(ApplicationError),
    Driver(DriverError),
}

/// The characters of each string of a list.
pub open spec fn texts(items: Seq<String>) -> Seq<Seq<char>> {
    items.map_values(|item: String| item@)
}

/// `LaxError` with every string read as its characters.
pub enum LaxErrorView {
    SchemaInvalid(Seq<char>),
    SchemaViolation(Seq<char>),
    Merge(Seq<char>),
    Partials(Seq<char>),
    Semantic(Seq<char>),
    MismatchedPrimaryKey { table: Seq<char>, expected: Seq<Seq<char>>, actual: Seq<Seq<char>> },
    Catalog(Seq<char>),
    InvalidEntityKey { entity: Seq<char>, key: Seq<char> },
    EmptyEntityKeys { entity: Seq<char> },
    IncompleteEntityKeys { entity: Seq<char>, missing: Seq<Seq<char>>, extra: Seq<Seq<char>> },
    ProjectionNoOp { aggregate: Seq<char>, aggregate_id: u128, aggregate_version: u64 },
    Validation(Seq<char>),
    Yaml(Seq<char>),
    Json(Seq<char>),
}

impl View for LaxError {
    type V = LaxErrorView;

    open spec fn view(&self) -> LaxErrorView {
        match self {
            LaxError::Codex(CodexError::SchemaInvalid(m)) => LaxErrorView::SchemaInvalid(m@),
            LaxError::Codex(CodexError::SchemaViolation(m)) => LaxErrorView::SchemaViolation(m@),
            LaxError::Codex(CodexError::Merge(m)) => LaxErrorView::Merge(m@),
            LaxError::Codex(CodexError::Partials(m)) => LaxErrorView::Partials(m@),
            LaxError::Codex(CodexError::Semantic(m)) => LaxErrorView::Semantic(m@),
            LaxError::Codex(CodexError::MismatchedPrimaryKey { table, expected, actual }) => {
                LaxErrorView::MismatchedPrimaryKey {
                    table: table@,
                    expected: texts(expected@),
                    actual: texts(actual@),
                }
            },
            LaxError::Codex(CodexError::Catalog(m)) => LaxErrorView::Catalog(m@),
            LaxError::Mason(MasonError::InvalidEntityKey { entity, key }) => {
                LaxErrorView::InvalidEntityKey { entity: entity@, key: key@ }
            },
            LaxError::Mason(MasonError::EmptyEntityKeys { entity }) => LaxErrorView::EmptyEntityKeys {
                entity: entity@,
            },
            LaxError::Mason(MasonError::IncompleteEntityKeys { entity, missing, extra }) => {
                LaxErrorView::IncompleteEntityKeys {
                    entity: entity@,
                    missing: texts(missing@),
                    extra: texts(extra@),
                }
            },
            LaxError::Mason(MasonError::ProjectionNoOp { aggregate, aggregate_id, aggregate_version }) => {
                LaxErrorView::ProjectionNoOp {
                    aggregate: aggregate@,
                    aggregate_id: *aggregate_id,
                    aggregate_version: *aggregate_version,
                }
            },
            LaxError::Application(ApplicationError::Validation(m)) => LaxErrorView::Validation(m@),
            LaxError::Driver(DriverError::Yaml(m)) => LaxErrorView::Yaml(m@),
            LaxError::Driver(DriverError::Json(m)) => LaxErrorView::Json(m@),
        }
    }
}

impl CodexError {
    pub fn schema_invalid(message: String) -> (error: LaxError)
        ensures
            error@ == LaxErrorView::SchemaInvalid(message@),
    {
        LaxError::Codex(CodexError::SchemaInvalid(message))
    }

    pub fn schema_violation(message: String) -> (error: LaxError)
        ensures
            error@ == LaxErrorView::SchemaViolation(message@),
    {
        LaxError::Codex(CodexError::SchemaViolation(message))
    }

    pub fn merge(message: String) -> (error: LaxError)
        ensures
            error@ == LaxErrorView::Merge(message@),
    {
        LaxError::Codex(CodexError::Merge(message))
    }

    pub fn partials(message: String) -> (error: LaxError)
        ensures
            error@ == LaxErrorView::Partials(message@),
    {
        LaxError::Codex(CodexError::Partials(message))
    }

    pub fn semantic(message: String) -> (error: LaxError)
        ensures
            error@ == LaxErrorView::Semantic(message@),
    {
        LaxError::Codex(CodexError::Semantic(message))
    }

    pub fn mismatched_primary_key(table: String, expected: Vec<String>, actual: Vec<String>) -> (error:
        LaxError)
        ensures
            error@ == (LaxErrorView::MismatchedPrimaryKey {
                table: table@,
                expected: texts(expected@),
                actual: texts(actual@),
            }),
    {
        LaxError::Codex(CodexError::MismatchedPrimaryKey { table, expected, actual })
    }

    pub fn catalog(message: String) -> (error: LaxError)
        ensures
            error@ == LaxErrorView::Catalog(message@),
    {
        LaxError::Codex(CodexError::Catalog(message))
    }
}

impl MasonError {
    pub fn invalid_entity_key(entity: String, key: String) -> (error: LaxError)
        ensures
            error@ == (LaxErrorView::InvalidEntityKey { entity: entity@, key: key@ }),
    {
        LaxError::Mason(MasonError::InvalidEntityKey { entity, key })
    }

    pub fn empty_entity_keys(entity: String) -> (error: LaxError)
        ensures
            error@ == (LaxErrorView::EmptyEntityKeys { entity: entity@ }),
    {
        LaxError::Mason(MasonError::EmptyEntityKeys { entity })
    }

    pub fn incomplete_entity_keys(entity: String, missing: Vec<String>, extra: Vec<String>) -> (error:
        LaxError)
        ensures
            error@ == (LaxErrorView::IncompleteEntityKeys {
                entity: entity@,
                missing: texts(missing@),
                extra: texts(extra@),
            }),
    {
        LaxError::Mason(MasonError::IncompleteEntityKeys { entity, missing, extra })
    }

    pub fn projection_no_op(aggregate: String, aggregate_id: u128, aggregate_version: u64) -> (error:
        LaxError)
        ensures
            error@ == (LaxErrorView::ProjectionNoOp {
                aggregate: aggregate@,
                aggregate_id,
                aggregate_version,
            }),
    {
        LaxError::Mason(MasonError::ProjectionNoOp { aggregate, aggregate_id, aggregate_version })
    }
}

impl ApplicationError {
    pub fn validation(message: String) -> (error: LaxError)
        ensures
            error@ == LaxErrorView::Validation(message@),
    {
        LaxError::Application(ApplicationError::Validation(message))
    }
}

/// How `{:?}` shows a string: quoted, with its special characters escaped;
/// a function of the text alone.
pub uninterp spec fn debug_text_of(text: Seq<char>) -> Seq<char>;

/// Wraps `<str as Debug>::fmt` through `format!("{:?}")`: the text quoted and
/// escaped as `{:?}` shows it.
#[verifier::external_body]
fn debug_text(text: &str) -> (shown: String)
    ensures
        shown@ == debug_text_of(text@),
{
    format!("{:?}", text)
}

/// The items shown by `{:?}` and separated by `, `.
pub open spec fn debug_items(items: Seq<Seq<char>>) -> Seq<char>
    decreases items.len(),
{
    if items.len() == 0 {
        Seq::empty()
    } else if items.len() == 1 {
        debug_text_of(items[0])
    } else {
        debug_items(items.drop_last()) + ", "@ + debug_text_of(items.last())
    }
}

/// How `{:?}` shows a list of strings: `["a", "b"]`.
pub open spec fn debug_list(items: Seq<Seq<char>>) -> Seq<char> {
    "["@ + debug_items(items) + "]"@
}

/// Shows a list of strings as `{:?}` does.
fn show_list(items: &Vec<String>) -> (shown: String)
    ensures
        shown@ == debug_list(texts(items@)),
{
    let mut shown = String::from_str("[");
    let mut index: usize = 0;
    while index < items.len()
        invariant
            0 <= index <= items.len(),
            shown@ == "["@ + debug_items(texts(items@.take(index as int))),
        decreases items.len() - index,
    {
        proof {
            assert(texts(items@.take(index as int + 1)).drop_last() =~= texts(items@.take(index as int)));
            assert(texts(items@.take(index as int + 1)).last() == items@[index as int]@);
        }
        if index > 0 {
            shown.append(", ");
        }
        let item = debug_text(items[index].as_str());
        shown.append(item.as_str());
        index = index + 1;
        proof {
            if index == 1 {
                reveal_strlit("[");
                assert(debug_items(texts(items@.take(1))) == debug_text_of(items@[0]@));
            }
            assert(shown@ =~= "["@ + debug_items(texts(items@.take(index as int))));
        }
    }
    shown.append("]");
    proof {
        assert(items@.take(items.len() as int) =~= items@);
    }
    shown
}

/// The message a schema compilation error shows.
pub open spec fn codex_message(error: CodexError) -> Seq<char> {
    match error {
        CodexError::SchemaInvalid(message) => "aggregate schema invalid: "@ + message@,
        CodexError::SchemaViolation(message) => "yaml violates schema: "@ + message@,
        CodexError::Merge(message) => "yaml merge: "@ + message@,
        CodexError::Partials(message) => "x_partials: "@ + message@,
        CodexError::Semantic(message) => "semantic: "@ + message@,
        CodexError::MismatchedPrimaryKey { table, expected, actual } => "table `"@ + table@
            + "`: primary_key (excluding `version`) "@ + debug_list(texts(actual@))
            + " does not match Id + Reference columns "@ + debug_list(texts(expected@)),
        CodexError::Catalog(message) => "catalog: "@ + message@,
    }
}

impl CodexError {
    /// The message the error shows.
    pub fn message(&self) -> (text: String)
        ensures
            text@ == codex_message(*self),
    {
        match self {
            CodexError::SchemaInvalid(message) => crate::text::joined("aggregate schema invalid: ", message.as_str()),
            CodexError::SchemaViolation(message) => crate::text::joined("yaml violates schema: ", message.as_str()),
            CodexError::Merge(message) => crate::text::joined("yaml merge: ", message.as_str()),
            CodexError::Partials(message) => crate::text::joined("x_partials: ", message.as_str()),
            CodexError::Semantic(message) => crate::text::joined("semantic: ", message.as_str()),
            CodexError::MismatchedPrimaryKey { table, expected, actual } => {
                let mut text = String::from_str("table `");
                text.append(table.as_str());
                text.append("`: primary_key (excluding `version`) ");
                let shown_actual = show_list(actual);
                text.append(shown_actual.as_str());
                text.append(" does not match Id + Reference columns ");
                let shown_expected = show_list(expected);
                text.append(shown_expected.as_str());
                text
            },
            CodexError::Catalog(message) => crate::text::joined("catalog: ", message.as_str()),
        }
    }
}

/// The message an error of any layer shows.
pub open spec fn lax_message(error: LaxError) -> Seq<char> {
    match error {
        LaxError::Codex(codex_error) => codex_message(codex_error),
        LaxError::Mason(MasonError::InvalidEntityKey { entity, key }) => "entity `"@ + entity@ + "`: key column `"@
            + key@ + "` is not a Reference column"@,
        LaxError::Mason(MasonError::EmptyEntityKeys { entity }) => "entity `"@ + entity@
            + "`: delete requires at least one key column"@,
        LaxError::Mason(MasonError::IncompleteEntityKeys { entity, missing, extra }) => "entity `"@ + entity@
            + "`: keys must be exactly the Reference columns (missing "@ + debug_list(texts(missing@))
            + ", extra "@ + debug_list(texts(extra@)) + ")"@,
        LaxError::Mason(MasonError::ProjectionNoOp { aggregate, aggregate_id, aggregate_version }) => "projection of `"@
            + aggregate@ + "` "@ + crate::mason::value::uuid_text_of(aggregate_id) + " at version "@
            + crate::text::decimal_text(aggregate_version as nat) + " affected no rows"@,
        LaxError::Application(ApplicationError::Validation(message)) => message@,
        LaxError::Driver(DriverError::Yaml(message)) => "yaml: "@ + message@,
        LaxError::Driver(DriverError::Json(message)) => "json: "@ + message@,
    }
}

impl LaxError {
    /// The message the error shows.
    pub fn message(&self) -> (text: String)
        ensures
            text@ == lax_message(*self),
    {
        match self {
            LaxError::Codex(codex_error) => codex_error.message(),
            LaxError::Mason(MasonError::InvalidEntityKey { entity, key }) => crate::text::joined5(
                "entity `",
                entity.as_str(),
                "`: key column `",
                key.as_str(),
                "` is not a Reference column",
            ),
            LaxError::Mason(MasonError::EmptyEntityKeys { entity }) => crate::text::joined3(
                "entity `",
                entity.as_str(),
                "`: delete requires at least one key column",
            ),
            LaxError::Mason(MasonError::IncompleteEntityKeys { entity, missing, extra }) => {
                let mut text = String::from_str("entity `");
                text.append(entity.as_str());
                text.append("`: keys must be exactly the Reference columns (missing ");
                let shown_missing = show_list(missing);
                text.append(shown_missing.as_str());
                text.append(", extra ");
                let shown_extra = show_list(extra);
                text.append(shown_extra.as_str());
                text.append(")");
                text
            },
            LaxError::Mason(MasonError::ProjectionNoOp { aggregate, aggregate_id, aggregate_version }) => {
                let mut text = String::from_str("projection of `");
                text.append(aggregate.as_str());
                text.append("` ");
                let id = crate::mason::value::uuid_text(*aggregate_id);
                text.append(id.as_str());
                text.append(" at version ");
                let version = crate::text::decimal_u64(*aggregate_version);
                text.append(version.as_str());
                text.append(" affected no rows");
                text
            },
            LaxError::Application(ApplicationError::Validation(message)) => message.clone(),
            LaxError::Driver(DriverError::Yaml(message)) => crate::text::joined("yaml: ", message.as_str()),
            LaxError::Driver(DriverError::Json(message)) => crate::text::joined("json: ", message.as_str()),
        }
    }
}

/// The message a schema parser error shows.
pub open spec fn holocron_message(error: HolocronError) -> Seq<char> {
    match error {
        HolocronError::Parse(message) => "parse error: "@ + message@,
        HolocronError::UnknownType { relation, column, schema_type } => "unknown type `"@ + schema_type@
            + "` on column `"@ + relation@ + "."@ + column@ + "`"@,
        HolocronError::DuplicateRelation(name) => "duplicate relation `"@ + name@ + "`"@,
        HolocronError::DuplicateEnum(name) => "duplicate enum type `"@ + name@ + "`"@,
    }
}

/// Errors of the standalone schema parser: the crate's single root error type.
#[derive(Debug)]
pub enum HolocronError {
    /// The YAML did not fit the declared schema shape (Layer 1).
    Parse(String),
    /// A column's type is neither a built-in nor a declared enum.
    UnknownType { relation: String, column: String, schema_type: String },
    /// Two relations share a name.
    DuplicateRelation(String),
    /// Two enum types share a name.
    DuplicateEnum(String),
}

impl HolocronError {
    pub fn parse(message: String) -> (error: Self)
        ensures
            error matches HolocronError::Parse(m) && m == message,
    {
        HolocronError::Parse(message)
    }

    pub fn unknown_type(relation: String, column: String, schema_type: String) -> (error: Self)
        ensures
            error matches HolocronError::UnknownType { relation: r, column: c, schema_type: t } && r
                == relation && c == column && t == schema_type,
    {
        HolocronError::UnknownType { relation, column, schema_type }
    }

    pub fn duplicate_relation(name: String) -> (error: Self)
        ensures
            error matches HolocronError::DuplicateRelation(n) && n == name,
    {
        HolocronError::DuplicateRelation(name)
    }

    pub fn duplicate_enum(name: String) -> (error: Self)
        ensures
            error matches HolocronError::DuplicateEnum(n) && n == name,
    {
        HolocronError::DuplicateEnum(name)
    }

    /// The message the error shows.
    pub fn message(&self) -> (text: String)
        ensures
            text@ == holocron_message(*self),
    {
        match self {
            HolocronError::Parse(message) => crate::text::joined("parse error: ", message.as_str()),
            HolocronError::UnknownType { relation, column, schema_type } => {
                let mut text = String::from_str("unknown type `");
                text.append(schema_type.as_str());
                text.append("` on column `");
                text.append(relation.as_str());
                text.append(".");
                text.append(column.as_str());
                text.append("`");
                text
            },
            HolocronError::DuplicateRelation(name) => crate::text::joined3("duplicate relation `", name.as_str(), "`"),
            HolocronError::DuplicateEnum(name) => crate::text::joined3("duplicate enum type `", name.as_str(), "`"),
        }
    }
}

} // verus!
