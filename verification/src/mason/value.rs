//! The values Mason reads and writes: column values, rows, effects and the
//! provenance stamped on projected rows.

use vstd::prelude::*;

use crate::catalog::column::CodexType;
use crate::error::texts;
use crate::seqs::copy_strings;

verus! {

/// Wraps `<serde_json::Value as Clone>::clone`: the derived clone copies the
/// whole tree, so the copy is the same value.
#[verifier::external_body]
pub(crate) fn json_clone(value: &serde_json::Value) -> (copy: serde_json::Value)
    ensures
        copy == *value,
{
    value.clone()
}

/// One column value. Timestamps are microseconds since the Unix epoch and
/// UUIDs their 128-bit number.
#[derive(Debug)]
pub enum MasonValue {
    Null,
    Text(String),
    Number(i64),
    Bool(bool),
    Uuid(u128),
    Timestamp(i64),
    Json(serde_json::Value),
    TextArray(Vec<String>),
}

/// `MasonValue` with its strings read as characters.
pub enum ValueView {
    Null,
    Text(Seq<char>),
    Number(i64),
    Bool(bool),
    Uuid(u128),
    Timestamp(i64),
    Json(serde_json::Value),
    TextArray(Seq<Seq<char>>),
}

impl View for MasonValue {
    type V = ValueView;

    open spec fn view(&self) -> ValueView {
        match self {
            MasonValue::Null => ValueView::Null,
            MasonValue::Text(text) => ValueView::Text(text@),
            MasonValue::Number(number) => ValueView::Number(*number),
            MasonValue::Bool(flag) => ValueView::Bool(*flag),
            MasonValue::Uuid(id) => ValueView::Uuid(*id),
            MasonValue::Timestamp(micros) => ValueView::Timestamp(*micros),
            MasonValue::Json(value) => ValueView::Json(*value),
            MasonValue::TextArray(items) => ValueView::TextArray(texts(items@)),
        }
    }
}

impl Clone for MasonValue {
    fn clone(&self) -> (copy: Self)
        ensures
            copy@ == self@,
    {
        match self {
            MasonValue::Null => MasonValue::Null,
            MasonValue::Text(text) => MasonValue::Text(text.clone()),
            MasonValue::Number(number) => MasonValue::Number(*number),
            MasonValue::Bool(flag) => MasonValue::Bool(*flag),
            MasonValue::Uuid(id) => MasonValue::Uuid(*id),
            MasonValue::Timestamp(micros) => MasonValue::Timestamp(*micros),
            MasonValue::Json(value) => MasonValue::Json(json_clone(value)),
            MasonValue::TextArray(items) => MasonValue::TextArray(copy_strings(items)),
        }
    }
}

/// A row of named values, in column order.
#[derive(Debug)]
pub struct MasonRow {
    pub columns: Vec<(String, MasonValue)>,
}

/// A row read as `(column name, value)` pairs.
pub open spec fn row_view(columns: Seq<(String, MasonValue)>) -> Seq<(Seq<char>, ValueView)> {
    columns.map_values(|entry: (String, MasonValue)| (entry.0@, entry.1@))
}

impl View for MasonRow {
    type V = Seq<(Seq<char>, ValueView)>;

    open spec fn view(&self) -> Seq<(Seq<char>, ValueView)> {
        row_view(self.columns@)
    }
}

impl MasonRow {
    /// A row holding `columns` in that order.
    pub fn from_static(columns: Vec<(String, MasonValue)>) -> (row: MasonRow)
        ensures
            row.columns@ == columns@,
    {
        MasonRow { columns }
    }

    /// The row's `(name, value)` pairs.
    pub fn columns(&self) -> (columns: &Vec<(String, MasonValue)>)
        ensures
            columns@ == self.columns@,
    {
        &self.columns
    }

    /// Appends copies of `other`'s columns after this row's.
    pub fn extend(&mut self, other: &MasonRow)
        ensures
            final(self)@ == old(self)@ + other@,
    {
        let ghost start = self@;
        let mut index: usize = 0;
        while index < other.columns.len()
            invariant
                0 <= index <= other.columns.len(),
                self@ == start + other@.take(index as int),
            decreases other.columns.len() - index,
        {
            let ghost before = self.columns@;
            let name = other.columns[index].0.clone();
            let value = other.columns[index].1.clone();
            self.columns.push((name, value));
            proof {
                assert(self.columns@ == before.push((name, value)));
                assert(row_view(before.push((name, value))) =~= row_view(before).push(other@[index as int]));
            }
            index = index + 1;
            proof {
                assert(self@ =~= start + other@.take(index as int));
            }
        }
        proof {
            assert(other@.len() == other.columns@.len());
            assert(other@.take(other.columns.len() as int) =~= other@);
        }
    }
}

impl Clone for MasonRow {
    fn clone(&self) -> (copy: Self)
        ensures
            copy@ == self@,
    {
        let mut copy = MasonRow { columns: Vec::new() };
        copy.extend(self);
        proof {
            assert(copy@ =~= self@);
        }
        copy
    }
}

/// Where an effect lands: the aggregate's root row, or an entity row picked
/// out by its key columns.
#[derive(Debug)]
pub enum MasonEffectTarget {
    Root,
    Entity { name: String, keys: MasonRow },
}

/// One change an aggregate asks its projections to make.
#[derive(Debug)]
pub enum MasonEffect {
    Upsert { target: MasonEffectTarget, fields: MasonRow },
    Revise { target: MasonEffectTarget, fields: MasonRow },
    Delete { target: MasonEffectTarget },
}

/// Who caused a change.
#[derive(Debug)]
pub enum Actor {
    /// A signed-in user, by id.
    Identity(u128),
    /// A system component, by name.
    System(String),
    Anonymous,
}

/// Who caused a change and under which correlation id.
#[derive(Debug)]
pub struct Provenance {
    pub actor: Actor,
    pub correlation_id: u128,
}

/// Sort direction of one `ORDER BY` clause.
#[derive(Debug, Clone, Copy, PartialEq, Eq, Structural)]
pub enum MasonDirection {
    Asc,
    Desc,
}

/// One `ORDER BY` clause.
#[derive(Debug)]
pub struct MasonSort {
    pub column: String,
    pub direction: MasonDirection,
}

/// The lower-case hex digit of a number below 16.
pub open spec fn hex_digit(nibble: int) -> char {
    seq!['0', '1', '2', '3', '4', '5', '6', '7', '8', '9', 'a', 'b', 'c', 'd', 'e', 'f'][nibble]
}

/// The `index`-th of the 32 hex digits of `id`, most significant first.
pub open spec fn uuid_nibble(id: u128, index: int) -> int {
    ((id >> ((124 - 4 * index) as u128)) % 16) as int
}

/// Which hex digit stands at `position` of the hyphenated text.
pub open spec fn digit_position(position: int) -> int {
    if position < 8 {
        position
    } else if position < 13 {
        position - 1
    } else if position < 18 {
        position - 2
    } else if position < 23 {
        position - 3
    } else {
        position - 4
    }
}

/// The hyphenated lower-case text of a UUID, as the `uuid` crate writes it:
/// its 32 hex digits, most significant first, grouped 8-4-4-4-12.
pub open spec fn uuid_text_of(id: u128) -> Seq<char> {
    Seq::new(
        36,
        |position: int|
            if position == 8 || position == 13 || position == 18 || position == 23 {
                '-'
            } else {
                hex_digit(uuid_nibble(id, digit_position(position)))
            },
    )
}

/// Wraps `uuid::Uuid::from_u128` and its `to_string` (`Display` writes the
/// hyphenated lower-case form): the text of the UUID whose number is `id`.
#[verifier::external_body]
pub(crate) fn uuid_text(id: u128) -> (text: String)
    ensures
        text@ == uuid_text_of(id),
{
    uuid::Uuid::from_u128(id).to_string()
}

/// The number of the UUID a text spells, as `uuid::Uuid::parse_str` reads it
/// (`None` when it is not a UUID).
pub uninterp spec fn uuid_parse_of(text: Seq<char>) -> Option<u128>;

/// Wraps `uuid::Uuid::parse_str`: the UUID the text spells, by number; a
/// function of the text alone.
#[verifier::external_body]
pub(crate) fn parse_uuid(text: &str) -> (id: Option<u128>)
    ensures
        id == uuid_parse_of(text@),
{
    match uuid::Uuid::parse_str(text) {
        Ok(id) => Some(id.as_u128()),
        Err(_) => None,
    }
}

/// A filter value made to match its column's type: text that spells a UUID
/// becomes a UUID for a UUID column, which Postgres would not accept as text;
/// every other value is kept (Postgres reads text as the other types itself).
pub open spec fn coerced(value: ValueView, data_type: CodexType) -> ValueView {
    match (value, data_type) {
        (ValueView::Text(text), CodexType::Uuid) => match uuid_parse_of(text) {
            Some(id) => ValueView::Uuid(id),
            None => value,
        },
        _ => value,
    }
}

impl MasonValue {
    /// This value made to match a column of type `data_type`.
    pub fn coerce_to(&self, data_type: &CodexType) -> (value: MasonValue)
        ensures
            value@ == coerced(self@, *data_type),
    {
        if let (MasonValue::Text(text), CodexType::Uuid) = (self, data_type) {
            if let Some(id) = parse_uuid(text.as_str()) {
                return MasonValue::Uuid(id);
            }
        }
        self.clone()
    }
}

} // verus!
