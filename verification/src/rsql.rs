//! The RSQL filter and sort parser.
//!
//! Grammar of a filter (`,` binds looser than `;`):
//!
//! ```text
//! or         := and ( ',' and )*
//! and        := primary ( ';' primary )*
//! primary    := '(' or ')' | comparison
//! comparison := identifier operator argument
//! ```
//!
//! A separator not followed by a valid operand is left unread. Groups nest at
//! most `MAX_NESTING_DEPTH` deep; a deeper group stops the parse outright.

use vstd::prelude::*;

use crate::error::{ApplicationError, LaxError, LaxErrorView};
use crate::mason::query::{FilterView, MasonFilter, filters_view, values_view};
use crate::mason::value::{MasonDirection, MasonSort, MasonValue, ValueView};
use crate::mason::query::sorts_view;
use crate::text::{
    alphanumeric,
    chars_of,
    is_alphanumeric,
    joined3,
    owned,
    string_of,
    trim,
    trimmed,
};

verus! {

/// How deep parenthesised groups may nest.
pub const MAX_NESTING_DEPTH: usize = 10;

// ── the grammar, over characters ───────────────────────────────────────────

/// What a grammar rule gives at a position: a node and the position after
/// it, a recoverable `Error` (the caller may try something else), or a
/// `Failure` that ends the parse.
pub enum Parsed {
    Done(FilterView, int),
    Error,
    Failure,
}

/// A comparison operator.
#[derive(Clone, Copy, PartialEq, Eq, Structural)]
pub enum Operator {
    Eq,
    NotEq,
    Gt,
    Ge,
    Lt,
    Le,
    Like,
    Starts,
    Ends,
    In,
    Out,
    Null,
}

/// The operators, each with its text, in the order they are tried.
pub open spec fn operator_text(operator: Operator) -> Seq<char> {
    match operator {
        Operator::Eq => "=="@,
        Operator::NotEq => "!="@,
        Operator::Gt => "=gt="@,
        Operator::Ge => "=ge="@,
        Operator::Lt => "=lt="@,
        Operator::Le => "=le="@,
        Operator::Like => "=like="@,
        Operator::Starts => "=starts="@,
        Operator::Ends => "=ends="@,
        Operator::In => "=in="@,
        Operator::Out => "=out="@,
        Operator::Null => "=null="@,
    }
}

/// Whether `tag` stands in `input` at `position`.
pub open spec fn tag_at(input: Seq<char>, position: int, tag: Seq<char>) -> bool {
    0 <= position && position + tag.len() <= input.len() && input.subrange(position, position + tag.len()) == tag
}

/// The first operator, in the order tried, whose text stands at `position`.
pub open spec fn operator_at(input: Seq<char>, position: int) -> Option<Operator> {
    if tag_at(input, position, "=="@) {
        Some(Operator::Eq)
    } else if tag_at(input, position, "!="@) {
        Some(Operator::NotEq)
    } else if tag_at(input, position, "=gt="@) {
        Some(Operator::Gt)
    } else if tag_at(input, position, "=ge="@) {
        Some(Operator::Ge)
    } else if tag_at(input, position, "=lt="@) {
        Some(Operator::Lt)
    } else if tag_at(input, position, "=le="@) {
        Some(Operator::Le)
    } else if tag_at(input, position, "=like="@) {
        Some(Operator::Like)
    } else if tag_at(input, position, "=starts="@) {
        Some(Operator::Starts)
    } else if tag_at(input, position, "=ends="@) {
        Some(Operator::Ends)
    } else if tag_at(input, position, "=in="@) {
        Some(Operator::In)
    } else if tag_at(input, position, "=out="@) {
        Some(Operator::Out)
    } else if tag_at(input, position, "=null="@) {
        Some(Operator::Null)
    } else {
        None
    }
}

/// Characters of a column name.
pub open spec fn identifier_char(character: char) -> bool {
    alphanumeric(character) || character == '_' || character == '.'
}

/// Characters of a single argument: anything but `;`, `,`, `(` and `)`.
pub open spec fn value_char(character: char) -> bool {
    character != ';' && character != ',' && character != '(' && character != ')'
}

/// Characters of a list item: anything but `,` and `)`.
pub open spec fn item_char(character: char) -> bool {
    character != ',' && character != ')'
}

/// The class of characters a run is made of.
#[derive(Clone, Copy)]
pub enum CharClass {
    Identifier,
    Value,
    Item,
}

/// Whether `character` belongs to `class`.
pub open spec fn in_class(class: CharClass, character: char) -> bool {
    match class {
        CharClass::Identifier => identifier_char(character),
        CharClass::Value => value_char(character),
        CharClass::Item => item_char(character),
    }
}

/// Where the longest run of `class` characters from `position` ends.
pub open spec fn run_end(input: Seq<char>, position: int, class: CharClass) -> int
    decreases input.len() - position,
{
    if 0 <= position < input.len() && in_class(class, input[position]) {
        run_end(input, position + 1, class)
    } else {
        position
    }
}

/// The items after the first of a list: each `,` followed by a non-empty
/// item; a `,` with no item after it is left unread.
pub open spec fn list_rest(input: Seq<char>, position: int, items: Seq<Seq<char>>) -> (Seq<Seq<char>>, int)
    decreases input.len() - position,
{
    if 0 <= position < input.len() && input[position] == ',' {
        let end = run_end(input, position + 1, CharClass::Item);
        if position + 1 < end <= input.len() {
            list_rest(input, end, items.push(input.subrange(position + 1, end)))
        } else {
            (items, position)
        }
    } else {
        (items, position)
    }
}

/// `( item , item ... )`: the items and the position after `)`.
pub open spec fn list_at(input: Seq<char>, position: int) -> Option<(Seq<Seq<char>>, int)> {
    if 0 <= position < input.len() && input[position] == '(' {
        let first_end = run_end(input, position + 1, CharClass::Item);
        if first_end > position + 1 {
            let (items, end) = list_rest(input, first_end, seq![input.subrange(position + 1, first_end)]);
            if end < input.len() && input[end] == ')' {
                Some((items, end + 1))
            } else {
                None
            }
        } else {
            None
        }
    } else {
        None
    }
}

/// A list item as a filter value.
pub open spec fn text_values(items: Seq<Seq<char>>) -> Seq<ValueView> {
    items.map_values(|item: Seq<char>| ValueView::Text(item))
}

/// The comparison node of an operator with a single argument.
pub open spec fn single_node(operator: Operator, column: Seq<char>, value: Seq<char>) -> FilterView {
    match operator {
        Operator::Eq => FilterView::Eq(column, ValueView::Text(value)),
        Operator::NotEq => FilterView::NotEq(column, ValueView::Text(value)),
        Operator::Gt => FilterView::Gt(column, ValueView::Text(value)),
        Operator::Ge => FilterView::Gte(column, ValueView::Text(value)),
        Operator::Lt => FilterView::Lt(column, ValueView::Text(value)),
        Operator::Le => FilterView::Lte(column, ValueView::Text(value)),
        Operator::Like => FilterView::Like(column, value),
        Operator::Starts => FilterView::StartsWith(column, value),
        _ => FilterView::EndsWith(column, value),
    }
}

/// `identifier operator argument`.
pub open spec fn comparison_at(input: Seq<char>, position: int) -> Parsed {
    let name_end = run_end(input, position, CharClass::Identifier);
    if name_end == position {
        Parsed::Error
    } else {
        let column = input.subrange(position, name_end);
        match operator_at(input, name_end) {
            None => Parsed::Error,
            Some(operator) => {
                let after = name_end + operator_text(operator).len();
                match operator {
                    Operator::In | Operator::Out => match list_at(input, after) {
                        Some((items, end)) => Parsed::Done(
                            if operator == Operator::In {
                                FilterView::In(column, text_values(items))
                            } else {
                                FilterView::NotIn(column, text_values(items))
                            },
                            end,
                        ),
                        None => Parsed::Error,
                    },
                    Operator::Null => if tag_at(input, after, "true"@) {
                        Parsed::Done(FilterView::IsNull(column, true), after + 4)
                    } else if tag_at(input, after, "false"@) {
                        Parsed::Done(FilterView::IsNull(column, false), after + 5)
                    } else {
                        Parsed::Error
                    },
                    _ => {
                        let value_end = run_end(input, after, CharClass::Value);
                        if value_end == after {
                            Parsed::Error
                        } else {
                            Parsed::Done(single_node(operator, column, input.subrange(after, value_end)), value_end)
                        }
                    },
                }
            },
        }
    }
}

/// A run starts where it is asked to and ends within the input.
proof fn lemma_run_end_bounds(input: Seq<char>, position: int, class: CharClass)
    ensures
        0 <= position <= input.len() ==> position <= run_end(input, position, class) <= input.len(),
        !(0 <= position < input.len()) ==> run_end(input, position, class) == position,
    decreases input.len() - position,
{
    if 0 <= position < input.len() && in_class(class, input[position]) {
        lemma_run_end_bounds(input, position + 1, class);
    }
}

/// A set comparison holds every item of the parenthesised list that follows
/// its operator, in order, each as a text value: `c=in=(v1,...,vn)` gives
/// `In(c, [v1, ..., vn])` and `c=out=(v1,...,vn)` gives `NotIn(c, [v1, ..., vn])`,
/// the same values for the same list, and the comparison ends where the list
/// does.
pub proof fn lemma_set_comparison_values(input: Seq<char>, position: int)
    ensures
        comparison_at(input, position) matches Parsed::Done(FilterView::In(column, values), end) ==> {
            let name_end = position + column.len();
            &&& column == input.subrange(position, name_end)
            &&& operator_at(input, name_end) == Some(Operator::In)
            &&& list_at(input, name_end + 4) matches Some((items, list_end)) && list_end == end
                && values.len() == items.len() && forall|i: int|
                0 <= i < items.len() ==> values[i] == ValueView::Text(#[trigger] items[i])
        },
        comparison_at(input, position) matches Parsed::Done(FilterView::NotIn(column, values), end) ==> {
            let name_end = position + column.len();
            &&& column == input.subrange(position, name_end)
            &&& operator_at(input, name_end) == Some(Operator::Out)
            &&& list_at(input, name_end + 5) matches Some((items, list_end)) && list_end == end
                && values.len() == items.len() && forall|i: int|
                0 <= i < items.len() ==> values[i] == ValueView::Text(#[trigger] items[i])
        },
{
    let name_end = run_end(input, position, CharClass::Identifier);
    if name_end != position {
        let column = input.subrange(position, name_end);
        assert(column.len() == name_end - position) by {
            lemma_run_end_bounds(input, position, CharClass::Identifier);
        }
        reveal_strlit("=in=");
        reveal_strlit("=out=");
    }
}

/// One operand, or the junction of several: a single node stands alone.
pub open spec fn junction(nodes: Seq<FilterView>, is_and: bool) -> FilterView {
    if nodes.len() == 1 {
        nodes[0]
    } else if is_and {
        FilterView::And(nodes)
    } else {
        FilterView::Or(nodes)
    }
}

/// The operands of a junction from `position` on, `nodes` read so far. With
/// `is_and` the operands are primaries joined by `;`, otherwise `and`s joined
/// by `,`. A separator whose operand does not parse is left unread.
pub open spec fn operands(input: Seq<char>, position: int, depth: int, nodes: Seq<FilterView>, is_and: bool) -> Parsed
    decreases MAX_NESTING_DEPTH - depth, input.len() - position, if is_and {
        2int
    } else {
        4int
    },
{
    let operand = if is_and {
        primary(input, position, depth)
    } else {
        operands(input, position, depth, Seq::empty(), true)
    };
    let separator = if is_and {
        ';'
    } else {
        ','
    };
    match operand {
        Parsed::Failure => Parsed::Failure,
        Parsed::Error => if nodes.len() == 0 {
            Parsed::Error
        } else {
            Parsed::Done(junction(nodes, is_and), position - 1)
        },
        Parsed::Done(node, end) => if position <= end < input.len() && input[end] == separator {
            operands(input, end + 1, depth, nodes.push(node), is_and)
        } else {
            Parsed::Done(junction(nodes.push(node), is_and), end)
        },
    }
}

/// `'(' or ')'` or a comparison. A group deeper than the cap fails the parse.
pub open spec fn primary(input: Seq<char>, position: int, depth: int) -> Parsed
    decreases MAX_NESTING_DEPTH - depth, input.len() - position, 1int,
{
    if 0 <= position < input.len() && input[position] == '(' {
        if depth >= MAX_NESTING_DEPTH || depth < 0 {
            Parsed::Failure
        } else {
            match operands(input, position + 1, depth + 1, Seq::empty(), false) {
                Parsed::Done(node, end) => if 0 <= end < input.len() && input[end] == ')' {
                    Parsed::Done(node, end + 1)
                } else {
                    Parsed::Error
                },
                other => other,
            }
        }
    } else {
        comparison_at(input, position)
    }
}

/// A whole `or` expression at `position` and nesting `depth`.
pub open spec fn or_at(input: Seq<char>, position: int, depth: int) -> Parsed {
    operands(input, position, depth, Seq::empty(), false)
}

// ── what a successful parse gives ──────────────────────────────────────────

/// Every junction has at least two operands and every column is a non-empty
/// run of identifier characters.
pub open spec fn well_formed(filter: FilterView) -> bool
    decreases filter,
{
    match filter {
        FilterView::And(children) => children.len() >= 2 && forall|i: int|
            0 <= i < children.len() ==> well_formed(#[trigger] children[i]),
        FilterView::Or(children) => children.len() >= 2 && forall|i: int|
            0 <= i < children.len() ==> well_formed(#[trigger] children[i]),
        FilterView::Eq(column, _) => valid_column(column),
        FilterView::NotEq(column, _) => valid_column(column),
        FilterView::Gt(column, _) => valid_column(column),
        FilterView::Gte(column, _) => valid_column(column),
        FilterView::Lt(column, _) => valid_column(column),
        FilterView::Lte(column, _) => valid_column(column),
        FilterView::Like(column, _) => valid_column(column),
        FilterView::StartsWith(column, _) => valid_column(column),
        FilterView::EndsWith(column, _) => valid_column(column),
        FilterView::In(column, _) => valid_column(column),
        FilterView::NotIn(column, _) => valid_column(column),
        FilterView::IsNull(column, _) => valid_column(column),
    }
}

/// A column name: one or more identifier characters.
pub open spec fn valid_column(column: Seq<char>) -> bool {
    column.len() > 0 && forall|i: int| 0 <= i < column.len() ==> identifier_char(#[trigger] column[i])
}

// ── the parser ─────────────────────────────────────────────────────────────

/// What a parse step gives, as executable values.
pub enum Outcome {
    Done(MasonFilter, usize),
    Error,
    Failure,
}

/// An outcome read as a `Parsed`.
pub open spec fn outcome_view(outcome: Outcome) -> Parsed {
    match outcome {
        Outcome::Done(filter, end) => Parsed::Done(filter@, end as int),
        Outcome::Error => Parsed::Error,
        Outcome::Failure => Parsed::Failure,
    }
}

/// Whether `character` belongs to `class`.
fn char_in_class(character: char, class: CharClass) -> (result: bool)
    ensures
        result == in_class(class, character),
{
    match class {
        CharClass::Identifier => is_alphanumeric(character) || character == '_' || character == '.',
        CharClass::Value => character != ';' && character != ',' && character != '(' && character != ')',
        CharClass::Item => character != ',' && character != ')',
    }
}

/// The end of the run of `class` characters from `position`.
fn scan(characters: &Vec<char>, position: usize, class: CharClass) -> (end: usize)
    requires
        position <= characters@.len(),
    ensures
        end as int == run_end(characters@, position as int, class),
        position <= end <= characters@.len(),
        forall|i: int| position <= i < end ==> in_class(class, #[trigger] characters@[i]),
{
    let mut end = position;
    while end < characters.len() && char_in_class(characters[end], class)
        invariant
            position <= end <= characters@.len(),
            run_end(characters@, position as int, class) == run_end(characters@, end as int, class),
            forall|i: int| position <= i < end ==> in_class(class, #[trigger] characters@[i]),
        decreases characters.len() - end,
    {
        end = end + 1;
    }
    end
}

/// Whether `tag` stands at `position`.
fn tag_matches(characters: &Vec<char>, position: usize, tag: &str) -> (found: bool)
    requires
        position <= characters@.len(),
    ensures
        found == tag_at(characters@, position as int, tag@),
{
    let length = tag.unicode_len();
    let total = characters.len();
    if length > total - position {
        return false;
    }
    let mut index: usize = 0;
    while index < length
        invariant
            0 <= index <= length,
            length == tag@.len(),
            total == characters@.len(),
            position + length <= total,
            forall|i: int| 0 <= i < index ==> characters@[position + i] == #[trigger] tag@[i],
        decreases length - index,
    {
        if characters[position + index] != tag.get_char(index) {
            proof {
                assert(characters@.subrange(position as int, position + length)[index as int]
                    != tag@[index as int]);
            }
            return false;
        }
        index = index + 1;
    }
    proof {
        assert(characters@.subrange(position as int, position + length) =~= tag@);
    }
    true
}

/// The text of an operator.
fn operator_str(operator: Operator) -> (tag: &'static str)
    ensures
        tag@ == operator_text(operator),
{
    match operator {
        Operator::Eq => "==",
        Operator::NotEq => "!=",
        Operator::Gt => "=gt=",
        Operator::Ge => "=ge=",
        Operator::Lt => "=lt=",
        Operator::Le => "=le=",
        Operator::Like => "=like=",
        Operator::Starts => "=starts=",
        Operator::Ends => "=ends=",
        Operator::In => "=in=",
        Operator::Out => "=out=",
        Operator::Null => "=null=",
    }
}

/// The first operator whose text stands at `position`.
fn parse_operator(characters: &Vec<char>, position: usize) -> (operator: Option<Operator>)
    requires
        position <= characters@.len(),
    ensures
        operator == operator_at(characters@, position as int),
{
    if tag_matches(characters, position, "==") {
        Some(Operator::Eq)
    } else if tag_matches(characters, position, "!=") {
        Some(Operator::NotEq)
    } else if tag_matches(characters, position, "=gt=") {
        Some(Operator::Gt)
    } else if tag_matches(characters, position, "=ge=") {
        Some(Operator::Ge)
    } else if tag_matches(characters, position, "=lt=") {
        Some(Operator::Lt)
    } else if tag_matches(characters, position, "=le=") {
        Some(Operator::Le)
    } else if tag_matches(characters, position, "=like=") {
        Some(Operator::Like)
    } else if tag_matches(characters, position, "=starts=") {
        Some(Operator::Starts)
    } else if tag_matches(characters, position, "=ends=") {
        Some(Operator::Ends)
    } else if tag_matches(characters, position, "=in=") {
        Some(Operator::In)
    } else if tag_matches(characters, position, "=out=") {
        Some(Operator::Out)
    } else if tag_matches(characters, position, "=null=") {
        Some(Operator::Null)
    } else {
        None
    }
}

/// `( item , item ... )`: the items and the position after `)`.
fn parse_list(characters: &Vec<char>, position: usize) -> (list: Option<(Vec<String>, usize)>)
    requires
        position <= characters@.len(),
    ensures
        match list_at(characters@, position as int) {
            Some((items, end)) => list matches Some((found, after)) && crate::error::texts(found@) == items
                && after as int == end && position < after <= characters@.len(),
            None => list is None,
        },
{
    let length = characters.len();
    if !(position < length && characters[position] == '(') {
        return None;
    }
    let first_end = scan(characters, position + 1, CharClass::Item);
    if first_end == position + 1 {
        return None;
    }
    let mut items: Vec<String> = Vec::new();
    items.push(string_of(characters, position + 1, first_end));
    let ghost first = seq![characters@.subrange(position + 1, first_end as int)];
    proof {
        assert(crate::error::texts(items@) =~= first);
    }
    let mut end = first_end;
    let mut done = false;
    while !done && end < length && characters[end] == ','
        invariant
            first_end <= end <= length,
            length == characters@.len(),
            list_rest(characters@, first_end as int, first) == (if done {
                (crate::error::texts(items@), end as int)
            } else {
                list_rest(characters@, end as int, crate::error::texts(items@))
            }),
        decreases length - end, if done { 0int } else { 1int },
    {
        let item_end = scan(characters, end + 1, CharClass::Item);
        if item_end > end + 1 {
            let ghost before = items@;
            items.push(string_of(characters, end + 1, item_end));
            proof {
                assert(crate::error::texts(items@) =~= crate::error::texts(before).push(
                    characters@.subrange(end + 1, item_end as int),
                ));
            }
            end = item_end;
        } else {
            done = true;
        }
    }
    if end < length && characters[end] == ')' {
        Some((items, end + 1))
    } else {
        None
    }
}

/// The filter values of list items.
fn text_value_list(items: Vec<String>) -> (values: Vec<MasonValue>)
    ensures
        values_view(values@) == text_values(crate::error::texts(items@)),
{
    let mut values: Vec<MasonValue> = Vec::new();
    let mut index: usize = 0;
    while index < items.len()
        invariant
            0 <= index <= items.len(),
            values_view(values@) == text_values(crate::error::texts(items@.take(index as int))),
        decreases items.len() - index,
    {
        let ghost before = values@;
        let value = MasonValue::Text(items[index].clone());
        values.push(value);
        proof {
            assert(values_view(values@) =~= values_view(before).push(ValueView::Text(items@[index as int]@)));
            assert(crate::error::texts(items@.take(index as int + 1)) =~= crate::error::texts(
                items@.take(index as int),
            ).push(items@[index as int]@));
            assert(text_values(crate::error::texts(items@.take(index as int + 1))) =~= text_values(
                crate::error::texts(items@.take(index as int)),
            ).push(ValueView::Text(items@[index as int]@)));
        }
        index = index + 1;
    }
    proof {
        assert(items@.take(items.len() as int) =~= items@);
    }
    values
}

/// The comparison node of an operator with a single argument.
fn single_filter(operator: Operator, column: String, value: String) -> (filter: MasonFilter)
    ensures
        filter@ == single_node(operator, column@, value@),
{
    match operator {
        Operator::Eq => MasonFilter::Eq(column, MasonValue::Text(value)),
        Operator::NotEq => MasonFilter::NotEq(column, MasonValue::Text(value)),
        Operator::Gt => MasonFilter::Gt(column, MasonValue::Text(value)),
        Operator::Ge => MasonFilter::Gte(column, MasonValue::Text(value)),
        Operator::Lt => MasonFilter::Lt(column, MasonValue::Text(value)),
        Operator::Le => MasonFilter::Lte(column, MasonValue::Text(value)),
        Operator::Like => MasonFilter::Like(column, value),
        Operator::Starts => MasonFilter::StartsWith(column, value),
        _ => MasonFilter::EndsWith(column, value),
    }
}

/// `identifier operator argument` at `position`.
fn parse_comparison(characters: &Vec<char>, position: usize) -> (outcome: Outcome)
    requires
        position <= characters@.len(),
    ensures
        outcome_view(outcome) == comparison_at(characters@, position as int),
        outcome matches Outcome::Done(filter, end) ==> position < end <= characters@.len() && well_formed(
            filter@,
        ),
{
    let total = characters.len();
    let name_end = scan(characters, position, CharClass::Identifier);
    if name_end == position {
        return Outcome::Error;
    }
    let column = string_of(characters, position, name_end);
    proof {
        assert forall|i: int| 0 <= i < column@.len() implies identifier_char(#[trigger] column@[i]) by {
            assert(column@[i] == characters@[position + i]);
            assert(in_class(CharClass::Identifier, characters@[position + i]));
        }
    }
    let operator = match parse_operator(characters, name_end) {
        None => return Outcome::Error,
        Some(operator) => operator,
    };
    let tag = operator_str(operator);
    proof {
        assert(tag_at(characters@, name_end as int, tag@));
    }
    let after = name_end + tag.unicode_len();
    match operator {
        Operator::In | Operator::Out => match parse_list(characters, after) {
            Some((items, end)) => {
                let values = text_value_list(items);
                if operator == Operator::In {
                    Outcome::Done(MasonFilter::In(column, values), end)
                } else {
                    Outcome::Done(MasonFilter::NotIn(column, values), end)
                }
            },
            None => Outcome::Error,
        },
        Operator::Null => {
            if tag_matches(characters, after, "true") {
                proof {
                    reveal_strlit("true");
                }
                Outcome::Done(MasonFilter::IsNull(column, true), after + 4)
            } else if tag_matches(characters, after, "false") {
                proof {
                    reveal_strlit("false");
                }
                Outcome::Done(MasonFilter::IsNull(column, false), after + 5)
            } else {
                Outcome::Error
            }
        },
        _ => {
            let value_end = scan(characters, after, CharClass::Value);
            if value_end == after {
                Outcome::Error
            } else {
                let value = string_of(characters, after, value_end);
                Outcome::Done(single_filter(operator, column, value), value_end)
            }
        },
    }
}

/// The junction of the operands read (a single operand stands alone).
fn make_junction(nodes: Vec<MasonFilter>, is_and: bool) -> (filter: MasonFilter)
    requires
        nodes@.len() >= 1,
    ensures
        filter@ == junction(filters_view(nodes@), is_and),
{
    proof {
        crate::mason::read::lemma_filters_view_len(nodes@);
    }
    if nodes.len() == 1 {
        let mut nodes = nodes;
        let node = nodes.pop().unwrap();
        proof {
            assert(nodes@.len() == 0);
        }
        node
    } else if is_and {
        MasonFilter::And(nodes)
    } else {
        MasonFilter::Or(nodes)
    }
}

/// Whether every filter in the list is well formed.
pub open spec fn all_well_formed(filters: Seq<FilterView>) -> bool {
    forall|i: int| 0 <= i < filters.len() ==> well_formed(#[trigger] filters[i])
}

/// The operands of a junction from `position` on (see `operands`).
fn parse_operands(
    characters: &Vec<char>,
    position: usize,
    depth: usize,
    nodes: Vec<MasonFilter>,
    is_and: bool,
) -> (outcome: Outcome)
    requires
        position <= characters@.len(),
        depth <= MAX_NESTING_DEPTH,
        nodes@.len() > 0 ==> position >= 1,
        all_well_formed(filters_view(nodes@)),
    ensures
        outcome_view(outcome) == operands(
            characters@,
            position as int,
            depth as int,
            filters_view(nodes@),
            is_and,
        ),
        outcome matches Outcome::Done(filter, end) ==> end <= characters@.len() && well_formed(filter@) && (
        nodes@.len() == 0 ==> position < end) && (nodes@.len() > 0 ==> position - 1 <= end),
    decreases MAX_NESTING_DEPTH - depth, characters@.len() - position, if is_and {
        2int
    } else {
        4int
    },
{
    proof {
        crate::mason::read::lemma_filters_view_len(nodes@);
    }
    let operand = if is_and {
        parse_primary(characters, position, depth)
    } else {
        let no_nodes: Vec<MasonFilter> = Vec::new();
        proof {
            assert(filters_view(no_nodes@) =~= Seq::<FilterView>::empty());
        }
        parse_operands(characters, position, depth, no_nodes, true)
    };
    let separator = if is_and {
        ';'
    } else {
        ','
    };
    match operand {
        Outcome::Failure => Outcome::Failure,
        Outcome::Error => {
            if nodes.len() == 0 {
                Outcome::Error
            } else {
                let ghost seen = filters_view(nodes@);
                let node = make_junction(nodes, is_and);
                proof {
                    if seen.len() > 1 {
                        assert(well_formed(junction(seen, is_and)));
                    } else {
                        assert(seen[0] == junction(seen, is_and));
                    }
                }
                Outcome::Done(node, position - 1)
            }
        },
        Outcome::Done(node, end) => {
            let ghost before = filters_view(nodes@);
            let ghost old_nodes = nodes@;
            let ghost node_view = node@;
            let mut nodes = nodes;
            nodes.push(node);
            proof {
                assert(nodes@.drop_last() =~= old_nodes);
                assert(filters_view(nodes@) == before.push(node_view));
                assert(all_well_formed(filters_view(nodes@)));
                crate::mason::read::lemma_filters_view_len(nodes@);
            }
            if end < characters.len() && characters[end] == separator {
                parse_operands(characters, end + 1, depth, nodes, is_and)
            } else {
                let ghost seen = filters_view(nodes@);
                let combined = make_junction(nodes, is_and);
                proof {
                    if seen.len() == 1 {
                        assert(seen[0] == junction(seen, is_and));
                    }
                }
                Outcome::Done(combined, end)
            }
        },
    }
}

/// A group or a comparison at `position`.
fn parse_primary(characters: &Vec<char>, position: usize, depth: usize) -> (outcome: Outcome)
    requires
        position <= characters@.len(),
        depth <= MAX_NESTING_DEPTH,
    ensures
        outcome_view(outcome) == primary(characters@, position as int, depth as int),
        outcome matches Outcome::Done(filter, end) ==> position < end <= characters@.len() && well_formed(
            filter@,
        ),
    decreases MAX_NESTING_DEPTH - depth, characters@.len() - position, 1int,
{
    if position < characters.len() && characters[position] == '(' {
        if depth >= MAX_NESTING_DEPTH {
            return Outcome::Failure;
        }
        let no_nodes: Vec<MasonFilter> = Vec::new();
        proof {
            assert(filters_view(no_nodes@) =~= Seq::<FilterView>::empty());
        }
        let inner = parse_operands(characters, position + 1, depth + 1, no_nodes, false);
        match inner {
            Outcome::Done(node, end) => {
                if end < characters.len() && characters[end] == ')' {
                    Outcome::Done(node, end + 1)
                } else {
                    Outcome::Error
                }
            },
            Outcome::Error => Outcome::Error,
            Outcome::Failure => Outcome::Failure,
        }
    } else {
        parse_comparison(characters, position)
    }
}

/// What parsing a filter gives: the filter, or the message of the validation error.
pub open spec fn filter_outcome(input: Seq<char>) -> Result<FilterView, Seq<char>> {
    let text = trimmed(input);
    if text.len() == 0 {
        Err("RSQL expression is empty"@)
    } else {
        match or_at(text, 0, 0) {
            Parsed::Done(node, end) => if end == text.len() {
                Ok(node)
            } else {
                Err("unexpected trailing input in RSQL expression: '"@ + text.subrange(end, text.len() as int) + "'"@)
            },
            _ => Err("invalid RSQL expression: '"@ + text + "'"@),
        }
    }
}

// ── sort ───────────────────────────────────────────────────────────────────

/// The pieces of `text` between commas (one more than there are commas).
pub open spec fn comma_pieces(text: Seq<char>) -> Seq<Seq<char>>
    decreases text.len(),
{
    if text.len() == 0 {
        seq![Seq::empty()]
    } else {
        let earlier = comma_pieces(text.drop_last());
        if text.last() == ',' {
            earlier.push(Seq::empty())
        } else {
            earlier.update(earlier.len() - 1, earlier.last().push(text.last()))
        }
    }
}

/// A sort entry: `-column` sorts descending, `+column` or `column` ascending.
pub open spec fn sort_clause(entry: Seq<char>) -> (Seq<char>, MasonDirection) {
    if entry[0] == '-' {
        (trimmed(entry.drop_first()), MasonDirection::Desc)
    } else if entry[0] == '+' {
        (trimmed(entry.drop_first()), MasonDirection::Asc)
    } else {
        (entry, MasonDirection::Asc)
    }
}

/// The sort clauses of `text`: each comma-separated entry, trimmed, blank
/// entries skipped.
pub open spec fn sort_clauses(text: Seq<char>) -> Seq<(Seq<char>, MasonDirection)> {
    comma_pieces(text).map_values(trim_each()).filter(is_nonblank()).map_values(clause_of())
}

/// `trimmed` as a function value.
pub open spec fn trim_each() -> spec_fn(Seq<char>) -> Seq<char> {
    |piece: Seq<char>| trimmed(piece)
}

/// "The entry is not empty."
pub open spec fn is_nonblank() -> spec_fn(Seq<char>) -> bool {
    |entry: Seq<char>| entry.len() > 0
}

/// `sort_clause` as a function value.
pub open spec fn clause_of() -> spec_fn(Seq<char>) -> (Seq<char>, MasonDirection) {
    |entry: Seq<char>| sort_clause(entry)
}

/// Every piece of a comma split has at least one entry.
proof fn lemma_comma_pieces_len(text: Seq<char>)
    ensures
        comma_pieces(text).len() >= 1,
    decreases text.len(),
{
    if text.len() > 0 {
        lemma_comma_pieces_len(text.drop_last());
    }
}

/// Parses RSQL filter and sort expressions.
#[derive(Debug)]
pub struct RsqlQueryParser;

impl RsqlQueryParser {
    /// Parses a filter expression into a filter tree. A blank expression, one
    /// that does not parse and one with input left over are validation errors.
    pub fn parse_filter(&self, input: &str) -> (outcome: Result<MasonFilter, LaxError>)
        ensures
            match filter_outcome(input@) {
                Ok(filter) => outcome matches Ok(parsed) && parsed@ == filter,
                Err(message) => outcome matches Err(error) && error@ == LaxErrorView::Validation(message),
            },
            outcome matches Ok(parsed) ==> well_formed(parsed@),
    {
        let text = trim(input);
        let characters = chars_of(text);
        if characters.len() == 0 {
            return Err(ApplicationError::validation(owned("RSQL expression is empty")));
        }
        let no_nodes: Vec<MasonFilter> = Vec::new();
        proof {
            assert(filters_view(no_nodes@) =~= Seq::<FilterView>::empty());
        }
        match parse_operands(&characters, 0, 0, no_nodes, false) {
            Outcome::Done(node, end) => {
                if end == characters.len() {
                    Ok(node)
                } else {
                    let rest = string_of(&characters, end, characters.len());
                    Err(
                        ApplicationError::validation(
                            joined3("unexpected trailing input in RSQL expression: '", rest.as_str(), "'"),
                        ),
                    )
                }
            },
            _ => Err(ApplicationError::validation(joined3("invalid RSQL expression: '", text, "'"))),
        }
    }

    /// Parses a comma-separated sort expression; it never fails.
    pub fn parse_sort(&self, input: &str) -> (outcome: Result<Vec<MasonSort>, LaxError>)
        ensures
            outcome matches Ok(clauses) && sorts_view(clauses@) == sort_clauses(input@),
    {
        let characters = chars_of(input);
        let mut clauses: Vec<MasonSort> = Vec::new();
        let mut piece = String::new();
        let mut index: usize = 0;
        let ghost keep = is_nonblank();
        let ghost trim_piece = trim_each();
        let ghost to_clause = clause_of();
        proof {
            lemma_comma_pieces_len(characters@.take(0));
            assert(characters@.take(0) =~= Seq::<char>::empty());
        }
        while index < characters.len()
            invariant
                0 <= index <= characters.len(),
                characters@ == input@,
                keep == is_nonblank(),
                trim_piece == trim_each(),
                to_clause == clause_of(),
                comma_pieces(characters@.take(index as int)).len() >= 1,
                piece@ == comma_pieces(characters@.take(index as int)).last(),
                sorts_view(clauses@) == comma_pieces(characters@.take(index as int)).drop_last().map_values(
                    trim_piece,
                ).filter(keep).map_values(to_clause),
            decreases characters.len() - index,
        {
            let ghost pieces = comma_pieces(characters@.take(index as int));
            proof {
                assert(characters@.take(index as int + 1).drop_last() =~= characters@.take(index as int));
                assert(characters@.take(index as int + 1).last() == characters@[index as int]);
            }
            if characters[index] == ',' {
                let ghost finished = piece@;
                let ghost before = sorts_view(clauses@);
                let entry = trim(piece.as_str());
                if entry.unicode_len() > 0 {
                    let first = entry.get_char(0);
                    let length = entry.unicode_len();
                    let clause = if first == '-' {
                        MasonSort { column: owned(trim(entry.substring_char(1, length))), direction: MasonDirection::Desc }
                    } else if first == '+' {
                        MasonSort { column: owned(trim(entry.substring_char(1, length))), direction: MasonDirection::Asc }
                    } else {
                        MasonSort { column: owned(entry), direction: MasonDirection::Asc }
                    };
                    proof {
                        assert(entry@.drop_first() =~= entry@.subrange(1, length as int));
                        assert((clause.column@, clause.direction) == sort_clause(entry@));
                    }
                    clauses.push(clause);
                    proof {
                        assert(sorts_view(clauses@) =~= before.push(sort_clause(entry@)));
                    }
                }
                proof {
                    let next = comma_pieces(characters@.take(index as int + 1));
                    assert(next == pieces.push(Seq::empty()));
                    assert(next.drop_last() =~= pieces);
                    assert(pieces =~= pieces.drop_last().push(finished));
                    let mapped_before = pieces.drop_last().map_values(trim_piece);
                    assert(pieces.map_values(trim_piece) =~= mapped_before.push(trimmed(finished)));
                    assert(mapped_before.push(trimmed(finished)).drop_last() =~= mapped_before);
                    mapped_before.lemma_filter_push(trimmed(finished), keep);
                    if keep(trimmed(finished)) {
                        assert(mapped_before.push(trimmed(finished)).filter(keep) =~= mapped_before.filter(keep).push(
                            trimmed(finished),
                        ));
                    } else {
                        assert(mapped_before.push(trimmed(finished)).filter(keep) =~= mapped_before.filter(keep));
                    }
                    assert(sorts_view(clauses@) =~= next.drop_last().map_values(trim_piece).filter(keep).map_values(
                        to_clause,
                    ));
                }
                piece = String::new();
            } else {
                crate::text::push_char(&mut piece, characters[index]);
                proof {
                    let next = comma_pieces(characters@.take(index as int + 1));
                    assert(next == pieces.update(pieces.len() - 1, pieces.last().push(characters@[index as int])));
                    assert(next.drop_last() =~= pieces.drop_last());
                }
            }
            index = index + 1;
        }
        proof {
            assert(characters@.take(characters.len() as int) =~= characters@);
        }
        let ghost pieces = comma_pieces(characters@);
        let ghost finished = piece@;
        let ghost before = sorts_view(clauses@);
        let entry = trim(piece.as_str());
        if entry.unicode_len() > 0 {
            let first = entry.get_char(0);
            let length = entry.unicode_len();
            let clause = if first == '-' {
                MasonSort { column: owned(trim(entry.substring_char(1, length))), direction: MasonDirection::Desc }
            } else if first == '+' {
                MasonSort { column: owned(trim(entry.substring_char(1, length))), direction: MasonDirection::Asc }
            } else {
                MasonSort { column: owned(entry), direction: MasonDirection::Asc }
            };
            proof {
                assert(entry@.drop_first() =~= entry@.subrange(1, length as int));
                assert((clause.column@, clause.direction) == sort_clause(entry@));
            }
            clauses.push(clause);
            proof {
                assert(sorts_view(clauses@) =~= before.push(sort_clause(entry@)));
            }
        }
        proof {
            assert(pieces =~= pieces.drop_last().push(finished));
            let mapped_before = pieces.drop_last().map_values(trim_piece);
            assert(pieces.map_values(trim_piece) =~= mapped_before.push(trimmed(finished)));
            assert(mapped_before.push(trimmed(finished)).drop_last() =~= mapped_before);
            mapped_before.lemma_filter_push(trimmed(finished), keep);
            if keep(trimmed(finished)) {
                assert(mapped_before.push(trimmed(finished)).filter(keep) =~= mapped_before.filter(keep).push(
                    trimmed(finished),
                ));
            } else {
                assert(mapped_before.push(trimmed(finished)).filter(keep) =~= mapped_before.filter(keep));
            }
            assert(sorts_view(clauses@) =~= sort_clauses(input@));
        }
        Ok(clauses)
    }
}

// ── the nesting cap ────────────────────────────────────────────────────────

/// A group opened at depth `depth` inside a run of `(` that reaches past the
/// cap fails.
proof fn lemma_groups_fail(input: Seq<char>, depth: int)
    requires
        0 <= depth <= MAX_NESTING_DEPTH,
        input.len() > MAX_NESTING_DEPTH,
        forall|i: int| 0 <= i <= MAX_NESTING_DEPTH ==> input[i] == '(',
    ensures
        primary(input, depth, depth) is Failure,
    decreases MAX_NESTING_DEPTH - depth,
{
    if depth < MAX_NESTING_DEPTH {
        lemma_groups_fail(input, depth + 1);
        assert(operands(input, depth + 1, depth + 1, Seq::empty(), true) is Failure);
        assert(operands(input, depth + 1, depth + 1, Seq::empty(), false) is Failure);
    }
}

/// Parenthesised groups nest at most `MAX_NESTING_DEPTH` deep: a filter that
/// opens more groups than that fails as an invalid expression, whatever follows.
pub proof fn lemma_nesting_cap(input: Seq<char>)
    requires
        trimmed(input).len() > MAX_NESTING_DEPTH,
        forall|i: int| 0 <= i <= MAX_NESTING_DEPTH ==> trimmed(input)[i] == '(',
    ensures
        filter_outcome(input) == Err::<FilterView, Seq<char>>(
            "invalid RSQL expression: '"@ + trimmed(input) + "'"@,
        ),
{
    let text = trimmed(input);
    lemma_groups_fail(text, 0);
    assert(operands(text, 0, 0, Seq::empty(), true) is Failure);
    assert(or_at(text, 0, 0) is Failure);
}

} // verus!
