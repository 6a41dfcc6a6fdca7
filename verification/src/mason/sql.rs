//! SQL statements as a sequence of text pieces and bound parameters, and the
//! primitives every emitter shares: identifier quoting, identifier lists and
//! value binding with the casts Postgres needs.

use vstd::prelude::*;

use crate::mason::value::{MasonValue, ValueView};
use crate::text::push_char;

verus! {

/// A bound parameter.
#[derive(Debug)]
pub enum SqlArg {
    Value(MasonValue),
    Uuid(u128),
    BigInt(i64),
    Text(String),
}

/// `SqlArg` with its strings read as characters.
pub enum ArgView {
    Value(ValueView),
    Uuid(u128),
    BigInt(i64),
    Text(Seq<char>),
}

impl View for SqlArg {
    type V = ArgView;

    open spec fn view(&self) -> ArgView {
        match self {
            SqlArg::Value(value) => ArgView::Value(value@),
            SqlArg::Uuid(id) => ArgView::Uuid(*id),
            SqlArg::BigInt(number) => ArgView::BigInt(*number),
            SqlArg::Text(text) => ArgView::Text(text@),
        }
    }
}

/// One piece of a statement: literal SQL text, a bound parameter (`$n`), or
/// a parameter bound earlier referred to again: `Again(k)` stands for the
/// placeholder of the statement's bound parameter at ordinal `k` (from 0).
#[derive(Debug)]
pub enum SqlPiece {
    Text(String),
    Bind(SqlArg),
    Again(usize),
}

/// `SqlPiece` read as characters and argument views.
pub enum PieceView {
    Text(Seq<char>),
    Bind(ArgView),
    Again(nat),
}

impl View for SqlPiece {
    type V = PieceView;

    open spec fn view(&self) -> PieceView {
        match self {
            SqlPiece::Text(text) => PieceView::Text(text@),
            SqlPiece::Bind(arg) => PieceView::Bind(arg@),
            SqlPiece::Again(ordinal) => PieceView::Again(*ordinal as nat),
        }
    }
}

/// A statement under construction, in the order its pieces were pushed.
#[derive(Debug)]
pub struct SqlStatement {
    pub pieces: Vec<SqlPiece>,
}

/// The pieces of a statement, read as views.
pub open spec fn pieces_view(pieces: Seq<SqlPiece>) -> Seq<PieceView> {
    pieces.map_values(|piece: SqlPiece| piece@)
}

impl View for SqlStatement {
    type V = Seq<PieceView>;

    open spec fn view(&self) -> Seq<PieceView> {
        pieces_view(self.pieces@)
    }
}

/// A literal text piece.
pub open spec fn text(literal: Seq<char>) -> PieceView {
    PieceView::Text(literal)
}

/// A bound parameter piece.
pub open spec fn bind(arg: ArgView) -> PieceView {
    PieceView::Bind(arg)
}

/// A piece that refers again to the bound parameter at `ordinal`.
pub open spec fn again(ordinal: nat) -> PieceView {
    PieceView::Again(ordinal)
}

/// How many parameters the pieces bind.
pub open spec fn bind_count(pieces: Seq<PieceView>) -> nat
    decreases pieces.len(),
{
    if pieces.len() == 0 {
        0
    } else {
        bind_count(pieces.drop_last()) + if pieces.last() is Bind {
            1nat
        } else {
            0nat
        }
    }
}

/// The parameters of two runs of pieces add up.
pub proof fn lemma_bind_count_concat(front: Seq<PieceView>, back: Seq<PieceView>)
    ensures
        bind_count(front + back) == bind_count(front) + bind_count(back),
    decreases back.len(),
{
    if back.len() == 0 {
        assert(front + back =~= front);
    } else {
        assert((front + back).drop_last() =~= front + back.drop_last());
        lemma_bind_count_concat(front, back.drop_last());
    }
}

/// The views of a list of statements.
pub open spec fn statements_view(statements: Seq<SqlStatement>) -> Seq<Seq<PieceView>> {
    statements.map_values(|statement: SqlStatement| statement@)
}

impl SqlStatement {
    /// A statement that starts with `literal`.
    pub fn new(literal: &str) -> (statement: SqlStatement)
        ensures
            statement@ == seq![text(literal@)],
    {
        let mut pieces: Vec<SqlPiece> = Vec::new();
        pieces.push(SqlPiece::Text(String::from_str(literal)));
        let statement = SqlStatement { pieces };
        proof {
            assert(statement@ =~= seq![text(literal@)]);
        }
        statement
    }

    /// Appends literal SQL text.
    pub fn push(&mut self, literal: &str)
        ensures
            final(self)@ == old(self)@.push(text(literal@)),
    {
        self.push_text(String::from_str(literal));
    }

    /// Appends literal SQL text held in a `String`.
    pub fn push_text(&mut self, literal: String)
        ensures
            final(self)@ == old(self)@.push(text(literal@)),
    {
        let ghost before = self.pieces@;
        self.pieces.push(SqlPiece::Text(literal));
        proof {
            assert(pieces_view(before.push(SqlPiece::Text(literal))) =~= pieces_view(before).push(
                text(literal@),
            ));
        }
    }

    /// Appends a bound parameter.
    pub fn push_bind(&mut self, arg: SqlArg)
        ensures
            final(self)@ == old(self)@.push(bind(arg@)),
    {
        let ghost before = self.pieces@;
        let ghost arg_view = arg@;
        self.pieces.push(SqlPiece::Bind(arg));
        proof {
            assert(pieces_view(self.pieces@) =~= pieces_view(before).push(bind(arg_view)));
        }
    }

    /// Appends a reference to the parameter bound at `ordinal`.
    pub fn push_again(&mut self, ordinal: usize)
        ensures
            final(self)@ == old(self)@.push(again(ordinal as nat)),
    {
        let ghost before = self.pieces@;
        self.pieces.push(SqlPiece::Again(ordinal));
        proof {
            assert(pieces_view(self.pieces@) =~= pieces_view(before).push(again(ordinal as nat)));
        }
    }

    /// How many parameters the statement binds so far.
    pub fn bind_total(&self) -> (count: usize)
        ensures
            count == bind_count(self@),
    {
        let mut count: usize = 0;
        let mut index: usize = 0;
        while index < self.pieces.len()
            invariant
                0 <= index <= self.pieces.len(),
                count <= index,
                count == bind_count(self@.take(index as int)),
            decreases self.pieces.len() - index,
        {
            proof {
                assert(self@.take(index as int + 1).drop_last() =~= self@.take(index as int));
                assert(self@[index as int] == self.pieces@[index as int]@);
            }
            if let SqlPiece::Bind(_) = &self.pieces[index] {
                count = count + 1;
            }
            index = index + 1;
        }
        proof {
            assert(self@.take(self.pieces.len() as int) =~= self@);
        }
        count
    }
}

// ── identifiers ────────────────────────────────────────────────────────────

/// The characters of an identifier with every `"` doubled.
pub open spec fn escaped(name: Seq<char>) -> Seq<char>
    decreases name.len(),
{
    if name.len() == 0 {
        Seq::empty()
    } else {
        let head = if name[0] == '"' {
            seq!['"', '"']
        } else {
            seq![name[0]]
        };
        head + escaped(name.drop_first())
    }
}

/// A Postgres quoted identifier: `"` + the name with `"` doubled + `"`.
pub open spec fn quoted(name: Seq<char>) -> Seq<char> {
    seq!['"'] + escaped(name) + seq!['"']
}

/// Reads back the characters of an escaped identifier: `""` is one `"`.
pub open spec fn unescaped(escaped_text: Seq<char>) -> Seq<char>
    decreases escaped_text.len(),
{
    if escaped_text.len() == 0 {
        Seq::empty()
    } else if escaped_text[0] == '"' && escaped_text.len() >= 2 && escaped_text[1] == '"' {
        seq!['"'] + unescaped(escaped_text.skip(2))
    } else {
        seq![escaped_text[0]] + unescaped(escaped_text.drop_first())
    }
}

/// Escaping one character after another escapes each in turn.
pub proof fn lemma_escaped_append(front: Seq<char>, back: Seq<char>)
    ensures
        escaped(front + back) == escaped(front) + escaped(back),
    decreases front.len(),
{
    if front.len() == 0 {
        assert(front + back =~= back);
        assert(escaped(front) + escaped(back) =~= escaped(back));
    } else {
        assert((front + back).drop_first() =~= front.drop_first() + back);
        lemma_escaped_append(front.drop_first(), back);
        assert(escaped(front + back) =~= escaped(front) + escaped(back));
    }
}

/// Unescaping undoes escaping.
pub proof fn lemma_unescape_escaped(name: Seq<char>)
    ensures
        unescaped(escaped(name)) == name,
    decreases name.len(),
{
    if name.len() > 0 {
        lemma_unescape_escaped(name.drop_first());
        let rest = escaped(name.drop_first());
        if name[0] == '"' {
            assert((seq!['"', '"'] + rest).skip(2) =~= rest);
            assert(seq!['"'] + name.drop_first() =~= name);
        } else {
            assert((seq![name[0]] + rest).drop_first() =~= rest);
            assert(seq![name[0]] + name.drop_first() =~= name);
        }
    }
}

/// Quoting never sends two different identifiers to the same text, so a
/// quoted name always refers to the column that was asked for.
pub proof fn lemma_quoted_injective(left: Seq<char>, right: Seq<char>)
    requires
        quoted(left) == quoted(right),
    ensures
        left == right,
{
    let left_inner = quoted(left).subrange(1, quoted(left).len() - 1);
    let right_inner = quoted(right).subrange(1, quoted(right).len() - 1);
    assert(left_inner =~= escaped(left));
    assert(right_inner =~= escaped(right));
    lemma_unescape_escaped(left);
    lemma_unescape_escaped(right);
}

/// Postgres identifier quoting: doubles embedded `"` per the SQL standard.
pub fn quote_ident(name: &str) -> (quoted_name: String)
    ensures
        quoted_name@ == quoted(name@),
{
    let length = name.unicode_len();
    let mut result = String::new();
    push_char(&mut result, '"');
    let mut index: usize = 0;
    while index < length
        invariant
            0 <= index <= length,
            length == name@.len(),
            result@ == seq!['"'] + escaped(name@.take(index as int)),
        decreases length - index,
    {
        let character = name.get_char(index);
        proof {
            assert(name@.take(index as int + 1) =~= name@.take(index as int) + seq![character]);
            lemma_escaped_append(name@.take(index as int), seq![character]);
            assert(seq![character].drop_first() =~= Seq::<char>::empty());
            assert(escaped(Seq::<char>::empty()) == Seq::<char>::empty());
            if character == '"' {
                assert(escaped(seq![character]) =~= seq!['"', '"']);
            } else {
                assert(escaped(seq![character]) =~= seq![character]);
            }
        }
        if character == '"' {
            push_char(&mut result, '"');
            push_char(&mut result, '"');
        } else {
            push_char(&mut result, character);
        }
        index = index + 1;
        proof {
            assert(result@ =~= seq!['"'] + escaped(name@.take(index as int)));
        }
    }
    push_char(&mut result, '"');
    proof {
        assert(name@.take(length as int) =~= name@);
        assert(result@ =~= quoted(name@));
    }
    result
}

/// `parts` one after another with `separator` between each two.
pub open spec fn joined_pieces(separator: Seq<char>, parts: Seq<Seq<PieceView>>) -> Seq<PieceView>
    decreases parts.len(),
{
    if parts.len() == 0 {
        Seq::empty()
    } else if parts.len() == 1 {
        parts[0]
    } else {
        joined_pieces(separator, parts.drop_last()).push(text(separator)) + parts.last()
    }
}

/// One step of `joined_pieces` over a growing prefix.
pub proof fn lemma_joined_step(separator: Seq<char>, parts: Seq<Seq<PieceView>>, index: int)
    requires
        0 <= index < parts.len(),
    ensures
        joined_pieces(separator, parts.take(index + 1)) == if index == 0 {
            parts[0]
        } else {
            joined_pieces(separator, parts.take(index)).push(text(separator)) + parts[index]
        },
{
    assert(parts.take(index + 1).drop_last() =~= parts.take(index));
    if index == 0 {
        assert(parts.take(1)[0] == parts[0]);
    }
}

/// The quoted-identifier piece of each name.
pub open spec fn ident_parts(names: Seq<Seq<char>>) -> Seq<Seq<PieceView>> {
    names.map_values(|name: Seq<char>| seq![text(quoted(name))])
}

/// A comma-separated list of quoted identifiers.
pub open spec fn ident_list(names: Seq<Seq<char>>) -> Seq<PieceView> {
    joined_pieces(", "@, ident_parts(names))
}

/// Pushes a comma-separated list of quoted identifiers.
pub fn push_ident_list(builder: &mut SqlStatement, names: &Vec<String>)
    ensures
        final(builder)@ == old(builder)@ + ident_list(crate::error::texts(names@)),
{
    let ghost start = builder@;
    let ghost parts = ident_parts(crate::error::texts(names@));
    let mut index: usize = 0;
    while index < names.len()
        invariant
            0 <= index <= names.len(),
            parts == ident_parts(crate::error::texts(names@)),
            parts.len() == names.len(),
            builder@ == start + joined_pieces(", "@, parts.take(index as int)),
        decreases names.len() - index,
    {
        proof {
            lemma_joined_step(", "@, parts, index as int);
            assert(parts[index as int] == seq![text(quoted(names@[index as int]@))]);
        }
        if index > 0 {
            builder.push(", ");
        }
        builder.push_text(quote_ident(names[index].as_str()));
        index = index + 1;
        proof {
            assert(builder@ =~= start + joined_pieces(", "@, parts.take(index as int)));
        }
    }
    proof {
        assert(parts.take(names.len() as int) =~= parts);
    }
}

// ── binding ────────────────────────────────────────────────────────────────

/// The cast Postgres needs to accept a text-typed parameter of this variant.
pub open spec fn value_cast(value: ValueView) -> Seq<PieceView> {
    match value {
        ValueView::Uuid(_) => seq![text("::uuid"@)],
        ValueView::Json(_) => seq![text("::jsonb"@)],
        ValueView::TextArray(_) => seq![text("::text[]"@)],
        ValueView::Timestamp(_) => seq![text("::timestamptz"@)],
        _ => Seq::empty(),
    }
}

/// How a value is bound: `NULL` literally, otherwise the parameter, the
/// variant's cast and the enum cast when the column is an enum.
pub open spec fn bound_value(value: ValueView, enum_name: Option<Seq<char>>) -> Seq<PieceView> {
    if value is Null {
        seq![text("NULL"@)]
    } else {
        let enum_cast = match enum_name {
            Some(name) => seq![text("::"@), text(quoted(name))],
            None => Seq::empty(),
        };
        seq![bind(ArgView::Value(value))] + value_cast(value) + enum_cast
    }
}

/// Binds a value, emitting `NULL` literally for `Null` and attaching the casts
/// Postgres needs to accept the bound parameter, then the enum cast if any.
pub fn bind_with_enum_cast(builder: &mut SqlStatement, value: &MasonValue, enum_name: Option<&String>)
    ensures
        final(builder)@ == old(builder)@ + bound_value(
            value@,
            match enum_name {
                Some(name) => Some(name@),
                None => None,
            },
        ),
{
    if let MasonValue::Null = value {
        builder.push("NULL");
        return;
    }
    let ghost start = builder@;
    builder.push_bind(SqlArg::Value(value.clone()));
    match value {
        MasonValue::Uuid(_) => {
            builder.push("::uuid");
        },
        MasonValue::Json(_) => {
            builder.push("::jsonb");
        },
        MasonValue::TextArray(_) => {
            builder.push("::text[]");
        },
        MasonValue::Timestamp(_) => {
            builder.push("::timestamptz");
        },
        _ => {},
    }
    proof {
        assert(builder@ =~= start + seq![bind(ArgView::Value(value@))] + value_cast(value@));
    }
    let ghost middle = builder@;
    if let Some(enum_type) = enum_name {
        builder.push("::");
        builder.push_text(quote_ident(enum_type.as_str()));
    }
    proof {
        assert(builder@ =~= start + bound_value(
            value@,
            match enum_name {
                Some(name) => Some(name@),
                None => None,
            },
        ));
    }
}

} // verus!
