//! The archive writer: stores a batch of events and advances the consumer's
//! checkpoint, in one transaction.

use vstd::prelude::*;

use crate::mason::sql::{
    ArgView, PieceView, SqlArg, SqlStatement, bind, joined_pieces, lemma_joined_step, statements_view, text,
};
use crate::mason::value::{MasonValue, ValueView};

verus! {

/// One stored event.
#[derive(Debug)]
pub struct LaxEvent {
    pub event_id: u128,
    pub aggregate_version: u64,
    pub aggregate_id: u128,
    pub aggregate_type: String,
    pub schema_version: u64,
    pub event_type: String,
    /// The event's payload, as JSON.
    pub event_data: serde_json::Value,
    /// Who caused the event, as JSON.
    pub provenance: serde_json::Value,
    pub idempotency_key: String,
    /// Microseconds since the Unix epoch.
    pub occurred_at: i64,
}

/// The head of the archive insert.
pub const EVENTS_INSERT: &'static str = "INSERT INTO \"arcv_events\" (\"event_id\", \"aggregate_version\", \"aggregate_id\", \"aggregate_type\", \"schema_version\", \"event_type\", \"event_data\", \"provenance\", \"idempotency_key\", \"occurred_at\") ";

/// The tail of the archive insert: an archived event is never stored twice.
pub const EVENTS_CONFLICT: &'static str = " ON CONFLICT (\"event_id\") DO NOTHING";

/// The head of the checkpoint upsert.
pub const CHECKPOINT_UPSERT: &'static str = "INSERT INTO \"syst_consumer_checkpoints\" (\"consumer_name\", \"last_sequence\", \"updated_at\") VALUES (";

/// The conflict clause of the checkpoint upsert: the checkpoint only moves forward.
pub const CHECKPOINT_CONFLICT: &'static str = ") ON CONFLICT (\"consumer_name\") DO UPDATE SET \"last_sequence\" = EXCLUDED.\"last_sequence\", \"updated_at\" = EXCLUDED.\"updated_at\" WHERE \"syst_consumer_checkpoints\".\"last_sequence\" < ";

/// The parameters of one event's row, in column order.
pub open spec fn event_args(event: LaxEvent) -> Seq<ArgView> {
    seq![
        ArgView::Uuid(event.event_id),
        ArgView::BigInt(event.aggregate_version as i64),
        ArgView::Uuid(event.aggregate_id),
        ArgView::Text(event.aggregate_type@),
        ArgView::BigInt(event.schema_version as i64),
        ArgView::Text(event.event_type@),
        ArgView::Value(ValueView::Json(event.event_data)),
        ArgView::Value(ValueView::Json(event.provenance)),
        ArgView::Text(event.idempotency_key@),
        ArgView::Value(ValueView::Timestamp(event.occurred_at)),
    ]
}

/// The parameters as pieces.
pub open spec fn arg_parts(args: Seq<ArgView>) -> Seq<Seq<PieceView>> {
    args.map_values(|arg: ArgView| seq![bind(arg)])
}

/// `(p1, p2, ...)` of one event.
pub open spec fn event_tuple(event: LaxEvent) -> Seq<PieceView> {
    seq![text("("@)] + joined_pieces(", "@, arg_parts(event_args(event))) + seq![text(")"@)]
}

/// The tuple of each event.
pub open spec fn tuple_parts(events: Seq<LaxEvent>) -> Seq<Seq<PieceView>> {
    events.map_values(|event: LaxEvent| event_tuple(event))
}

/// `INSERT INTO "arcv_events" (...) VALUES (...), (...) ON CONFLICT ("event_id") DO NOTHING`.
pub open spec fn events_insert_sql(events: Seq<LaxEvent>) -> Seq<PieceView> {
    seq![text(EVENTS_INSERT@), text("VALUES "@)] + joined_pieces(", "@, tuple_parts(events)) + seq![
        text(EVENTS_CONFLICT@),
    ]
}

/// The upsert that moves the consumer's checkpoint forward.
pub open spec fn checkpoint_sql(consumer: Seq<char>, checkpoint: u64, now: i64) -> Seq<PieceView> {
    seq![
        text(CHECKPOINT_UPSERT@),
        bind(ArgView::Text(consumer)),
        text(", "@),
        bind(ArgView::BigInt(checkpoint as i64)),
        text(", "@),
        bind(ArgView::Value(ValueView::Timestamp(now))),
        text(CHECKPOINT_CONFLICT@),
        bind(ArgView::BigInt(checkpoint as i64)),
    ]
}

/// The columns of the archive insert, in the order its head lists them.
pub open spec fn archive_columns() -> Seq<Seq<char>> {
    seq![
        "event_id"@,
        "aggregate_version"@,
        "aggregate_id"@,
        "aggregate_type"@,
        "schema_version"@,
        "event_type"@,
        "event_data"@,
        "provenance"@,
        "idempotency_key"@,
        "occurred_at"@,
    ]
}

/// Double-quoted names separated by `, `.
pub open spec fn column_list_text(names: Seq<Seq<char>>) -> Seq<char>
    decreases names.len(),
{
    if names.len() == 0 {
        Seq::empty()
    } else if names.len() == 1 {
        "\""@ + names[0] + "\""@
    } else {
        column_list_text(names.drop_last()) + ", \""@ + names.last() + "\""@
    }
}

/// What an event stores in the archive column named `column`.
pub open spec fn event_column_value(event: LaxEvent, column: Seq<char>) -> Option<ArgView> {
    if column == "event_id"@ {
        Some(ArgView::Uuid(event.event_id))
    } else if column == "aggregate_version"@ {
        Some(ArgView::BigInt(event.aggregate_version as i64))
    } else if column == "aggregate_id"@ {
        Some(ArgView::Uuid(event.aggregate_id))
    } else if column == "aggregate_type"@ {
        Some(ArgView::Text(event.aggregate_type@))
    } else if column == "schema_version"@ {
        Some(ArgView::BigInt(event.schema_version as i64))
    } else if column == "event_type"@ {
        Some(ArgView::Text(event.event_type@))
    } else if column == "event_data"@ {
        Some(ArgView::Value(ValueView::Json(event.event_data)))
    } else if column == "provenance"@ {
        Some(ArgView::Value(ValueView::Json(event.provenance)))
    } else if column == "idempotency_key"@ {
        Some(ArgView::Text(event.idempotency_key@))
    } else if column == "occurred_at"@ {
        Some(ArgView::Value(ValueView::Timestamp(event.occurred_at)))
    } else {
        None
    }
}

/// Parts of one piece each, joined: the parts at the even positions, the
/// separator between them.
proof fn lemma_joined_single_pieces(separator: Seq<char>, parts: Seq<Seq<PieceView>>)
    requires
        forall|k: int| 0 <= k < parts.len() ==> (#[trigger] parts[k]).len() == 1,
    ensures
        parts.len() > 0 ==> joined_pieces(separator, parts).len() == 2 * parts.len() - 1,
        forall|k: int| 0 <= k < parts.len() ==> joined_pieces(separator, parts)[2 * k] == (#[trigger] parts[k])[0],
    decreases parts.len(),
{
    if parts.len() > 1 {
        let front = parts.drop_last();
        assert forall|k: int| 0 <= k < front.len() implies (#[trigger] front[k]).len() == 1 by {
            assert(front[k] == parts[k]);
        }
        lemma_joined_single_pieces(separator, front);
        assert forall|k: int| 0 <= k < parts.len() implies joined_pieces(separator, parts)[2 * k] == (
        #[trigger] parts[k])[0] by {
            if k < front.len() {
                assert(front[k] == parts[k]);
            }
        }
    }
}

/// Each event's row binds, at the position of each column its head lists, the
/// event's value for that column: the k-th bound parameter of the row goes to
/// the k-th listed column, so the payload lands in `event_data` and the
/// provenance in `provenance`.
pub proof fn lemma_event_row_matches_columns(event: LaxEvent)
    ensures
        EVENTS_INSERT@ == "INSERT INTO \"arcv_events\" ("@ + column_list_text(archive_columns()) + ") "@,
        event_tuple(event).len() == 2 * archive_columns().len() + 1,
        forall|k: int|
            0 <= k < archive_columns().len() ==> event_column_value(event, #[trigger] archive_columns()[k])
                == Some(event_tuple(event)[2 * k + 1]->Bind_0),
        forall|k: int| 0 <= k < archive_columns().len() ==> (#[trigger] event_tuple(event)[2 * k + 1]) is Bind,
{
    reveal_strlit("event_id");
    reveal_strlit("aggregate_version");
    reveal_strlit("aggregate_id");
    reveal_strlit("aggregate_type");
    reveal_strlit("schema_version");
    reveal_strlit("event_type");
    reveal_strlit("event_data");
    reveal_strlit("provenance");
    reveal_strlit("idempotency_key");
    reveal_strlit("occurred_at");
    let parts = arg_parts(event_args(event));
    assert forall|k: int| 0 <= k < parts.len() implies (#[trigger] parts[k]).len() == 1 by {}
    lemma_joined_single_pieces(", "@, parts);
    let joined = joined_pieces(", "@, parts);
    let tuple = event_tuple(event);
    assert forall|k: int| 0 <= k < 10 implies tuple[2 * k + 1] == bind(event_args(event)[k]) by {
        assert(tuple[2 * k + 1] == joined[2 * k]);
        assert(parts[k] == seq![bind(event_args(event)[k])]);
    }
    let columns = archive_columns();
    assert(columns[0][0] == 'e' && columns[1][0] == 'a' && columns[4][0] == 's' && columns[7][0] == 'p');
    assert(columns[5][6] == 't' && columns[6][6] == 'd');
    assert(columns[0].len() == 8 && columns[1].len() == 17 && columns[2].len() == 12 && columns[3].len() == 14);
    assert(columns[4].len() == 14 && columns[5].len() == 10 && columns[6].len() == 10 && columns[7].len() == 10);
    assert(columns[8].len() == 15 && columns[9].len() == 11);
    assert(event_column_value(event, columns[0]) == Some(event_args(event)[0]));
    assert(event_column_value(event, columns[1]) == Some(event_args(event)[1]));
    assert(event_column_value(event, columns[2]) == Some(event_args(event)[2]));
    assert(event_column_value(event, columns[3]) == Some(event_args(event)[3]));
    assert(event_column_value(event, columns[4]) == Some(event_args(event)[4]));
    assert(event_column_value(event, columns[5]) == Some(event_args(event)[5]));
    assert(event_column_value(event, columns[6]) == Some(event_args(event)[6]));
    assert(event_column_value(event, columns[7]) == Some(event_args(event)[7]));
    assert(event_column_value(event, columns[8]) == Some(event_args(event)[8]));
    assert(event_column_value(event, columns[9]) == Some(event_args(event)[9]));
    reveal_strlit(
        "INSERT INTO \"arcv_events\" (\"event_id\", \"aggregate_version\", \"aggregate_id\", \"aggregate_type\", \"schema_version\", \"event_type\", \"event_data\", \"provenance\", \"idempotency_key\", \"occurred_at\") ",
    );
    reveal_strlit("INSERT INTO \"arcv_events\" (");
    reveal_strlit(") ");
    reveal_strlit("\"");
    reveal_strlit(", \"");
    reveal_with_fuel(column_list_text, 11);
    assert(EVENTS_INSERT@ =~= "INSERT INTO \"arcv_events\" ("@ + column_list_text(archive_columns()) + ") "@);
}

/// Pushes the tuple of one event.
fn push_event_tuple(builder: &mut SqlStatement, event: &LaxEvent)
    ensures
        final(builder)@ == old(builder)@ + event_tuple(*event),
{
    let ghost start = builder@;
    let ghost parts = arg_parts(event_args(*event));
    builder.push("(");
    builder.push_bind(SqlArg::Uuid(event.event_id));
    builder.push(", ");
    builder.push_bind(SqlArg::BigInt(event.aggregate_version as i64));
    builder.push(", ");
    builder.push_bind(SqlArg::Uuid(event.aggregate_id));
    builder.push(", ");
    builder.push_bind(SqlArg::Text(event.aggregate_type.clone()));
    builder.push(", ");
    builder.push_bind(SqlArg::BigInt(event.schema_version as i64));
    builder.push(", ");
    builder.push_bind(SqlArg::Text(event.event_type.clone()));
    builder.push(", ");
    builder.push_bind(SqlArg::Value(MasonValue::Json(crate::mason::value::json_clone(&event.event_data))));
    builder.push(", ");
    builder.push_bind(SqlArg::Value(MasonValue::Json(crate::mason::value::json_clone(&event.provenance))));
    builder.push(", ");
    builder.push_bind(SqlArg::Text(event.idempotency_key.clone()));
    builder.push(", ");
    builder.push_bind(SqlArg::Value(MasonValue::Timestamp(event.occurred_at)));
    builder.push(")");
    proof {
        reveal_with_fuel(joined_pieces, 11);
        assert(parts.len() == 10);
        assert(builder@ =~= start + event_tuple(*event));
    }
}

/// Builds the insert of every event of the batch.
fn build_events_insert(events: &Vec<LaxEvent>) -> (statement: SqlStatement)
    ensures
        statement@ == events_insert_sql(events@),
{
    let mut builder = SqlStatement::new(EVENTS_INSERT);
    builder.push("VALUES ");
    let ghost start = builder@;
    let ghost parts = tuple_parts(events@);
    let mut index: usize = 0;
    while index < events.len()
        invariant
            0 <= index <= events.len(),
            parts == tuple_parts(events@),
            parts.len() == events.len(),
            builder@ == start + joined_pieces(", "@, parts.take(index as int)),
        decreases events.len() - index,
    {
        proof {
            lemma_joined_step(", "@, parts, index as int);
        }
        if index > 0 {
            builder.push(", ");
        }
        push_event_tuple(&mut builder, &events[index]);
        index = index + 1;
        proof {
            assert(builder@ =~= start + joined_pieces(", "@, parts.take(index as int)));
        }
    }
    builder.push(EVENTS_CONFLICT);
    proof {
        assert(parts.take(events.len() as int) =~= parts);
        assert(builder@ =~= events_insert_sql(events@));
    }
    builder
}

/// Builds the checkpoint upsert.
fn build_checkpoint_upsert(consumer: &str, checkpoint: u64, now: i64) -> (statement: SqlStatement)
    ensures
        statement@ == checkpoint_sql(consumer@, checkpoint, now),
{
    let mut builder = SqlStatement::new(CHECKPOINT_UPSERT);
    builder.push_bind(SqlArg::Text(crate::text::owned(consumer)));
    builder.push(", ");
    builder.push_bind(SqlArg::BigInt(checkpoint as i64));
    builder.push(", ");
    builder.push_bind(SqlArg::Value(MasonValue::Timestamp(now)));
    builder.push(CHECKPOINT_CONFLICT);
    builder.push_bind(SqlArg::BigInt(checkpoint as i64));
    proof {
        assert(builder@ =~= checkpoint_sql(consumer@, checkpoint, now));
    }
    builder
}

/// The statements that archive a batch at time `now`: none for an empty
/// batch, otherwise the events insert and the checkpoint upsert, to be run in
/// one transaction.
pub fn archive_events(events: &Vec<LaxEvent>, consumer: &str, checkpoint: u64, now: i64) -> (statements: Vec<
    SqlStatement,
>)
    ensures
        events@.len() == 0 ==> statements@.len() == 0,
        events@.len() > 0 ==> statements_view(statements@) == seq![
            events_insert_sql(events@),
            checkpoint_sql(consumer@, checkpoint, now),
        ],
{
    let mut statements: Vec<SqlStatement> = Vec::new();
    if events.len() == 0 {
        return statements;
    }
    statements.push(build_events_insert(events));
    statements.push(build_checkpoint_upsert(consumer, checkpoint, now));
    proof {
        assert(statements_view(statements@) =~= seq![
            events_insert_sql(events@),
            checkpoint_sql(consumer@, checkpoint, now),
        ]);
    }
    statements
}

/// `std::time::SystemTime`, opaque to the proofs: a reading of the system clock.
#[verifier::external_type_specification]
#[verifier::external_body]
pub struct ExSystemTime(std::time::SystemTime);

/// Wraps `std::time::SystemTime::now`: the system clock's reading. Nothing is
/// claimed of it.
#[verifier::external_body]
fn system_now() -> (time: std::time::SystemTime) {
    std::time::SystemTime::now()
}

/// Wraps `SystemTime::duration_since(UNIX_EPOCH)`, the duration read as whole
/// microseconds: `None` when the reading lies before the epoch. Nothing is
/// claimed of the number.
#[verifier::external_body]
fn micros_since_epoch(time: &std::time::SystemTime) -> (micros: Option<u128>) {
    time.duration_since(std::time::UNIX_EPOCH).ok().map(|elapsed| elapsed.as_micros())
}

/// The microseconds of a clock reading as an `i64`: the count when the
/// reading exists and fits, `None` otherwise.
pub open spec fn micros_of(reading: Option<u128>) -> Option<i64> {
    match reading {
        Some(elapsed) => if elapsed <= i64::MAX {
            Some(elapsed as i64)
        } else {
            None
        },
        None => None,
    }
}

/// The microseconds of a clock reading (since the Unix epoch, `None` for a
/// reading before it) as an `i64`; `None` when there is no reading or it does
/// not fit.
pub fn reading_micros(reading: Option<u128>) -> (micros: Option<i64>)
    ensures
        micros == micros_of(reading),
{
    match reading {
        Some(elapsed) => if elapsed <= 0x7fff_ffff_ffff_ffffu128 {
            Some(elapsed as i64)
        } else {
            None
        },
        None => None,
    }
}

/// The statements that archive a batch at a clock reading (microseconds since
/// the Unix epoch, `None` for a reading before it): for an empty batch, none;
/// otherwise those of `archive_events` at the reading when it fits an `i64`,
/// and `None` when it does not.
pub fn archive_events_at(
    events: &Vec<LaxEvent>,
    consumer: &str,
    checkpoint: u64,
    reading: Option<u128>,
) -> (statements: Option<Vec<SqlStatement>>)
    ensures
        events@.len() == 0 ==> (statements matches Some(list) && list@.len() == 0),
        events@.len() > 0 ==> match micros_of(reading) {
            Some(now) => (statements matches Some(list) && statements_view(list@) == seq![
                events_insert_sql(events@),
                checkpoint_sql(consumer@, checkpoint, now),
            ]),
            None => statements is None,
        },
{
    if events.len() == 0 {
        return Some(Vec::new());
    }
    match reading_micros(reading) {
        Some(now) => Some(archive_events(events, consumer, checkpoint, now)),
        None => None,
    }
}

/// The statements that archive a batch now: for an empty batch, none (the
/// clock is not read); otherwise `archive_events_at` the clock's reading.
pub fn archive_events_now(events: &Vec<LaxEvent>, consumer: &str, checkpoint: u64) -> (statements: Option<
    Vec<SqlStatement>,
>)
    ensures
        events@.len() == 0 ==> (statements matches Some(list) && list@.len() == 0),
        events@.len() > 0 ==> exists|reading: Option<u128>|
            match #[trigger] micros_of(reading) {
                Some(now) => (statements matches Some(list) && statements_view(list@) == seq![
                    events_insert_sql(events@),
                    checkpoint_sql(consumer@, checkpoint, now),
                ]),
                None => statements is None,
            },
{
    if events.len() == 0 {
        return Some(Vec::new());
    }
    let time = system_now();
    let reading = micros_since_epoch(&time);
    archive_events_at(events, consumer, checkpoint, reading)
}

} // verus!
