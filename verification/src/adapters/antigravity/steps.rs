//! Databases of steps, each a protobuf message.

use vstd::prelude::*;
use vstd::utf8::{encode_utf8, encode_utf8_decode_utf8, encode_utf8_valid_utf8};

use crate::adapters::antigravity::transcript::{unwrap_user_request, user_request};
use crate::adapters::proto::{
    field_bytes, find_bytes, find_i64, find_text, law_message_read_back, message_bytes,
    message_fields, varint_bytes, writable, ProtoMessage, WireField,
};
use crate::adapters::shared::StoreError;
use crate::model::{turn_views, Turn, TurnView};
use crate::text::{bytes_view, either_text, occurs_at, starts_with, text_view, trim, trimmed};
use crate::time::{instant_at, valid_instant, Timestamp, MAX_SECONDS};
use crate::urls::{file_url_outcome, file_url_path};

verus! {

/// A row of the step table.
pub struct StepRow {
    pub step_type: i64,
    pub status: i64,
    pub metadata: Option<Vec<u8>>,
    pub payload: Option<Vec<u8>>,
}

#[verifier::ext_equal]
pub struct StepRowView {
    pub step_type: i64,
    pub status: i64,
    pub metadata: Option<Seq<u8>>,
    pub payload: Option<Seq<u8>>,
}

impl View for StepRow {
    type V = StepRowView;

    open spec fn view(&self) -> StepRowView {
        StepRowView {
            step_type: self.step_type,
            status: self.status,
            metadata: bytes_view(self.metadata),
            payload: bytes_view(self.payload),
        }
    }
}

pub open spec fn row_views(rows: Seq<StepRow>) -> Seq<StepRowView> {
    rows.map_values(|row: StepRow| row@)
}

/// What the queries on a database of steps gave: the id of the conversation, the
/// metadata of the conversation, and the steps in order. A query that failed, on a
/// row or as a whole, gave an error.
pub struct StepStore {
    pub cascade_id: Result<Option<String>, StoreError>,
    pub metadata: Result<Option<Vec<u8>>, StoreError>,
    pub steps: Result<Vec<StepRow>, StoreError>,
}

#[verifier::ext_equal]
pub struct StepStoreView {
    pub cascade_id: Result<Option<Seq<char>>, StoreError>,
    pub metadata: Result<Option<Seq<u8>>, StoreError>,
    pub steps: Result<Seq<StepRowView>, StoreError>,
}

impl View for StepStore {
    type V = StepStoreView;

    open spec fn view(&self) -> StepStoreView {
        StepStoreView {
            cascade_id: match self.cascade_id {
                Ok(id) => Ok(text_view(id)),
                Err(error) => Err(error),
            },
            metadata: match self.metadata {
                Ok(data) => Ok(bytes_view(data)),
                Err(error) => Err(error),
            },
            steps: match self.steps {
                Ok(rows) => Ok(row_views(rows@)),
                Err(error) => Err(error),
            },
        }
    }
}

/// The kind of a step that holds what the user entered.
pub const AGY_SQLITE_USER_INPUT: i64 = 14;

/// The kind of a step that holds an answer.
pub const AGY_SQLITE_PLANNER_RESPONSE: i64 = 15;

/// The status of a finished step.
pub const AGY_SQLITE_DONE: i64 = 3;

/// The text field `first` of the message field `number`, or else its field `second`.
pub open spec fn nested_text(
    fields: Seq<WireField>,
    number: u64,
    first: u64,
    second: u64,
) -> Option<Seq<char>> {
    match find_bytes(fields, number) {
        Some(data) => either_text(
            find_text(message_fields(data), first),
            find_text(message_fields(data), second),
        ),
        None => None,
    }
}

/// Who speaks in a stored step, and its raw text.
pub open spec fn stored_speech(fields: Seq<WireField>, step_type: i64) -> Option<
    (bool, Seq<char>),
> {
    if step_type == AGY_SQLITE_USER_INPUT {
        match nested_text(fields, 19, 2, 8) {
            Some(text) => Some((true, text)),
            None => None,
        }
    } else if step_type == AGY_SQLITE_PLANNER_RESPONSE {
        match nested_text(fields, 20, 1, 8) {
            Some(text) => Some((false, text)),
            None => None,
        }
    } else {
        None
    }
}

fn first_nested_text(
    fields: ProtoMessage<'_>,
    number: u64,
    first: u64,
    second: u64,
) -> (text: Option<String>)
    ensures
        text_view(text) == nested_text(fields.spec_fields(), number, first, second),
{
    match fields.first_message(number) {
        Some(message) => match message.first_string(first) {
            Some(text) => Some(text),
            None => message.first_string(second),
        },
        None => None,
    }
}

/// Who speaks in a stored step, and its raw text.
pub fn antigravity_sqlite_step_text(fields: ProtoMessage<'_>, step_type: i64) -> (speech: Option<
    (bool, String),
>)
    ensures
        match speech {
            Some((user, text)) => stored_speech(fields.spec_fields(), step_type) == Some(
                (user, text@),
            ),
            None => stored_speech(fields.spec_fields(), step_type) is None,
        },
{
    if step_type == AGY_SQLITE_USER_INPUT {
        match first_nested_text(fields, 19, 2, 8) {
            Some(text) => Some((true, text)),
            None => None,
        }
    } else if step_type == AGY_SQLITE_PLANNER_RESPONSE {
        match first_nested_text(fields, 20, 1, 8) {
            Some(text) => Some((false, text)),
            None => None,
        }
    } else {
        None
    }
}

/// The instant that a timestamp message names.
pub open spec fn message_instant(fields: Seq<WireField>) -> Option<Timestamp> {
    let nanos = match find_i64(fields, 2) {
        Some(n) => n,
        None => 0,
    };
    match find_i64(fields, 1) {
        Some(seconds) => if 0 <= nanos < 1_000_000_000 && valid_instant(
            seconds as int,
            nanos as int,
        ) {
            Some(Timestamp { seconds, nanos: nanos as u32 })
        } else {
            None
        },
        None => None,
    }
}

/// The instant that a timestamp message names.
pub fn antigravity_proto_timestamp(message: ProtoMessage<'_>) -> (instant: Option<Timestamp>)
    ensures
        instant == message_instant(message.spec_fields()),
{
    let seconds = match message.first_i64(1) {
        Some(seconds) => seconds,
        None => return None,
    };
    let nanos: i64 = match message.first_i64(2) {
        Some(nanos) => nanos,
        None => 0,
    };
    if nanos < 0 || nanos >= 1_000_000_000 {
        return None;
    }
    instant_at(seconds, nanos as u32)
}

/// The instant in the message field `number`.
pub open spec fn nested_instant(fields: Seq<WireField>, number: u64) -> Option<Timestamp> {
    match find_bytes(fields, number) {
        Some(data) => message_instant(message_fields(data)),
        None => None,
    }
}

/// The instant that the payload of a step names.
pub open spec fn payload_instant(fields: Seq<WireField>) -> Option<Timestamp> {
    match find_bytes(fields, 5) {
        Some(data) => nested_instant(message_fields(data), 1),
        None => None,
    }
}

fn first_nested_timestamp(fields: ProtoMessage<'_>, number: u64) -> (instant: Option<Timestamp>)
    ensures
        instant == nested_instant(fields.spec_fields(), number),
{
    match fields.first_message(number) {
        Some(message) => antigravity_proto_timestamp(message),
        None => None,
    }
}

/// The instant that the payload of a step names.
pub fn antigravity_sqlite_payload_timestamp(fields: ProtoMessage<'_>) -> (instant: Option<
    Timestamp,
>)
    ensures
        instant == payload_instant(fields.spec_fields()),
{
    match fields.first_message(5) {
        Some(message) => first_nested_timestamp(message, 1),
        None => None,
    }
}

/// The instant that the metadata of a step name.
pub fn antigravity_sqlite_metadata_timestamp(data: &[u8]) -> (instant: Option<Timestamp>)
    ensures
        instant == nested_instant(message_fields(data@), 1),
{
    first_nested_timestamp(ProtoMessage::new(data), 1)
}

/// A number in a payload takes precedence over the column, unless it is zero.
pub open spec fn field_or_column(fields: Seq<WireField>, number: u64, column: i64) -> i64 {
    match find_i64(fields, number) {
        Some(value) => if value != 0 {
            value
        } else {
            column
        },
        None => column,
    }
}

fn first_nonzero(fields: ProtoMessage<'_>, number: u64, column: i64) -> (value: i64)
    ensures
        value == field_or_column(fields.spec_fields(), number, column),
{
    match fields.first_i64(number) {
        Some(value) => if value != 0 {
            value
        } else {
            column
        },
        None => column,
    }
}

/// The turn that a stored step makes. Steps that are under way, of another kind, or
/// empty make none.
pub open spec fn row_turn(row: StepRowView) -> Option<TurnView> {
    match row.payload {
        Some(payload) => {
            let fields = message_fields(payload);
            let step_type = field_or_column(fields, 1, row.step_type);
            let status = field_or_column(fields, 4, row.status);
            if status != 0 && status != AGY_SQLITE_DONE {
                None
            } else {
                match stored_speech(fields, step_type) {
                    Some((user, raw)) => {
                        let text = if user {
                            user_request(raw)
                        } else {
                            trimmed(raw)
                        };
                        if text.len() == 0 {
                            None
                        } else {
                            Some(
                                TurnView {
                                    user,
                                    text,
                                    timestamp: match payload_instant(fields) {
                                        Some(instant) => Some(instant),
                                        None => match row.metadata {
                                            Some(metadata) => nested_instant(
                                                message_fields(metadata),
                                                1,
                                            ),
                                            None => None,
                                        },
                                    },
                                },
                            )
                        }
                    },
                    None => None,
                }
            }
        },
        None => None,
    }
}

/// The turn that a stored step makes.
pub fn stored_turn(row: &StepRow) -> (turn: Option<Turn>)
    ensures
        match turn {
            Some(t) => row_turn(row@) == Some(t@),
            None => row_turn(row@) is None,
        },
{
    let payload = match &row.payload {
        Some(payload) => payload,
        None => return None,
    };
    let fields = ProtoMessage::new(payload.as_slice());
    let step_type = first_nonzero(fields, 1, row.step_type);
    let status = first_nonzero(fields, 4, row.status);
    if status != 0 && status != AGY_SQLITE_DONE {
        return None;
    }
    let (user, raw) = match antigravity_sqlite_step_text(fields, step_type) {
        Some(speech) => speech,
        None => return None,
    };
    let text = if user {
        unwrap_user_request(raw.as_str())
    } else {
        trim(raw.as_str())
    };
    if text.as_str().is_empty() {
        return None;
    }
    let timestamp = match antigravity_sqlite_payload_timestamp(fields) {
        Some(instant) => Some(instant),
        None => match &row.metadata {
            Some(metadata) => antigravity_sqlite_metadata_timestamp(metadata.as_slice()),
            None => None,
        },
    };
    Some(Turn { user, text, timestamp })
}

/// The turns that stored steps make, in order.
pub open spec fn row_turns(rows: Seq<StepRowView>) -> Seq<TurnView>
    decreases rows.len(),
{
    if rows.len() == 0 {
        seq![]
    } else {
        let before = row_turns(rows.drop_last());
        match row_turn(rows.last()) {
            Some(turn) => before.push(turn),
            None => before,
        }
    }
}

/// The turns that stored steps make, in order.
pub fn stored_turns(rows: &Vec<StepRow>) -> (turns: Vec<Turn>)
    ensures
        turn_views(turns@) == row_turns(row_views(rows@)),
{
    let mut turns: Vec<Turn> = Vec::new();
    let mut i: usize = 0;
    assert(turn_views(turns@) =~= Seq::<TurnView>::empty());
    while i < rows.len()
        invariant
            i <= rows@.len(),
            turn_views(turns@) == row_turns(row_views(rows@).take(i as int)),
        decreases rows@.len() - i,
    {
        let ghost before = turns@;
        assert(row_views(rows@).take(i + 1).drop_last() =~= row_views(rows@).take(i as int));
        if let Some(turn) = stored_turn(&rows[i]) {
            turns.push(turn);
            assert(turn_views(turns@) =~= turn_views(before).push(turn@));
        }
        i += 1;
    }
    assert(row_views(rows@).take(i as int) =~= row_views(rows@));
    turns
}

/// The workspace that the metadata of a conversation name, as it is written there.
pub open spec fn metadata_workspace(data: Seq<u8>) -> Option<Seq<char>> {
    let fields = message_fields(data);
    either_text(nested_text(fields, 1, 1, 2), find_text(fields, 7))
}

/// The workspace that the metadata of a conversation name, as it is written there.
pub fn sqlite_workspace(data: &[u8]) -> (workspace: Option<String>)
    ensures
        text_view(workspace) == metadata_workspace(data@),
{
    let fields = ProtoMessage::new(data);
    match first_nested_text(fields, 1, 1, 2) {
        Some(text) => Some(text),
        None => fields.first_string(7),
    }
}

/// Whether a workspace is written as a file URL.
pub open spec fn is_file_url(workspace: Seq<char>) -> bool {
    occurs_at(workspace, "file:"@, 0)
}

/// The directories that metadata can stand for: the workspace as it is written, or,
/// where that is a file URL, whatever path the system makes of it.
pub open spec fn directory_outcome(
    metadata: Option<Seq<u8>>,
    directory: Option<Seq<char>>,
) -> bool {
    match metadata {
        Some(data) => match metadata_workspace(data) {
            Some(workspace) => if is_file_url(workspace) {
                file_url_outcome(workspace, directory)
            } else {
                directory == Some(workspace)
            },
            None => directory is None,
        },
        None => directory is None,
    }
}

/// The directory that metadata stand for. How the path of a file URL looks depends on
/// the system.
pub fn antigravity_sqlite_directory(data: &[u8]) -> (directory: Option<String>)
    ensures
        directory_outcome(Some(data@), text_view(directory)),
{
    match sqlite_workspace(data) {
        Some(workspace) => if starts_with(workspace.as_str(), "file:") {
            file_url_path(workspace.as_str())
        } else {
            Some(workspace)
        },
        None => None,
    }
}

/// The metadata that a database gave, if the query did not fail.
pub open spec fn store_metadata(store: StepStoreView) -> Option<Seq<u8>> {
    match store.metadata {
        Ok(data) => data,
        Err(_) => None,
    }
}

pub(crate) fn store_directory(store: &StepStore) -> (directory: Option<String>)
    ensures
        directory_outcome(store_metadata(store@), text_view(directory)),
{
    match &store.metadata {
        Ok(Some(data)) => antigravity_sqlite_directory(data.as_slice()),
        _ => None,
    }
}

/// What the user entered stands in one message of a step and what is answered in another;
/// in each, a second text counts only where the first is missing. Steps of other kinds
/// say nothing.
pub proof fn law_stored_speech(fields: Seq<WireField>, step_type: i64)
    ensures
        step_type == 14 ==> match find_bytes(fields, 19) {
            Some(data) => match (
                find_text(message_fields(data), 2),
                find_text(message_fields(data), 8),
            ) {
                (Some(text), _) => stored_speech(fields, step_type) == Some((true, text)),
                (None, Some(text)) => stored_speech(fields, step_type) == Some((true, text)),
                (None, None) => stored_speech(fields, step_type) is None,
            },
            None => stored_speech(fields, step_type) is None,
        },
        step_type == 15 ==> match find_bytes(fields, 20) {
            Some(data) => match (
                find_text(message_fields(data), 1),
                find_text(message_fields(data), 8),
            ) {
                (Some(text), _) => stored_speech(fields, step_type) == Some((false, text)),
                (None, Some(text)) => stored_speech(fields, step_type) == Some((false, text)),
                (None, None) => stored_speech(fields, step_type) is None,
            },
            None => stored_speech(fields, step_type) is None,
        },
        step_type != 14 && step_type != 15 ==> stored_speech(fields, step_type) is None,
{
}

/// The kind and the status that a payload names count before those of the row, unless
/// they are zero.
pub proof fn law_payload_counts_before_the_row(fields: Seq<WireField>, number: u64, column: i64)
    ensures
        find_i64(fields, number) matches Some(value) && value != 0 ==> field_or_column(
            fields,
            number,
            column,
        ) == find_i64(fields, number)->0,
        !(find_i64(fields, number) matches Some(value) && value != 0) ==> field_or_column(
            fields,
            number,
            column,
        ) == column,
{
}

/// A step that is under way, or that has no payload, makes no turn.
pub proof fn law_unfinished_steps_make_no_turn(row: StepRowView)
    ensures
        row.payload is None ==> row_turn(row) is None,
        row.payload matches Some(payload) && field_or_column(message_fields(payload), 4, row.status)
            != 0 && field_or_column(message_fields(payload), 4, row.status) != 3 ==> row_turn(row)
            is None,
{
}

/// A finished step makes a turn exactly if it says something: of the user, what was asked
/// for; of the model, the answer without the white space around it.
pub proof fn law_finished_steps_make_turns(row: StepRowView)
    requires
        row.payload is Some,
        field_or_column(message_fields(row.payload->0), 4, row.status) == 0 || field_or_column(
            message_fields(row.payload->0),
            4,
            row.status,
        ) == 3,
    ensures
        ({
            let fields = message_fields(row.payload->0);
            match stored_speech(fields, field_or_column(fields, 1, row.step_type)) {
                None => row_turn(row) is None,
                Some((true, raw)) => if user_request(raw).len() == 0 {
                    row_turn(row) is None
                } else {
                    row_turn(row) matches Some(turn) && turn.user && turn.text == user_request(raw)
                },
                Some((false, raw)) => if trimmed(raw).len() == 0 {
                    row_turn(row) is None
                } else {
                    row_turn(row) matches Some(turn) && !turn.user && turn.text == trimmed(raw)
                },
            }
        }),
{
}

/// A turn took place when its payload says, or else when the metadata of the step say.
pub proof fn law_payload_times_the_turn(row: StepRowView)
    ensures
        row_turn(row) matches Some(turn) ==> {
            let told = payload_instant(message_fields(row.payload->0));
            &&& told is Some ==> turn.timestamp == told
            &&& told is None && row.metadata is Some ==> turn.timestamp == nested_instant(
                message_fields(row.metadata->0),
                1,
            )
            &&& told is None && row.metadata is None ==> turn.timestamp is None
        },
{
}

/// The time of a payload stands in a message within a message of it, and that of metadata
/// in a message of theirs.
pub proof fn law_places_of_instants(fields: Seq<WireField>, number: u64)
    ensures
        find_bytes(fields, number) matches Some(data) ==> nested_instant(fields, number)
            == message_instant(message_fields(data)),
        find_bytes(fields, number) is None ==> nested_instant(fields, number) is None,
        find_bytes(fields, 5) matches Some(data) ==> payload_instant(fields) == nested_instant(
            message_fields(data),
            1,
        ),
        find_bytes(fields, 5) is None ==> payload_instant(fields) is None,
{
}

/// An instant is given by its seconds, and by nanoseconds within the second, which are
/// zero where they are missing.
pub proof fn law_message_instant(fields: Seq<WireField>)
    ensures
        find_i64(fields, 1) is None ==> message_instant(fields) is None,
        message_instant(fields) matches Some(instant) ==> {
            &&& find_i64(fields, 1) == Some(instant.seconds)
            &&& find_i64(fields, 2) == Some(instant.nanos as i64) || (find_i64(fields, 2) is None
                && instant.nanos == 0)
            &&& instant.nanos < 1_000_000_000
        },
        find_i64(fields, 1) matches Some(seconds) && find_i64(fields, 2) is None && valid_instant(
            find_i64(fields, 1)->0 as int,
            0,
        ) ==> message_instant(fields) is Some,
        find_i64(fields, 1) is Some && find_i64(fields, 2) is Some && 0 <= find_i64(fields, 2)->0
            < 1_000_000_000 && valid_instant(
            find_i64(fields, 1)->0 as int,
            find_i64(fields, 2)->0 as int,
        ) ==> message_instant(fields) is Some,
{
}

/// The turns of a database are those of its steps, in order.
pub proof fn law_rows_make_turns_in_order(left: Seq<StepRowView>, right: Seq<StepRowView>)
    ensures
        row_turns(left + right) == row_turns(left) + row_turns(right),
        left.len() == 1 ==> match row_turn(left[0]) {
            Some(turn) => row_turns(left) == seq![turn],
            None => row_turns(left).len() == 0,
        },
    decreases right.len(),
{
    reveal_with_fuel(row_turns, 2);
    let all = left + right;
    if right.len() == 0 {
        assert(all =~= left);
    } else {
        law_rows_make_turns_in_order(left, right.drop_last());
        assert(all.drop_last() =~= left + right.drop_last());
        assert(all.last() == right.last());
    }
    assert(row_turns(all) =~= row_turns(left) + row_turns(right));
    if left.len() == 1 {
        if let Some(turn) = row_turn(left[0]) {
            assert(row_turns(left) =~= seq![turn]);
        }
    }
}

/// The workspace of a conversation is named in a message of the metadata, in one of two
/// places there, or else in the metadata themselves; the first that is named counts.
pub proof fn law_metadata_workspace(data: Seq<u8>)
    ensures
        ({
            let fields = message_fields(data);
            let inner = match find_bytes(fields, 1) {
                Some(message) => message_fields(message),
                None => seq![],
            };
            match (find_text(inner, 1), find_text(inner, 2), find_text(fields, 7)) {
                (Some(text), _, _) => metadata_workspace(data) == Some(text),
                (None, Some(text), _) => metadata_workspace(data) == Some(text),
                (None, None, Some(text)) => metadata_workspace(data) == Some(text),
                (None, None, None) => metadata_workspace(data) is None,
            }
        }),
{
}

/// A workspace that is not a file URL is a directory as it is written, and without one
/// metadata name no directory.
pub proof fn law_directory_as_written(data: Seq<u8>, directory: Option<Seq<char>>)
    requires
        directory_outcome(Some(data), directory),
    ensures
        metadata_workspace(data) matches Some(workspace) && !("file:"@).is_prefix_of(workspace)
            ==> directory == metadata_workspace(data),
        metadata_workspace(data) is None ==> directory is None,
{
    if let Some(workspace) = metadata_workspace(data) {
        if is_file_url(workspace) {
            assert(workspace.subrange(0, "file:"@.len() as int) == "file:"@);
            assert("file:"@.is_prefix_of(workspace));
        }
    }
}

/// What a writer of steps spells is read back as the turn that was meant: who speaks,
/// what is said and when.
pub proof fn law_written_step_is_read_back(
    user: bool,
    text: Seq<char>,
    seconds: u64,
    nanos: u64,
    column_type: i64,
    column_status: i64,
    metadata: Option<Seq<u8>>,
)
    requires
        text.len() > 0,
        encode_utf8(text).len() <= 0x1000_0000,
        seconds <= MAX_SECONDS,
        nanos < 1_000_000_000,
        user ==> user_request(text).len() > 0,
        !user ==> trimmed(text).len() > 0,
    ensures
        ({
            let time = message_bytes(
                seq![WireField::Varint(1, seconds), WireField::Varint(2, nanos)],
            );
            let said = message_bytes(
                seq![
                    WireField::Bytes(
                        if user {
                            2
                        } else {
                            1
                        },
                        encode_utf8(text),
                    ),
                ],
            );
            let payload = message_bytes(
                seq![
                    WireField::Varint(
                        1,
                        if user {
                            14
                        } else {
                            15
                        },
                    ),
                    WireField::Varint(4, 3),
                    WireField::Bytes(5, message_bytes(seq![WireField::Bytes(1, time)])),
                    WireField::Bytes(
                        if user {
                            19
                        } else {
                            20
                        },
                        said,
                    ),
                ],
            );
            let row = StepRowView {
                step_type: column_type,
                status: column_status,
                metadata,
                payload: Some(payload),
            };
            row_turn(row) == Some(
                TurnView {
                    user,
                    text: if user {
                        user_request(text)
                    } else {
                        trimmed(text)
                    },
                    timestamp: Some(Timestamp { seconds: seconds as i64, nanos: nanos as u32 }),
                },
            )
        }),
{
    let times = seq![WireField::Varint(1, seconds), WireField::Varint(2, nanos)];
    let time = message_bytes(times);
    let outer = seq![WireField::Bytes(1, time)];
    let inner = seq![
        WireField::Bytes(
            if user {
                2
            } else {
                1
            },
            encode_utf8(text),
        ),
    ];
    let said = message_bytes(inner);
    let kind: u64 = if user {
        14
    } else {
        15
    };
    let place: u64 = if user {
        19
    } else {
        20
    };
    let fields = seq![
        WireField::Varint(1, kind),
        WireField::Varint(4, 3),
        WireField::Bytes(5, message_bytes(outer)),
        WireField::Bytes(place, said),
    ];
    encode_utf8_valid_utf8(text);
    encode_utf8_decode_utf8(text);
    lemma_short_message(times, 0);
    lemma_short_message(outer, 60);
    lemma_short_message(inner, 0x1000_0000);
    law_message_read_back(times);
    law_message_read_back(outer);
    law_message_read_back(inner);
    law_message_read_back(fields);
    reveal_with_fuel(find_i64, 6);
    reveal_with_fuel(find_bytes, 6);
    reveal_with_fuel(find_text, 3);
}

proof fn lemma_short_varint(value: nat)
    requires
        value <= u64::MAX,
    ensures
        0 < varint_bytes(value).len() <= 10,
{
    reveal_with_fuel(varint_bytes, 11);
}

/// A message of few fields is not much longer than what they hold.
proof fn lemma_short_message(fields: Seq<WireField>, size: nat)
    requires
        0 < fields.len() <= 2,
        forall|i: int| 0 <= i < fields.len() ==> writable(#[trigger] fields[i]),
        forall|i: int|
            0 <= i < fields.len() ==> (#[trigger] fields[i] matches WireField::Bytes(_, value)
                ==> value.len() <= size),
    ensures
        message_bytes(fields).len() <= 2 * size + 60,
{
    reveal_with_fuel(message_bytes, 3);
    assert forall|i: int| 0 <= i < fields.len() implies (#[trigger] field_bytes(fields[i])).len()
        <= size + 30 by {
        match fields[i] {
            WireField::Varint(number, value) => {
                lemma_short_varint((number * 8) as nat);
                lemma_short_varint(value as nat);
            },
            WireField::Bytes(number, value) => {
                lemma_short_varint((number * 8 + 2) as nat);
                lemma_short_varint(value.len());
            },
            _ => {},
        }
    }
    assert(field_bytes(fields[0]).len() <= size + 30);
    if fields.len() == 2 {
        assert(fields.drop_first()[0] == fields[1]);
        assert(field_bytes(fields[1]).len() <= size + 30);
        assert(fields.drop_first().drop_first() =~= Seq::<WireField>::empty());
    } else {
        assert(fields.drop_first() =~= Seq::<WireField>::empty());
    }
}

/// A database whose metadata could not be read, or that has none, names no directory, and
/// one that has them names what they name.
pub proof fn law_unread_metadata_name_no_directory(
    store: StepStoreView,
    directory: Option<Seq<char>>,
)
    requires
        directory_outcome(store_metadata(store), directory),
    ensures
        store.metadata is Err ==> directory is None,
        store.metadata matches Ok(None) ==> directory is None,
        store.metadata matches Ok(Some(data)) ==> directory_outcome(Some(data), directory),
{
}

} // verus!
