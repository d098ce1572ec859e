//! Records of a chat: structured JSON, or the plain encoding of what a user said.

use vstd::prelude::*;
use vstd::utf8::{encode_utf8, encode_utf8_decode_utf8, encode_utf8_valid_utf8};

use crate::json::{
    list_of, member, member_from, member_or, or_empty, parse_json, parsed_json, text_field, text_of,
    tree_i64, tree_text, trees, Json, JsonTree,
};
use crate::model::{turn_views, Turn, TurnView};
use crate::text::{
    chars_of, contains_char, find_last, is_control, is_white_space, join, joined, last_index,
    law_character_classes, law_only_blanks_are_trimmed_away, law_padding_is_trimmed,
    lemma_last_index, lemma_trim_nothing, same_text, string_of, text_from_utf8, text_view, texts,
    trim, trim_both, trim_matches, trimmed, utf8_text, CharClass,
};
use crate::time::{
    instant_at, millis_instant, parse_datetime, rfc3339_instant, timestamp_from_ms, valid_instant,
    Timestamp, MIN_SECONDS,
};

verus! {

/// The first place from `from` on at which `byte` stands.
pub open spec fn first_byte(bytes: Seq<u8>, byte: u8, from: int) -> Option<int>
    decreases bytes.len() - from,
{
    if from < 0 || from >= bytes.len() {
        None
    } else if bytes[from] == byte {
        Some(from)
    } else {
        first_byte(bytes, byte, from + 1)
    }
}

/// The last place before `end` at which `byte` stands.
pub open spec fn last_byte(bytes: Seq<u8>, byte: u8, end: int) -> Option<int>
    decreases end,
{
    if end <= 0 || end > bytes.len() {
        None
    } else if bytes[end - 1] == byte {
        Some(end - 1)
    } else {
        last_byte(bytes, byte, end - 1)
    }
}

/// The document that bytes hold: all of them, or else what stands from the first
/// opening brace to the last closing one.
pub open spec fn decoded_json(bytes: Seq<u8>) -> Option<JsonTree> {
    match parsed_json(bytes) {
        Some(document) => Some(document),
        None => match (first_byte(bytes, 0x7b, 0), last_byte(bytes, 0x7d, bytes.len() as int)) {
            (Some(start), Some(end)) => if start < end {
                parsed_json(bytes.subrange(start, end + 1))
            } else {
                None
            },
            _ => None,
        },
    }
}

/// Between the outermost braces of a record the document is found, whatever binary
/// framing surrounds it, unless all of the bytes are a document themselves.
pub proof fn law_framed_document_is_found(before: Seq<u8>, document: Seq<u8>, after: Seq<u8>)
    requires
        !before.contains(0x7bu8),
        !after.contains(0x7du8),
        document.len() > 1,
        document[0] == 0x7b,
        document.last() == 0x7d,
        parsed_json(before + document + after) is None,
    ensures
        decoded_json(before + document + after) == parsed_json(document),
{
    let bytes = before + document + after;
    let start = before.len() as int;
    let end = start + document.len() - 1;
    lemma_first_byte(bytes, 0x7b, 0, start);
    lemma_last_byte(bytes, 0x7d, bytes.len() as int, end);
    assert(bytes.subrange(start, end + 1) =~= document);
}

proof fn lemma_first_byte(bytes: Seq<u8>, byte: u8, from: int, at: int)
    requires
        0 <= from <= at < bytes.len(),
        bytes[at] == byte,
        forall|i: int| from <= i < at ==> bytes[i] != byte,
    ensures
        first_byte(bytes, byte, from) == Some(at),
    decreases at - from,
{
    if from < at {
        lemma_first_byte(bytes, byte, from + 1, at);
    }
}

proof fn lemma_last_byte(bytes: Seq<u8>, byte: u8, end: int, at: int)
    requires
        0 <= at < end <= bytes.len(),
        bytes[at] == byte,
        forall|i: int| at < i < end ==> bytes[i] != byte,
    ensures
        last_byte(bytes, byte, end) == Some(at),
    decreases end - at,
{
    if at < end - 1 {
        lemma_last_byte(bytes, byte, end - 1, at);
    }
}

fn find_first_byte(bytes: &[u8], byte: u8) -> (place: Option<usize>)
    ensures
        match place {
            Some(i) => first_byte(bytes@, byte, 0) == Some(i as int) && i < bytes@.len(),
            None => first_byte(bytes@, byte, 0) is None,
        },
{
    let mut i: usize = 0;
    while i < bytes.len()
        invariant
            i <= bytes@.len(),
            first_byte(bytes@, byte, 0) == first_byte(bytes@, byte, i as int),
        decreases bytes@.len() - i,
    {
        if bytes[i] == byte {
            return Some(i);
        }
        i += 1;
    }
    None
}

fn find_last_byte(bytes: &[u8], byte: u8) -> (place: Option<usize>)
    ensures
        match place {
            Some(i) => last_byte(bytes@, byte, bytes@.len() as int) == Some(i as int) && i
                < bytes@.len(),
            None => last_byte(bytes@, byte, bytes@.len() as int) is None,
        },
{
    let mut end: usize = bytes.len();
    while end > 0
        invariant
            end <= bytes@.len(),
            last_byte(bytes@, byte, bytes@.len() as int) == last_byte(bytes@, byte, end as int),
        decreases end,
    {
        if bytes[end - 1] == byte {
            return Some(end - 1);
        }
        end -= 1;
    }
    None
}

/// The document that bytes hold.
pub fn decode_json(bytes: &[u8]) -> (json: Option<Json>)
    ensures
        match json {
            Some(j) => decoded_json(bytes@) == Some(j@),
            None => decoded_json(bytes@) is None,
        },
{
    if let Some(document) = parse_json(bytes) {
        return Some(document);
    }
    assert(bytes.len() == bytes@.len());
    match (find_first_byte(bytes, 0x7b), find_last_byte(bytes, 0x7d)) {
        (Some(start), Some(end)) => if start < end {
            parse_json(vstd::slice::slice_subrange(bytes, start, end + 1))
        } else {
            None
        },
        _ => None,
    }
}

/// The instant that a value names: a text in the format of RFC 3339, or a number of
/// milliseconds, or of seconds where it is small.
pub open spec fn value_instant(value: Option<JsonTree>) -> Option<Timestamp> {
    match value {
        Some(JsonTree::Text(text)) => rfc3339_instant(text),
        Some(JsonTree::Number { integer, truncated }) => {
            let number = match integer {
                Some(n) => Some(n),
                None => truncated,
            };
            match number {
                Some(n) => if n > 100_000_000_000 {
                    millis_instant(n)
                } else if valid_instant(n as int, 0) {
                    Some(Timestamp { seconds: n, nanos: 0 })
                } else {
                    None
                },
                None => None,
            }
        },
        _ => None,
    }
}

pub open spec fn json_view(value: Option<&Json>) -> Option<JsonTree> {
    match value {
        Some(v) => Some(v@),
        None => None,
    }
}

/// The instant that a value names.
pub fn cursor_timestamp(value: Option<&Json>) -> (instant: Option<Timestamp>)
    ensures
        instant == value_instant(json_view(value)),
{
    let value = match value {
        Some(value) => value,
        None => return None,
    };
    let number = match value {
        Json::Text(text) => return parse_datetime(text.as_str()),
        Json::Number { integer, truncated } => match *integer {
            Some(number) => Some(number),
            None => *truncated,
        },
        _ => None,
    };
    match number {
        Some(number) => if number > 100_000_000_000 {
            timestamp_from_ms(Some(number))
        } else {
            instant_at(number, 0)
        },
        None => None,
    }
}

/// What the records of a chat tell: a title, a directory and the time of creation,
/// and the messages in order.
#[verifier::ext_equal]
pub struct RecordsView {
    pub title: Seq<char>,
    pub directory: Seq<char>,
    pub created_at: Option<Timestamp>,
    pub messages: Seq<TurnView>,
}

/// What the records of a chat tell.
pub struct CursorRecords {
    pub title: String,
    pub directory: String,
    pub created_at: Option<Timestamp>,
    pub messages: Vec<Turn>,
}

impl View for CursorRecords {
    type V = RecordsView;

    open spec fn view(&self) -> RecordsView {
        RecordsView {
            title: self.title@,
            directory: self.directory@,
            created_at: self.created_at,
            messages: turn_views(self.messages@),
        }
    }
}

/// Nothing is told yet.
pub open spec fn no_records() -> RecordsView {
    RecordsView { title: seq![], directory: seq![], created_at: None, messages: seq![] }
}

/// A text that stays once it is there, and is else that of one of two members.
pub open spec fn filled_text(
    current: Seq<char>,
    value: JsonTree,
    first: Seq<char>,
    second: Seq<char>,
) -> Seq<char> {
    if current.len() > 0 {
        current
    } else {
        or_empty(text_of(member_or(value, first, second)))
    }
}

/// What is told after a title and a time of creation, if they were not told before.
pub open spec fn with_title(records: RecordsView, value: JsonTree) -> RecordsView {
    RecordsView {
        title: filled_text(records.title, value, "name"@, "title"@),
        created_at: match records.created_at {
            Some(instant) => Some(instant),
            None => value_instant(member(value, "createdAt"@)),
        },
        ..records
    }
}

/// What is told after metadata.
pub open spec fn with_metadata(records: RecordsView, value: JsonTree) -> RecordsView {
    RecordsView {
        directory: filled_text(records.directory, value, "cwd"@, "workspace"@),
        ..with_title(records, value)
    }
}

fn fill_text(current: &mut String, value: &Json, first: &str, second: &str)
    ensures
        final(current)@ == filled_text(old(current)@, value@, first@, second@),
{
    if current.as_str().is_empty() {
        *current = match value.get_or(first, second) {
            Some(inner) => match inner.as_str() {
                Some(text) => text.clone(),
                None => String::new(),
            },
            None => String::new(),
        };
    }
}

impl CursorRecords {
    pub fn new() -> (records: Self)
        ensures
            records@ == no_records(),
    {
        let records = CursorRecords {
            title: String::new(),
            directory: String::new(),
            created_at: None,
            messages: Vec::new(),
        };
        assert(records@ =~= no_records());
        records
    }

    fn apply_title(&mut self, value: &Json)
        ensures
            final(self)@ == with_title(old(self)@, value@),
    {
        fill_text(&mut self.title, value, "name", "title");
        if self.created_at.is_none() {
            self.created_at = cursor_timestamp(value.get("createdAt"));
        }
    }

    /// Takes metadata into account.
    pub fn apply_cursor_metadata(&mut self, value: &Json)
        ensures
            final(self)@ == with_metadata(old(self)@, value@),
    {
        self.apply_title(value);
        fill_text(&mut self.directory, value, "cwd", "workspace");
    }

    pub(crate) fn push_message(&mut self, message: Turn)
        ensures
            final(self)@ == (RecordsView {
                messages: old(self)@.messages.push(message@),
                ..old(self)@
            }),
    {
        let ghost before = self.messages@;
        self.messages.push(message);
        assert(turn_views(self.messages@) =~= turn_views(before).push(message@));
    }
}

/// Who speaks in a record: by its role, or else by its kind.
pub open spec fn speaker(value: JsonTree) -> Option<bool> {
    let role = text_of(member(value, "role"@));
    if role == Some("user"@) {
        Some(true)
    } else if role == Some("assistant"@) {
        Some(false)
    } else {
        match member(value, "type"@) {
            Some(JsonTree::Number { integer, .. }) => match integer {
                Some(kind) => if kind == 1 {
                    Some(true)
                } else if kind == 2 {
                    Some(false)
                } else {
                    None
                },
                None => None,
            },
            Some(JsonTree::Text(kind)) => if kind == "user"@ {
                Some(true)
            } else if kind == "ai"@ || kind == "assistant"@ {
                Some(false)
            } else {
                None
            },
            _ => None,
        }
    }
}

/// Who speaks in a record.
pub fn find_speaker(value: &Json) -> (user: Option<bool>)
    ensures
        user == speaker(value@),
{
    if let Some(role) = value.get("role") {
        if let Some(role) = role.as_str() {
            if same_text(role.as_str(), "user") {
                return Some(true);
            }
            if same_text(role.as_str(), "assistant") {
                return Some(false);
            }
        }
    }
    match value.get("type") {
        Some(Json::Number { integer, .. }) => match *integer {
            Some(kind) => if kind == 1 {
                Some(true)
            } else if kind == 2 {
                Some(false)
            } else {
                None
            },
            None => None,
        },
        Some(Json::Text(kind)) => if same_text(kind.as_str(), "user") {
            Some(true)
        } else if same_text(kind.as_str(), "ai") || same_text(kind.as_str(), "assistant") {
            Some(false)
        } else {
            None
        },
        _ => None,
    }
}

/// The texts of the parts that have one.
pub open spec fn part_texts(parts: Seq<JsonTree>) -> Seq<Seq<char>>
    decreases parts.len(),
{
    if parts.len() == 0 {
        seq![]
    } else {
        let before = part_texts(parts.drop_last());
        match text_of(member_or(parts.last(), "text"@, "data"@)) {
            Some(text) => before.push(text),
            None => before,
        }
    }
}

/// What is said in a record: its text, or its content in one piece or in parts.
pub open spec fn record_text(value: JsonTree) -> Seq<char> {
    match text_of(member(value, "text"@)) {
        Some(text) => text,
        None => match member(value, "content"@) {
            Some(JsonTree::Text(text)) => text,
            Some(JsonTree::List(parts)) => joined(part_texts(parts), "\n"@),
            _ => seq![],
        },
    }
}

fn join_parts(parts: &Vec<Json>) -> (text: String)
    ensures
        text@ == joined(part_texts(trees(parts@)), "\n"@),
{
    let mut said: Vec<String> = Vec::new();
    let mut i: usize = 0;
    assert(texts(said@) =~= Seq::<Seq<char>>::empty());
    while i < parts.len()
        invariant
            i <= parts@.len(),
            texts(said@) == part_texts(trees(parts@).take(i as int)),
        decreases parts@.len() - i,
    {
        let ghost before = said@;
        assert(trees(parts@).take(i + 1).drop_last() =~= trees(parts@).take(i as int));
        if let Some(inner) = parts[i].get_or("text", "data") {
            if let Some(text) = inner.as_str() {
                said.push(text.clone());
                assert(texts(said@) =~= texts(before).push(text@));
            }
        }
        i += 1;
    }
    assert(trees(parts@).take(i as int) =~= trees(parts@));
    join(&said, "\n")
}

/// What is said in a record.
pub fn cursor_content_text(value: &Json) -> (text: String)
    ensures
        text@ == record_text(value@),
{
    if let Some(inner) = value.get("text") {
        if let Some(text) = inner.as_str() {
            return text.clone();
        }
    }
    match value.get("content") {
        Some(content) => {
            if let Some(text) = content.as_str() {
                return text.clone();
            }
            match content.as_array() {
                Some(parts) => join_parts(parts),
                None => String::new(),
            }
        },
        None => String::new(),
    }
}

/// The message that a record itself is, apart from those inside it.
pub open spec fn record_message(value: JsonTree) -> Option<TurnView> {
    match speaker(value) {
        Some(user) => if trimmed(record_text(value)).len() > 0 {
            Some(
                TurnView {
                    user,
                    text: record_text(value),
                    timestamp: value_instant(member(value, "timestamp"@)),
                },
            )
        } else {
            None
        },
        None => None,
    }
}

proof fn lemma_member_is_smaller(members: Seq<(Seq<char>, JsonTree)>, key: Seq<char>, from: int)
    requires
        0 <= from,
    ensures
        member_from(members, key, from) matches Some(value) ==> exists|i: int|
            0 <= i < members.len() && (#[trigger] members[i]).1 == value,
    decreases members.len() - from,
{
    if from < members.len() {
        if members[from].0 == key {
            assert(members[from].1 == member_from(members, key, from)->0);
        } else {
            lemma_member_is_smaller(members, key, from + 1);
        }
    }
}

/// The items of a member are smaller than the object.
pub proof fn lemma_list_is_smaller(value: JsonTree, key: Seq<char>)
    ensures
        list_of(member(value, key)) matches Some(items) ==> decreases_to!(value => items),
{
    if let JsonTree::Members(members) = value {
        lemma_member_is_smaller(members, key, 0);
        if let Some(inner) = member(value, key) {
            let i = choose|i: int| 0 <= i < members.len() && (#[trigger] members[i]).1 == inner;
            assert(decreases_to!(value => value->Members_0));
            assert(decreases_to!(value->Members_0 => value->Members_0[i]));
            assert(decreases_to!(value->Members_0[i] => value->Members_0[i].1));
            if let JsonTree::List(items) = inner {
                assert(decreases_to!(inner => inner->List_0));
            }
        }
    }
}

/// What is told after a record: what it tells itself, then the records inside it, and
/// last the message that it is.
pub open spec fn with_record(records: RecordsView, value: JsonTree) -> RecordsView
    decreases value,
{
    proof {
        lemma_list_is_smaller(value, "messages"@);
        lemma_list_is_smaller(value, "conversation"@);
    }
    let titled = with_title(records, value);
    let inner = match list_of(member(value, "messages"@)) {
        Some(items) => with_records(titled, items),
        None => titled,
    };
    let all = match list_of(member(value, "conversation"@)) {
        Some(items) => with_records(inner, items),
        None => inner,
    };
    match record_message(value) {
        Some(message) => RecordsView { messages: all.messages.push(message), ..all },
        None => all,
    }
}

/// What is told after these records.
pub open spec fn with_records(records: RecordsView, items: Seq<JsonTree>) -> RecordsView
    decreases items,
{
    if items.len() == 0 {
        records
    } else {
        with_record(with_records(records, items.drop_last()), items.last())
    }
}

/// Takes a record into account, with the records inside it.
pub fn collect_cursor_records(value: &Json, records: &mut CursorRecords)
    ensures
        final(records)@ == with_record(old(records)@, value@),
    decreases value@,
{
    proof {
        lemma_list_is_smaller(value@, "messages"@);
        lemma_list_is_smaller(value@, "conversation"@);
    }
    records.apply_title(value);
    if let Some(inner) = value.get("messages") {
        if let Some(items) = inner.as_array() {
            collect_items(items, records);
        }
    }
    if let Some(inner) = value.get("conversation") {
        if let Some(items) = inner.as_array() {
            collect_items(items, records);
        }
    }
    let user = match find_speaker(value) {
        Some(user) => user,
        None => return ,
    };
    let text = cursor_content_text(value);
    if trim(text.as_str()).as_str().is_empty() {
        return ;
    }
    let timestamp = cursor_timestamp(value.get("timestamp"));
    records.push_message(Turn { user, text, timestamp });
}

fn collect_items(items: &Vec<Json>, records: &mut CursorRecords)
    ensures
        final(records)@ == with_records(old(records)@, trees(items@)),
    decreases trees(items@),
{
    let ghost all = trees(items@);
    let ghost start = records@;
    let mut i: usize = 0;
    assert(all.take(0) =~= Seq::<JsonTree>::empty());
    while i < items.len()
        invariant
            i <= items@.len(),
            all == trees(items@),
            records@ == with_records(start, all.take(i as int)),
        decreases items@.len() - i,
    {
        assert(all.take(i + 1).drop_last() =~= all.take(i as int));
        assert(decreases_to!(all => all[i as int]));
        collect_cursor_records(&items[i], records);
        i += 1;
    }
    assert(all.take(i as int) =~= all);
}

/// The first title and the first time of creation that are told stay, whatever records
/// come after, no record tells a directory, and no message is lost.
pub proof fn law_records_only_add(records: RecordsView, value: JsonTree)
    ensures
        records.title.len() > 0 ==> with_record(records, value).title == records.title,
        records.created_at is Some ==> with_record(records, value).created_at
            == records.created_at,
        with_record(records, value).directory == records.directory,
        records.messages.is_prefix_of(with_record(records, value).messages),
    decreases value,
{
    lemma_list_is_smaller(value, "messages"@);
    lemma_list_is_smaller(value, "conversation"@);
    let titled = with_title(records, value);
    let inner = match list_of(member(value, "messages"@)) {
        Some(items) => with_records(titled, items),
        None => titled,
    };
    if let Some(items) = list_of(member(value, "messages"@)) {
        lemma_lists_only_add(titled, items);
    }
    if let Some(items) = list_of(member(value, "conversation"@)) {
        lemma_lists_only_add(inner, items);
    }
}

proof fn lemma_lists_only_add(records: RecordsView, items: Seq<JsonTree>)
    ensures
        records.title.len() > 0 ==> with_records(records, items).title == records.title,
        records.created_at is Some ==> with_records(records, items).created_at
            == records.created_at,
        with_records(records, items).directory == records.directory,
        records.messages.is_prefix_of(with_records(records, items).messages),
    decreases items,
{
    if items.len() > 0 {
        lemma_lists_only_add(records, items.drop_last());
        law_records_only_add(with_records(records, items.drop_last()), items.last());
    }
}

/// What a user said, in the plain encoding: the message, a dollar sign and an id.
pub open spec fn plain_message(bytes: Seq<u8>) -> Option<Seq<char>> {
    match utf8_text(bytes) {
        Some(text) => {
            let record = trimmed(trim_both(text, CharClass::Nul));
            match last_index(record, '$', record.len() as int) {
                Some(dollar) => {
                    let content = record.take(dollar);
                    let id = trim_both(record.skip(dollar + 1), CharClass::ControlOrWhiteSpace);
                    if trimmed(content).len() == 0 || encode_utf8(id).len() < 8 || !id.contains(
                        '-',
                    ) {
                        None
                    } else {
                        Some(trimmed(trim_both(content, CharClass::Control)))
                    }
                },
                None => None,
            }
        },
        None => None,
    }
}

/// What a user said, in the plain encoding.
pub fn cursor_plain_user_message(bytes: &[u8]) -> (message: Option<String>)
    ensures
        text_view(message) == plain_message(bytes@),
{
    let text = match text_from_utf8(bytes) {
        Some(text) => text,
        None => return None,
    };
    let record = trim(trim_matches(text.as_str(), CharClass::Nul).as_str());
    let chars = chars_of(record.as_str());
    let size = chars.len();
    let dollar = match find_last(chars.as_slice(), '$') {
        Some(dollar) => dollar,
        None => return None,
    };
    let content = string_of(chars.as_slice(), 0, dollar);
    let rest = string_of(chars.as_slice(), dollar + 1, size);
    assert(content@ =~= record@.take(dollar as int));
    assert(rest@ =~= record@.skip(dollar + 1));
    let id = trim_matches(rest.as_str(), CharClass::ControlOrWhiteSpace);
    let id_chars = chars_of(id.as_str());
    if trim(content.as_str()).as_str().is_empty() || id.as_str().as_bytes().len() < 8
        || !contains_char(id_chars.as_slice(), '-') {
        return None;
    }
    Some(trim(trim_matches(content.as_str(), CharClass::Control).as_str()))
}

pub open spec fn has_clean_ends(text: Seq<char>) -> bool {
    text.len() > 0 && !CharClass::ControlOrWhiteSpace.has(text[0])
        && !CharClass::ControlOrWhiteSpace.has(text.last())
}

/// A message in the plain encoding is read back, also one with dollar signs in it.
pub proof fn law_plain_message_read_back(message: Seq<char>, id: Seq<char>)
    requires
        has_clean_ends(message),
        has_clean_ends(id),
        !id.contains('$'),
        id.contains('-'),
        encode_utf8(id).len() >= 8,
    ensures
        plain_message(encode_utf8(message + seq!['$'] + id)) == Some(message),
{
    let record = message + seq!['$'] + id;
    encode_utf8_valid_utf8(record);
    encode_utf8_decode_utf8(record);
    lemma_trim_nothing(record, CharClass::Nul);
    lemma_trim_nothing(record, CharClass::WhiteSpace);
    lemma_last_index(record, '$', record.len() as int);
    let dollar = message.len() as int;
    assert(record[dollar] == '$');
    assert forall|i: int| dollar < i < record.len() implies record[i] != '$' by {
        assert(record[i] == id[i - dollar - 1]);
    }
    assert(last_index(record, '$', record.len() as int) == Some(dollar));
    assert(record.take(dollar) =~= message);
    assert(record.skip(dollar + 1) =~= id);
    lemma_trim_nothing(id, CharClass::ControlOrWhiteSpace);
    lemma_trim_nothing(message, CharClass::WhiteSpace);
    lemma_trim_nothing(message, CharClass::Control);
}

/// Bytes that are a document are read as that, and bytes without a pair of braces that
/// are none hold none.
pub proof fn law_whole_document_is_read(bytes: Seq<u8>)
    ensures
        parsed_json(bytes) is Some ==> decoded_json(bytes) == parsed_json(bytes),
        parsed_json(bytes) is None && (!bytes.contains(0x7bu8) || !bytes.contains(0x7du8))
            ==> decoded_json(bytes) is None,
{
    lemma_found_byte(bytes, 0x7b, 0);
    lemma_found_last_byte(bytes, 0x7d, bytes.len() as int);
}

proof fn lemma_found_byte(bytes: Seq<u8>, byte: u8, from: int)
    requires
        0 <= from,
    ensures
        first_byte(bytes, byte, from) is Some ==> bytes.contains(byte),
    decreases bytes.len() - from,
{
    if from < bytes.len() && bytes[from] != byte {
        lemma_found_byte(bytes, byte, from + 1);
    }
}

proof fn lemma_found_last_byte(bytes: Seq<u8>, byte: u8, end: int)
    requires
        end <= bytes.len(),
    ensures
        last_byte(bytes, byte, end) is Some ==> bytes.contains(byte),
    decreases end,
{
    if end > 0 && bytes[end - 1] != byte {
        lemma_found_last_byte(bytes, byte, end - 1);
    }
}

/// A text names an instant as RFC 3339 has it; a number above a hundred thousand million
/// counts milliseconds, and any other seconds. A number that is no integer is cut off.
pub proof fn law_value_instant(text: Seq<char>, integer: Option<i64>, truncated: Option<i64>)
    ensures
        value_instant(Some(JsonTree::Text(text))) == rfc3339_instant(text),
        ({
            let instant = value_instant(Some(JsonTree::Number { integer, truncated }));
            let number = if integer is Some {
                integer
            } else {
                truncated
            };
            &&& number is None ==> instant is None
            &&& number is Some && number->0 > 100_000_000_000 ==> instant == millis_instant(
                number->0,
            )
            &&& number is Some && MIN_SECONDS <= number->0 <= 100_000_000_000 ==> instant
                == Some(Timestamp { seconds: number->0, nanos: 0 })
        }),
        value_instant(None) is None,
        value_instant(Some(JsonTree::Null)) is None,
{
}

/// A title, or a directory, that is there stays; otherwise it is the text of the first
/// member, or of the second where there is no first.
pub proof fn law_filled_text(
    current: Seq<char>,
    value: JsonTree,
    first: Seq<char>,
    second: Seq<char>,
)
    ensures
        current.len() > 0 ==> filled_text(current, value, first, second) == current,
        current.len() == 0 && member(value, first) is Some ==> filled_text(
            current,
            value,
            first,
            second,
        ) == text_field(value, first),
        current.len() == 0 && member(value, first) is None ==> filled_text(
            current,
            value,
            first,
            second,
        ) == text_field(value, second),
{
}

/// Metadata fill what is not told yet: the title by a name, the directory by where the
/// chat works, and the time of creation; they add no message.
pub proof fn law_metadata_fill_what_is_missing(records: RecordsView, value: JsonTree)
    ensures
        ({
            let told = with_metadata(records, value);
            &&& told.messages == records.messages
            &&& records.title.len() > 0 ==> told.title == records.title
            &&& records.title.len() == 0 && member(value, "name"@) is Some ==> told.title
                == text_field(value, "name"@)
            &&& records.title.len() == 0 && member(value, "name"@) is None ==> told.title
                == text_field(value, "title"@)
            &&& records.directory.len() > 0 ==> told.directory == records.directory
            &&& records.directory.len() == 0 && member(value, "cwd"@) is Some ==> told.directory
                == text_field(value, "cwd"@)
            &&& records.directory.len() == 0 && member(value, "cwd"@) is None ==> told.directory
                == text_field(value, "workspace"@)
            &&& records.created_at is Some ==> told.created_at == records.created_at
            &&& records.created_at is None ==> told.created_at == value_instant(
                member(value, "createdAt"@),
            )
        }),
{
}

/// The role of a record tells who speaks; only where it names neither the user nor the
/// assistant does the kind of the record tell.
pub proof fn law_role_counts_before_kind(value: JsonTree)
    ensures
        text_field(value, "role"@) == "user"@ ==> speaker(value) == Some(true),
        text_field(value, "role"@) == "assistant"@ ==> speaker(value) == Some(false),
        text_field(value, "role"@) != "user"@ && text_field(value, "role"@) != "assistant"@ ==> {
            let kind = member(value, "type"@);
            &&& speaker(value) == Some(true) <==> (kind matches Some(tree) && (tree_i64(tree)
                == Some(1i64) || tree_text(tree) == Some("user"@)))
            &&& speaker(value) == Some(false) <==> (kind matches Some(tree) && (tree_i64(tree)
                == Some(2i64) || tree_text(tree) == Some("ai"@) || tree_text(tree) == Some(
                "assistant"@,
            )))
        },
{
    reveal_strlit("user");
    reveal_strlit("assistant");
    reveal_strlit("ai");
    assert("user"@.len() == 4 && "assistant"@.len() == 9 && "ai"@.len() == 2);
}

/// What is said in a record is its text; only where it has none is it the content, as a
/// whole or in lines.
pub proof fn law_text_counts_before_content(value: JsonTree)
    ensures
        member(value, "text"@) matches Some(JsonTree::Text(text)) ==> record_text(value) == text,
        !(member(value, "text"@) matches Some(JsonTree::Text(_))) ==> match member(
            value,
            "content"@,
        ) {
            Some(JsonTree::Text(text)) => record_text(value) == text,
            Some(JsonTree::List(parts)) => record_text(value) == joined(
                part_texts(parts),
                seq!['\n'],
            ),
            _ => record_text(value).len() == 0,
        },
{
    reveal_strlit("\n");
    assert("\n"@ =~= seq!['\n']);
}

/// The parts of a content say their texts in order; a part without a text is one line
/// less.
pub proof fn law_parts_are_lines(left: Seq<JsonTree>, right: Seq<JsonTree>)
    ensures
        part_texts(left + right) == part_texts(left) + part_texts(right),
        left.len() == 1 ==> match (member(left[0], "text"@), member(left[0], "data"@)) {
            (Some(JsonTree::Text(text)), _) => part_texts(left) == seq![text],
            (None, Some(JsonTree::Text(text))) => part_texts(left) == seq![text],
            _ => part_texts(left).len() == 0,
        },
    decreases right.len(),
{
    reveal_with_fuel(part_texts, 2);
    let all = left + right;
    if right.len() == 0 {
        assert(all =~= left);
    } else {
        law_parts_are_lines(left, right.drop_last());
        assert(all.drop_last() =~= left + right.drop_last());
        assert(all.last() == right.last());
    }
    assert(part_texts(all) =~= part_texts(left) + part_texts(right));
    if left.len() == 1 {
        if let Some(text) = text_of(member_or(left[0], "text"@, "data"@)) {
            assert(part_texts(left) =~= seq![text]);
        }
    }
}

/// A record is a message exactly if someone speaks and says more than white space; it is
/// what is said, as it is written, at the time that the record tells.
pub proof fn law_record_is_a_message(value: JsonTree)
    ensures
        record_message(value) is Some <==> (speaker(value) is Some && trimmed(
            record_text(value),
        ).len() > 0),
        record_message(value) matches Some(message) ==> {
            &&& Some(message.user) == speaker(value)
            &&& message.text == record_text(value)
            &&& message.timestamp == value_instant(member(value, "timestamp"@))
        },
{
}

/// What a record tells does not depend on what was said before: its messages come behind
/// the others.
pub proof fn law_messages_come_behind(left: RecordsView, right: RecordsView, value: JsonTree)
    ensures
        ({
            let more = with_record(right, value).messages.skip(right.messages.len() as int);
            with_record(left, value).messages == left.messages + more
        }),
    decreases value, 1int,
{
    lemma_list_is_smaller(value, "messages"@);
    lemma_list_is_smaller(value, "conversation"@);
    let l = with_title(left, value);
    let r = with_title(right, value);
    let (l1, r1) = match list_of(member(value, "messages"@)) {
        Some(items) => (with_records(l, items), with_records(r, items)),
        None => (l, r),
    };
    if let Some(items) = list_of(member(value, "messages"@)) {
        lemma_lists_come_behind(l, r, items);
        lemma_lists_only_add(r, items);
    }
    let (l2, r2) = match list_of(member(value, "conversation"@)) {
        Some(items) => (with_records(l1, items), with_records(r1, items)),
        None => (l1, r1),
    };
    if let Some(items) = list_of(member(value, "conversation"@)) {
        lemma_lists_come_behind(l1, r1, items);
        lemma_lists_only_add(r1, items);
    }
    let more = with_record(right, value).messages.skip(right.messages.len() as int);
    law_records_only_add(right, value);
    assert(with_record(left, value).messages =~= left.messages + more);
}

proof fn lemma_lists_come_behind(left: RecordsView, right: RecordsView, items: Seq<JsonTree>)
    ensures
        ({
            let more = with_records(right, items).messages.skip(right.messages.len() as int);
            with_records(left, items).messages == left.messages + more
        }),
    decreases items, 0int,
{
    let more = with_records(right, items).messages.skip(right.messages.len() as int);
    if items.len() > 0 {
        let rest = items.drop_last();
        lemma_lists_come_behind(left, right, rest);
        lemma_lists_only_add(right, rest);
        let l = with_records(left, rest);
        let r = with_records(right, rest);
        law_messages_come_behind(l, r, items.last());
        law_records_only_add(r, items.last());
    }
    assert(with_records(left, items).messages =~= left.messages + more);
}

/// The messages inside a record come before the message that it is, those of `messages`
/// before those of `conversation`; a record with neither adds at most its own.
pub proof fn law_inner_messages_come_first(records: RecordsView, value: JsonTree)
    ensures
        ({
            let none = Seq::<JsonTree>::empty();
            let first = match list_of(member(value, "messages"@)) {
                Some(items) => items,
                None => none,
            };
            let second = match list_of(member(value, "conversation"@)) {
                Some(items) => items,
                None => none,
            };
            let inner = with_records(with_records(with_title(records, value), first), second);
            match record_message(value) {
                Some(message) => with_record(records, value).messages == inner.messages.push(
                    message,
                ),
                None => with_record(records, value).messages == inner.messages,
            }
        }),
{
}

/// Records are told one after the other.
pub proof fn law_records_are_told_in_order(
    records: RecordsView,
    left: Seq<JsonTree>,
    right: Seq<JsonTree>,
)
    ensures
        with_records(records, left + right) == with_records(with_records(records, left), right),
        with_records(records, seq![]) == records,
        left.len() == 1 ==> with_records(records, left) == with_record(records, left[0]),
    decreases right.len(),
{
    reveal_with_fuel(with_records, 2);
    let all = left + right;
    if left.len() == 1 {
        assert(left.drop_last() =~= Seq::<JsonTree>::empty());
    }
    if right.len() == 0 {
        assert(all =~= left);
    } else {
        law_records_are_told_in_order(records, left, right.drop_last());
        assert(all.drop_last() =~= left + right.drop_last());
        assert(all.last() == right.last());
    }
}

/// The title of a record itself comes before those of the records inside it.
pub proof fn law_outer_title_comes_first(records: RecordsView, value: JsonTree)
    ensures
        records.title.len() == 0 && text_field(value, "name"@).len() > 0 ==> with_record(
            records,
            value,
        ).title == text_field(value, "name"@),
        records.title.len() == 0 && member(value, "name"@) is None && text_field(
            value,
            "title"@,
        ).len() > 0 ==> with_record(records, value).title == text_field(value, "title"@),
        records.created_at is None && value_instant(member(value, "createdAt"@)) is Some
            ==> with_record(records, value).created_at == value_instant(
            member(value, "createdAt"@),
        ),
{
    let titled = with_title(records, value);
    let inner = match list_of(member(value, "messages"@)) {
        Some(items) => with_records(titled, items),
        None => titled,
    };
    if let Some(items) = list_of(member(value, "messages"@)) {
        lemma_lists_only_add(titled, items);
    }
    if let Some(items) = list_of(member(value, "conversation"@)) {
        lemma_lists_only_add(inner, items);
    }
}

/// Text without a dollar sign is no plain message, nor is one whose id, behind the last
/// dollar sign, is short or has no hyphen, nor one that says nothing.
pub proof fn law_other_texts_are_no_messages(message: Seq<char>, id: Seq<char>, text: Seq<char>)
    requires
        has_clean_ends(text),
        has_clean_ends(message),
        has_clean_ends(id),
        !id.contains('$'),
    ensures
        !text.contains('$') ==> plain_message(encode_utf8(text)) is None,
        !id.contains('-') || encode_utf8(id).len() < 8 ==> plain_message(
            encode_utf8(message + seq!['$'] + id),
        ) is None,
        plain_message(encode_utf8(seq!['$'] + id)) is None,
{
    encode_utf8_valid_utf8(text);
    encode_utf8_decode_utf8(text);
    lemma_trim_nothing(text, CharClass::Nul);
    lemma_trim_nothing(text, CharClass::WhiteSpace);
    lemma_last_index(text, '$', text.len() as int);
    lemma_plain_parts(message, id);
    lemma_plain_parts(seq![], id);
    assert(Seq::<char>::empty() + seq!['$'] + id =~= seq!['$'] + id);
}

proof fn lemma_plain_parts(message: Seq<char>, id: Seq<char>)
    requires
        message.len() == 0 || has_clean_ends(message),
        has_clean_ends(id),
        !id.contains('$'),
    ensures
        ({
            let record = message + seq!['$'] + id;
            &&& utf8_text(encode_utf8(record)) == Some(record)
            &&& trimmed(trim_both(record, CharClass::Nul)) == record
            &&& last_index(record, '$', record.len() as int) == Some(message.len() as int)
            &&& record.take(message.len() as int) == message
            &&& trim_both(record.skip(message.len() as int + 1), CharClass::ControlOrWhiteSpace) == id
        }),
{
    let record = message + seq!['$'] + id;
    encode_utf8_valid_utf8(record);
    encode_utf8_decode_utf8(record);
    assert(record.last() == id.last());
    assert(record[0] == if message.len() > 0 {
        message[0]
    } else {
        '$'
    });
    lemma_trim_nothing(record, CharClass::Nul);
    lemma_trim_nothing(record, CharClass::WhiteSpace);
    lemma_last_index(record, '$', record.len() as int);
    let dollar = message.len() as int;
    assert(record[dollar] == '$');
    assert forall|i: int| dollar < i < record.len() implies record[i] != '$' by {
        assert(record[i] == id[i - dollar - 1]);
    }
    assert(record.take(dollar) =~= message);
    assert(record.skip(dollar + 1) =~= id);
    lemma_trim_nothing(id, CharClass::ControlOrWhiteSpace);
}

/// Zero bytes around a plain message make no difference.
pub proof fn law_zeros_around_a_message(before: Seq<char>, text: Seq<char>, after: Seq<char>)
    requires
        forall|i: int| 0 <= i < before.len() ==> #[trigger] before[i] == '\0',
        forall|i: int| 0 <= i < after.len() ==> #[trigger] after[i] == '\0',
    ensures
        plain_message(encode_utf8(before + text + after)) == plain_message(encode_utf8(text)),
{
    encode_utf8_valid_utf8(text);
    encode_utf8_decode_utf8(text);
    encode_utf8_valid_utf8(before + text + after);
    encode_utf8_decode_utf8(before + text + after);
    law_padding_is_trimmed(before, text, after, CharClass::Nul);
}

/// White space around a record with a plain message makes no difference, nor do control
/// characters around the message and around the id.
pub proof fn law_controls_around_a_message(
    before: Seq<char>,
    message: Seq<char>,
    after: Seq<char>,
    padding: Seq<char>,
    id: Seq<char>,
)
    requires
        has_clean_ends(message),
        has_clean_ends(id),
        !id.contains('$'),
        id.contains('-'),
        encode_utf8(id).len() >= 8,
        forall|i: int|
            0 <= i < before.len() ==> is_control(#[trigger] before[i]) && !is_white_space(before[i])
                && before[i] != '\0',
        forall|i: int| 0 <= i < after.len() ==> is_control(#[trigger] after[i]),
        forall|i: int|
            0 <= i < padding.len() ==> is_control(#[trigger] padding[i]) || is_white_space(
                padding[i],
            ),
    ensures
        plain_message(
            encode_utf8(
                seq![' '] + (before + message + after + seq!['$'] + padding + id) + seq!['\n'],
            ),
        ) == Some(message),
{
    let record = before + message + after + seq!['$'] + padding + id;
    let text = seq![' '] + record + seq!['\n'];
    encode_utf8_valid_utf8(text);
    encode_utf8_decode_utf8(text);
    lemma_trim_nothing(text, CharClass::Nul);
    law_padding_is_trimmed(seq![' '], record, seq!['\n'], CharClass::WhiteSpace);
    let first = if before.len() > 0 {
        before[0]
    } else {
        message[0]
    };
    assert(record[0] == first);
    assert(record.last() == id.last());
    lemma_trim_nothing(record, CharClass::WhiteSpace);
    lemma_last_index(record, '$', record.len() as int);
    let content = before + message + after;
    let dollar = content.len() as int;
    assert(record[dollar] == '$');
    assert forall|i: int| dollar < i < record.len() implies record[i] != '$' by {
        if i <= dollar + padding.len() {
            assert(record[i] == padding[i - dollar - 1]);
            law_character_classes(record[i]);
        } else {
            assert(record[i] == id[i - dollar - 1 - padding.len()]);
        }
    }
    assert(last_index(record, '$', record.len() as int) == Some(dollar));
    assert(record.take(dollar) =~= content);
    assert(record.skip(dollar + 1) =~= padding + id + Seq::<char>::empty());
    law_padding_is_trimmed(padding, id, seq![], CharClass::ControlOrWhiteSpace);
    lemma_trim_nothing(id, CharClass::ControlOrWhiteSpace);
    law_padding_is_trimmed(before, message, after, CharClass::Control);
    lemma_trim_nothing(message, CharClass::Control);
    lemma_trim_nothing(message, CharClass::WhiteSpace);
    law_only_blanks_are_trimmed_away(content);
    assert(content[before.len() as int] == message[0]);
    assert(!is_white_space(content[before.len() as int]));
}

} // verus!
