//! The session that the document of a chat makes.

use vstd::prelude::*;

use crate::adapters::copilot_vscode::files::{document_id, VscodeSessionFile};
use crate::adapters::shared::FileNameView;
use crate::json::{
    list_of, member, member_or, string_at, string_field, text_at, text_field, tree_i64, trees, Json,
    JsonTree,
};
use crate::model::{
    law_long_title_is_cut, render, rendered, session_view, truncate_title, truncated, Session,
    SessionView, TurnView, TITLE_LENGTH,
};
use crate::text::{
    join, joined, law_prefix_is_stripped, law_trim_twice, occurs_at, strip_repeated, texts, trim,
    trim_start_matches, trimmed, CharClass,
};
use crate::time::{millis_instant, timestamp_from_ms, Timestamp};

verus! {

/// What the user says in a request.
pub open spec fn request_text(request: JsonTree) -> Seq<char> {
    text_at(request, seq!["message"@, "text"@])
}

/// What the parts of a response say. Empty parts say nothing.
pub open spec fn response_texts(parts: Seq<JsonTree>) -> Seq<Seq<char>>
    decreases parts.len(),
{
    if parts.len() == 0 {
        seq![]
    } else {
        let before = response_texts(parts.drop_last());
        let text = text_field(parts.last(), "value"@);
        if text.len() > 0 {
            before.push(text)
        } else {
            before
        }
    }
}

/// What is said in response to a request.
pub open spec fn request_responses(request: JsonTree) -> Seq<Seq<char>> {
    match list_of(member(request, "response"@)) {
        Some(parts) => response_texts(parts),
        None => seq![],
    }
}

/// A message as it is shown.
pub open spec fn shown(user: bool, text: Seq<char>) -> Seq<char> {
    rendered(TurnView { user, text, timestamp: None })
}

/// The messages of a request: what the user says, then the responses.
pub open spec fn request_messages(request: JsonTree) -> Seq<Seq<char>> {
    let responses = request_responses(request).map_values(|text: Seq<char>| shown(false, text));
    if request_text(request).len() > 0 {
        seq![shown(true, request_text(request))] + responses
    } else {
        responses
    }
}

/// How many turns a request makes: one of the user, and one for all responses.
pub open spec fn request_turns(request: JsonTree) -> nat {
    (if request_text(request).len() > 0 {
        1nat
    } else {
        0nat
    }) + (if request_responses(request).len() > 0 {
        1nat
    } else {
        0nat
    })
}

/// The messages of all requests, in order.
pub open spec fn all_messages(requests: Seq<JsonTree>) -> Seq<Seq<char>>
    decreases requests.len(),
{
    if requests.len() == 0 {
        seq![]
    } else {
        all_messages(requests.drop_last()) + request_messages(requests.last())
    }
}

/// How many turns all requests make.
pub open spec fn all_turns(requests: Seq<JsonTree>) -> nat
    decreases requests.len(),
{
    if requests.len() == 0 {
        0
    } else {
        all_turns(requests.drop_last()) + request_turns(requests.last())
    }
}

/// There are never more turns than messages.
pub proof fn law_turns_are_shown(requests: Seq<JsonTree>)
    ensures
        all_turns(requests) <= all_messages(requests).len(),
        all_turns(requests) == 0 <==> all_messages(requests).len() == 0,
    decreases requests.len(),
{
    if requests.len() > 0 {
        law_turns_are_shown(requests.drop_last());
    }
}

fn push_responses(messages: &mut Vec<String>, parts: &Vec<Json>) -> (any: bool)
    ensures
        texts(final(messages)@) == texts(old(messages)@) + response_texts(
            trees(parts@),
        ).map_values(|text: Seq<char>| shown(false, text)),
        any == (response_texts(trees(parts@)).len() > 0),
{
    let ghost start = texts(messages@);
    let ghost all = trees(parts@);
    let mut any = false;
    let mut i: usize = 0;
    assert(start =~= start + Seq::<Seq<char>>::empty());
    assert(response_texts(all.take(0)).map_values(|text: Seq<char>| shown(false, text)) =~= Seq::<
        Seq<char>,
    >::empty());
    while i < parts.len()
        invariant
            i <= parts@.len(),
            all == trees(parts@),
            texts(messages@) == start + response_texts(all.take(i as int)).map_values(
                |text: Seq<char>| shown(false, text),
            ),
            any == (response_texts(all.take(i as int)).len() > 0),
        decreases parts@.len() - i,
    {
        let ghost before = messages@;
        let ghost said = response_texts(all.take(i as int));
        assert(all.take(i + 1).drop_last() =~= all.take(i as int));
        let value = string_field(&parts[i], "value");
        if !value.as_str().is_empty() {
            messages.push(render(false, value.as_str()));
            any = true;
            assert(texts(messages@) =~= texts(before).push(shown(false, value@)));
            assert(said.push(value@).map_values(|text: Seq<char>| shown(false, text))
                =~= said.map_values(|text: Seq<char>| shown(false, text)).push(
                shown(false, value@),
            ));
            assert(start + said.push(value@).map_values(|text: Seq<char>| shown(false, text))
                =~= (start + said.map_values(|text: Seq<char>| shown(false, text))).push(
                shown(false, value@),
            ));
        }
        i += 1;
    }
    assert(all.take(i as int) =~= all);
    any
}

/// Adds the messages of a request, and tells how many turns they make.
fn push_request(messages: &mut Vec<String>, request: &Json) -> (turns: usize)
    ensures
        texts(final(messages)@) == texts(old(messages)@) + request_messages(request@),
        turns == request_turns(request@),
{
    let ghost start = texts(messages@);
    let keys = ["message", "text"];
    assert(keys@.map_values(|key: &str| key@) =~= seq!["message"@, "text"@]);
    let mut turns: usize = 0;
    let user_text = string_at(request, &keys);
    if !user_text.as_str().is_empty() {
        let ghost before = messages@;
        messages.push(render(true, user_text.as_str()));
        turns += 1;
        assert(texts(messages@) =~= start + seq![shown(true, user_text@)]);
    }
    let ghost after_user = texts(messages@);
    let mut answered = false;
    if let Some(response) = request.get("response") {
        if let Some(parts) = response.as_array() {
            answered = push_responses(messages, parts);
        }
    }
    if answered {
        turns += 1;
    }
    proof {
        let responses = request_responses(request@).map_values(
            |text: Seq<char>| shown(false, text),
        );
        assert(texts(messages@) =~= after_user + responses);
        assert(texts(messages@) =~= start + request_messages(request@));
    }
    turns
}

/// The messages of all requests, and how many turns they make.
pub fn collect_messages(requests: &Vec<Json>) -> (found: (Vec<String>, usize))
    ensures
        texts(found.0@) == all_messages(trees(requests@)),
        found.1 == all_turns(trees(requests@)),
{
    let ghost all = trees(requests@);
    let mut messages: Vec<String> = Vec::new();
    let mut turns: usize = 0;
    let mut i: usize = 0;
    assert(texts(messages@) =~= Seq::<Seq<char>>::empty());
    while i < requests.len()
        invariant
            i <= requests@.len(),
            all == trees(requests@),
            texts(messages@) == all_messages(all.take(i as int)),
            turns == all_turns(all.take(i as int)),
        decreases requests@.len() - i,
    {
        assert(all.take(i + 1).drop_last() =~= all.take(i as int));
        let made = push_request(&mut messages, &requests[i]);
        proof {
            law_turns_are_shown(all.take(i + 1));
        }
        assert(messages.len() == texts(messages@).len());
        turns += made;
        i += 1;
    }
    assert(all.take(i as int) =~= all);
    (messages, turns)
}

/// The title of a chat: the one it was given, or else its first message.
pub open spec fn chat_title(data: JsonTree, first: Seq<char>) -> Seq<char> {
    let given = text_field(data, "customTitle"@);
    if given.len() > 0 {
        given
    } else {
        truncated(trimmed(strip_repeated(first, "» "@)), TITLE_LENGTH as nat, true)
    }
}

/// When a chat last changed, as far as its document tells.
pub open spec fn chat_instant(data: JsonTree) -> Option<Timestamp> {
    match member_or(data, "lastMessageDate"@, "creationDate"@) {
        Some(date) => match tree_i64(date) {
            Some(millis) => millis_instant(millis),
            None => None,
        },
        None => None,
    }
}

/// The requests of a chat.
pub open spec fn chat_requests(data: JsonTree) -> Option<Seq<JsonTree>> {
    list_of(member(data, "requests"@))
}

/// The session of a chat that belongs to `directory`, if anything is said in it.
pub open spec fn chat_session(
    name: FileNameView,
    data: JsonTree,
    directory: Seq<char>,
    written: Timestamp,
    mtime: u64,
) -> Option<SessionView> {
    match (document_id(name, data), chat_requests(data)) {
        (Some(id), Some(requests)) => {
            let messages = all_messages(requests);
            if messages.len() == 0 {
                None
            } else {
                Some(
                    SessionView {
                        id,
                        agent: "copilot-vscode"@,
                        title: chat_title(data, messages[0]),
                        directory,
                        timestamp: match chat_instant(data) {
                            Some(instant) => instant,
                            None => written,
                        },
                        content: joined(messages, "\n\n"@),
                        message_count: all_turns(requests),
                        mtime,
                    },
                )
            }
        },
        _ => None,
    }
}

/// When a chat last changed, as far as its document tells.
pub fn find_chat_instant(data: &Json) -> (instant: Option<Timestamp>)
    ensures
        instant == chat_instant(data@),
{
    let millis = match data.get_or("lastMessageDate", "creationDate") {
        Some(date) => date.as_i64(),
        None => None,
    };
    timestamp_from_ms(millis)
}

/// The session of a chat that belongs to `directory`.
pub fn session_from_chat(
    file: &VscodeSessionFile,
    data: &Json,
    directory: String,
    written: Timestamp,
    mtime: u64,
) -> (session: Option<Session>)
    ensures
        session_view(session) == chat_session(file.name@, data@, directory@, written, mtime),
{
    let id = match file.session_id(data) {
        Some(id) => id,
        None => return None,
    };
    let requests = match data.get("requests") {
        Some(value) => match value.as_array() {
            Some(requests) => requests,
            None => return None,
        },
        None => return None,
    };
    let (messages, turns) = collect_messages(requests);
    assert(texts(messages@).len() == messages@.len());
    if messages.len() == 0 {
        return None;
    }
    let mut title = string_field(data, "customTitle");
    if title.as_str().is_empty() {
        let first = trim_start_matches(messages[0].as_str(), "» ");
        title = truncate_title(trim(first.as_str()).as_str(), TITLE_LENGTH, true);
    }
    let timestamp = match find_chat_instant(data) {
        Some(instant) => instant,
        None => written,
    };
    let content = join(&messages, "\n\n");
    let mut session = Session::new(
        id,
        "copilot-vscode",
        title,
        directory,
        timestamp,
        content,
        turns,
    );
    session.mtime = mtime;
    Some(session)
}

/// A chat without a title of its own is titled by its first message, without the mark of
/// the user and the white space around it: in full where that is short, or else by its
/// beginning, cut at a space, and three dots. A title of its own stays as it is.
pub proof fn law_first_message_titles_the_chat(
    name: FileNameView,
    data: JsonTree,
    directory: Seq<char>,
    written: Timestamp,
    mtime: u64,
)
    ensures
        chat_session(name, data, directory, written, mtime) matches Some(session) ==> {
            let first = all_messages(chat_requests(data)->0)[0];
            let prompt = trimmed(strip_repeated(first, seq!['»', ' ']));
            let cut = session.title.len() - 3;
            if text_field(data, "customTitle"@).len() > 0 {
                session.title == text_field(data, "customTitle"@)
            } else if prompt.len() <= 100 {
                session.title == prompt
            } else {
                &&& 0 <= cut <= 100
                &&& session.title.take(cut) == prompt.take(cut)
                &&& session.title[cut] == '.' && session.title[cut + 1] == '.'
                    && session.title[cut + 2] == '.'
                &&& cut < 100 ==> prompt[cut] == ' '
            }
        },
{
    reveal_strlit("» ");
    assert("» "@ =~= seq!['»', ' ']);
    if chat_session(name, data, directory, written, mtime) is Some {
        let first = all_messages(chat_requests(data)->0)[0];
        let stripped = strip_repeated(first, "» "@);
        let prompt = trimmed(stripped);
        law_trim_twice(stripped, CharClass::WhiteSpace);
        if prompt.len() > 100 {
            law_long_title_is_cut(prompt, 100, true);
        }
    }
}

/// The title of a chat that begins with a request is what is asked for there: the mark of
/// the user does not show.
pub proof fn law_mark_does_not_title(text: Seq<char>)
    requires
        !occurs_at(text, seq!['»', ' '], 0),
    ensures
        strip_repeated(shown(true, text), seq!['»', ' ']) == text,
{
    reveal_strlit("» ");
    assert("» "@ =~= seq!['»', ' ']);
    law_prefix_is_stripped(text, seq!['»', ' ']);
}

/// A chat is listed exactly if it has an id and anything is said in it: with all messages
/// shown, an empty line between each two, when its document says it last changed, or else
/// when its file was written.
pub proof fn law_chat_tells_of_its_messages(
    name: FileNameView,
    data: JsonTree,
    directory: Seq<char>,
    written: Timestamp,
    mtime: u64,
)
    ensures
        chat_session(name, data, directory, written, mtime) is Some <==> (document_id(name, data)
            is Some && chat_requests(data) is Some && all_messages(chat_requests(data)->0).len()
            > 0),
        chat_session(name, data, directory, written, mtime) matches Some(session) ==> {
            &&& Some(session.id) == document_id(name, data)
            &&& session.directory == directory && session.mtime == mtime
            &&& session.content == joined(all_messages(chat_requests(data)->0), seq!['\n', '\n'])
            &&& session.message_count == all_turns(chat_requests(data)->0)
            &&& chat_instant(data) matches Some(instant) ==> session.timestamp == instant
            &&& chat_instant(data) is None ==> session.timestamp == written
        },
{
    reveal_strlit("\n\n");
    assert("\n\n"@ =~= seq!['\n', '\n']);
}

/// A chat last changed when its last message came, or was created where that is not
/// told; both are told in milliseconds.
pub proof fn law_last_message_times_the_chat(data: JsonTree)
    ensures
        member(data, "lastMessageDate"@) matches Some(date) ==> (tree_i64(date) matches Some(millis)
            ==> chat_instant(data) == millis_instant(millis)) && (tree_i64(date) is None
            ==> chat_instant(data) is None),
        member(data, "lastMessageDate"@) is None ==> (member(data, "creationDate"@) matches Some(
            date,
        ) ==> (tree_i64(date) matches Some(millis) ==> chat_instant(data) == millis_instant(millis))
            && (tree_i64(date) is None ==> chat_instant(data) is None)),
        member(data, "lastMessageDate"@) is None && member(data, "creationDate"@) is None
            ==> chat_instant(data) is None,
{
}

/// The requests of a chat are those that its document lists.
pub proof fn law_chat_requests(data: JsonTree)
    ensures
        member(data, "requests"@) matches Some(JsonTree::List(items)) ==> chat_requests(data)
            == Some(items),
        !(member(data, "requests"@) matches Some(JsonTree::List(_))) ==> chat_requests(data)
            is None,
{
}

/// What the user says in a request is the text of its message.
pub proof fn law_request_text(request: JsonTree)
    ensures
        member(request, "message"@) matches Some(message) ==> request_text(request) == text_field(
            message,
            "text"@,
        ),
        member(request, "message"@) is None ==> request_text(request).len() == 0,
{
    reveal_with_fuel(text_at, 3);
    let keys = seq!["message"@, "text"@];
    assert(keys.drop_first() =~= seq!["text"@]);
    assert(seq!["text"@].drop_first() =~= Seq::<Seq<char>>::empty());
}

/// The parts of a response that say anything are said in order.
pub proof fn law_parts_are_said_in_order(left: Seq<JsonTree>, right: Seq<JsonTree>)
    ensures
        response_texts(left + right) == response_texts(left) + response_texts(right),
        left.len() == 1 && text_field(left[0], "value"@).len() > 0 ==> response_texts(left) == seq![
            text_field(left[0], "value"@),
        ],
        left.len() == 1 && text_field(left[0], "value"@).len() == 0 ==> response_texts(left).len()
            == 0,
    decreases right.len(),
{
    reveal_with_fuel(response_texts, 2);
    let all = left + right;
    if right.len() == 0 {
        assert(all =~= left);
    } else {
        law_parts_are_said_in_order(left, right.drop_last());
        assert(all.drop_last() =~= left + right.drop_last());
        assert(all.last() == right.last());
    }
    assert(response_texts(all) =~= response_texts(left) + response_texts(right));
    if left.len() == 1 && text_field(left[0], "value"@).len() > 0 {
        assert(response_texts(left) =~= seq![text_field(left[0], "value"@)]);
    }
}

/// A request shows what the user says, if anything, and then each response; it makes a
/// turn for the user and one for the responses, however many there are.
pub proof fn law_request_shows_the_user_first(request: JsonTree)
    ensures
        ({
            let said = request_text(request);
            let responses = match list_of(member(request, "response"@)) {
                Some(parts) => response_texts(parts),
                None => seq![],
            };
            let messages = request_messages(request);
            let asked: int = if said.len() > 0 {
                1
            } else {
                0
            };
            &&& messages.len() == asked + responses.len()
            &&& said.len() > 0 ==> messages[0] == seq!['»', ' '] + said
            &&& forall|i: int|
                0 <= i < responses.len() ==> #[trigger] messages[asked + i] == seq![' ', ' ']
                    + responses[i]
            &&& request_turns(request) == asked + if responses.len() > 0 {
                1int
            } else {
                0
            }
        }),
{
    reveal_strlit("» ");
    reveal_strlit("  ");
    assert("» "@ =~= seq!['»', ' ']);
    assert("  "@ =~= seq![' ', ' ']);
}

/// The messages of a chat are those of its requests, in order, and so are its turns.
pub proof fn law_requests_are_shown_in_order(left: Seq<JsonTree>, right: Seq<JsonTree>)
    ensures
        all_messages(left + right) == all_messages(left) + all_messages(right),
        all_turns(left + right) == all_turns(left) + all_turns(right),
        left.len() == 1 ==> all_messages(left) == request_messages(left[0]) && all_turns(left)
            == request_turns(left[0]),
    decreases right.len(),
{
    reveal_with_fuel(all_messages, 2);
    reveal_with_fuel(all_turns, 2);
    let all = left + right;
    if right.len() == 0 {
        assert(all =~= left);
    } else {
        law_requests_are_shown_in_order(left, right.drop_last());
        assert(all.drop_last() =~= left + right.drop_last());
        assert(all.last() == right.last());
    }
    assert(all_messages(all) =~= all_messages(left) + all_messages(right));
    if left.len() == 1 {
        assert(all_messages(left) =~= request_messages(left[0]));
    }
}

} // verus!
