//! Transcripts of steps in lines of JSON.

use vstd::prelude::*;
use vstd::utf8::encode_utf8;

use crate::json::{parse_json, parsed_json, string_field, text_field, trees, Json, JsonTree};
use crate::model::{turn_views, Turn, TurnView};
use crate::text::{
    chars_of, find, find_chars, find_from, lemma_find_from, lemma_find_is_first, occurs_at,
    same_text, string_of, texts, trim, trim_range, trimmed, CharClass,
};
use crate::time::{parse_datetime, rfc3339_instant};

verus! {

/// The lesser of two places, where a missing one is behind all others.
pub open spec fn first_place(left: Option<int>, right: Option<int>, end: int) -> int {
    match (left, right) {
        (Some(l), Some(r)) => if l <= r {
            l
        } else {
            r
        },
        (Some(l), None) => l,
        (None, Some(r)) => r,
        (None, None) => end,
    }
}

/// What the user asked for: the marked request, if there is a marked one, or else
/// what precedes the metadata.
pub open spec fn user_request(content: Seq<char>) -> Seq<char> {
    let open = "<USER_REQUEST>"@;
    let unmarked = trimmed(
        content.take(
            first_place(
                find(content, "<ADDITIONAL_METADATA>"@),
                find(content, "<USER_SETTINGS_CHANGE>"@),
                content.len() as int,
            ),
        ),
    );
    match find(content, open) {
        Some(at) => match find_from(content, "</USER_REQUEST>"@, at + open.len()) {
            Some(end) => trimmed(content.subrange(at + open.len(), end)),
            None => unmarked,
        },
        None => unmarked,
    }
}

/// What the user asked for, without markers, metadata and surrounding white space.
pub fn unwrap_user_request(content: &str) -> (request: String)
    ensures
        request@ == user_request(content@),
{
    let chars = chars_of(content);
    let open = chars_of("<USER_REQUEST>");
    let close = chars_of("</USER_REQUEST>");
    let hay = chars.as_slice();
    let size = hay.len();
    if let Some(at) = find_chars(hay, open.as_slice(), 0) {
        let start = at + open.len();
        if let Some(end) = find_chars(hay, close.as_slice(), start) {
            let (lo, hi) = trim_range(hay, start, end, CharClass::WhiteSpace);
            return string_of(hay, lo, hi);
        }
    }
    let metadata = chars_of("<ADDITIONAL_METADATA>");
    let settings = chars_of("<USER_SETTINGS_CHANGE>");
    let end = match (
        find_chars(hay, metadata.as_slice(), 0),
        find_chars(hay, settings.as_slice(), 0),
    ) {
        (Some(left), Some(right)) => if left <= right {
            left
        } else {
            right
        },
        (Some(left), None) => left,
        (None, Some(right)) => right,
        (None, None) => size,
    };
    assert(content@.take(end as int) =~= hay@.subrange(0, end as int));
    let (lo, hi) = trim_range(hay, 0, end, CharClass::WhiteSpace);
    string_of(hay, lo, hi)
}

/// A marked request is read back without its markers and without what stands around
/// them, as long as neither marker occurs earlier.
pub proof fn law_marked_request_is_unwrapped(
    before: Seq<char>,
    request: Seq<char>,
    after: Seq<char>,
)
    requires
        find(before + "<USER_REQUEST>"@, "<USER_REQUEST>"@) == Some(before.len() as int),
        find(request + "</USER_REQUEST>"@, "</USER_REQUEST>"@) == Some(request.len() as int),
    ensures
        user_request(before + "<USER_REQUEST>"@ + request + "</USER_REQUEST>"@ + after) == trimmed(
            request,
        ),
{
    let open = "<USER_REQUEST>"@;
    let close = "</USER_REQUEST>"@;
    let content = before + open + request + close + after;
    let at = before.len() as int;
    assert(content.subrange(at, at + open.len()) =~= open);
    lemma_find_from(before + open, open, 0);
    assert forall|j: int| 0 <= j < at implies !occurs_at(content, open, j) by {
        assert(content.subrange(j, j + open.len()) =~= (before + open).subrange(
            j,
            j + open.len(),
        ));
        assert(!occurs_at(before + open, open, j));
    }
    lemma_find_is_first(content, open, at);
    let start = at + open.len();
    let end = start + request.len();
    assert(content.subrange(end, end + close.len()) =~= close);
    lemma_find_from(content, close, start);
    lemma_find_from(request + close, close, 0);
    assert forall|j: int| start <= j < end implies !occurs_at(content, close, j) by {
        let k = j - start;
        assert(content.subrange(j, j + close.len()) =~= (request + close).subrange(
            k,
            k + close.len(),
        ));
        assert(!occurs_at(request + close, close, k));
    }
    assert(occurs_at(content, close, end));
    assert(find_from(content, close, start) == Some(end));
    assert(content.subrange(start, end) =~= request);
}

/// Content without a marked request and without metadata is only trimmed.
pub proof fn law_plain_request_is_trimmed(content: Seq<char>)
    requires
        find(content, "<USER_REQUEST>"@) is None,
        find(content, "<ADDITIONAL_METADATA>"@) is None,
        find(content, "<USER_SETTINGS_CHANGE>"@) is None,
    ensures
        user_request(content) == trimmed(content),
{
    assert(content.take(content.len() as int) =~= content);
}

/// Who speaks in a step of a transcript, and what is said. Steps of the machinery,
/// and empty ones, say nothing.
pub open spec fn step_speech(step: JsonTree) -> Option<(bool, Seq<char>)> {
    let source = text_field(step, "source"@);
    let kind = text_field(step, "type"@);
    let user = source == "USER_EXPLICIT"@ || source == "USER"@;
    let planner = source == "MODEL"@ && kind == "PLANNER_RESPONSE"@;
    let answer = trimmed(text_field(step, "content"@));
    let text = if user {
        user_request(text_field(step, "content"@))
    } else if answer.len() > 0 {
        answer
    } else {
        trimmed(text_field(step, "thinking"@))
    };
    if kind == "CONVERSATION_HISTORY"@ || kind == "EPHEMERAL_MESSAGE"@ {
        None
    } else if !user && !planner {
        None
    } else if text.len() == 0 {
        None
    } else {
        Some((user, text))
    }
}

/// Who speaks in a step of a transcript, and what is said.
pub fn transcript_step(step: &Json) -> (speech: Option<(bool, String)>)
    ensures
        match speech {
            Some((user, text)) => step_speech(step@) == Some((user, text@)),
            None => step_speech(step@) is None,
        },
{
    let source = string_field(step, "source");
    let kind = string_field(step, "type");
    if same_text(kind.as_str(), "CONVERSATION_HISTORY") || same_text(
        kind.as_str(),
        "EPHEMERAL_MESSAGE",
    ) {
        return None;
    }
    let user = same_text(source.as_str(), "USER_EXPLICIT") || same_text(source.as_str(), "USER");
    let planner = same_text(source.as_str(), "MODEL") && same_text(
        kind.as_str(),
        "PLANNER_RESPONSE",
    );
    if !user && !planner {
        return None;
    }
    let content = string_field(step, "content");
    let mut text: String;
    if user {
        text = unwrap_user_request(content.as_str());
    } else {
        text = trim(content.as_str());
        if text.as_str().is_empty() {
            text = trim(string_field(step, "thinking").as_str());
        }
    }
    if text.as_str().is_empty() {
        return None;
    }
    Some((user, text))
}

/// The turn that a step makes.
pub open spec fn step_turn(step: JsonTree) -> Option<TurnView> {
    match step_speech(step) {
        Some((user, text)) => Some(
            TurnView {
                user,
                text,
                timestamp: rfc3339_instant(text_field(step, "created_at"@)),
            },
        ),
        None => None,
    }
}

/// The turns that the steps of a transcript make, in order.
pub open spec fn transcript_turns(steps: Seq<JsonTree>) -> Seq<TurnView>
    decreases steps.len(),
{
    if steps.len() == 0 {
        seq![]
    } else {
        let before = transcript_turns(steps.drop_last());
        match step_turn(steps.last()) {
            Some(turn) => before.push(turn),
            None => before,
        }
    }
}

/// The turns that the steps of a transcript make, in order.
pub fn parse_transcript(steps: &Vec<Json>) -> (turns: Vec<Turn>)
    ensures
        turn_views(turns@) == transcript_turns(trees(steps@)),
{
    let mut turns: Vec<Turn> = Vec::new();
    let mut i: usize = 0;
    assert(turn_views(turns@) =~= Seq::<TurnView>::empty());
    while i < steps.len()
        invariant
            i <= steps@.len(),
            turn_views(turns@) == transcript_turns(trees(steps@).take(i as int)),
        decreases steps@.len() - i,
    {
        let ghost before = turns@;
        assert(trees(steps@).take(i + 1).drop_last() =~= trees(steps@).take(i as int));
        if let Some((user, text)) = transcript_step(&steps[i]) {
            let timestamp = parse_datetime(string_field(&steps[i], "created_at").as_str());
            let turn = Turn { user, text, timestamp };
            turns.push(turn);
            assert(turn_views(turns@) =~= turn_views(before).push(turn@));
        }
        i += 1;
    }
    assert(trees(steps@).take(i as int) =~= trees(steps@));
    turns
}

/// The documents that lines of text spell. Lines that are not JSON are left out.
pub open spec fn line_documents(lines: Seq<Seq<char>>) -> Seq<JsonTree>
    decreases lines.len(),
{
    if lines.len() == 0 {
        seq![]
    } else {
        let before = line_documents(lines.drop_last());
        match parsed_json(encode_utf8(lines.last())) {
            Some(document) => before.push(document),
            None => before,
        }
    }
}

/// The documents that lines of text spell.
pub fn parse_lines(lines: &Vec<String>) -> (documents: Vec<Json>)
    ensures
        trees(documents@) == line_documents(texts(lines@)),
{
    let mut documents: Vec<Json> = Vec::new();
    let mut i: usize = 0;
    assert(trees(documents@) =~= Seq::<JsonTree>::empty());
    while i < lines.len()
        invariant
            i <= lines@.len(),
            trees(documents@) == line_documents(texts(lines@).take(i as int)),
        decreases lines@.len() - i,
    {
        let ghost before = documents@;
        assert(texts(lines@).take(i + 1).drop_last() =~= texts(lines@).take(i as int));
        if let Some(document) = parse_json(lines[i].as_str().as_bytes()) {
            documents.push(document);
            assert(trees(documents@) =~= trees(before).push(document@));
        }
        i += 1;
    }
    assert(texts(lines@).take(i as int) =~= texts(lines@));
    documents
}

/// Where no request is marked from its beginning to its end, the user asked for what
/// precedes the first metadata, or for everything where there are none.
pub proof fn law_request_precedes_the_metadata(content: Seq<char>, end: int)
    requires
        forall|i: int, j: int|
            #[trigger] occurs_at(content, "<USER_REQUEST>"@, i) && #[trigger] occurs_at(
                content,
                "</USER_REQUEST>"@,
                j,
            ) ==> j < i + "<USER_REQUEST>"@.len(),
        0 <= end <= content.len(),
        end < content.len() ==> occurs_at(content, "<ADDITIONAL_METADATA>"@, end) || occurs_at(
            content,
            "<USER_SETTINGS_CHANGE>"@,
            end,
        ),
        forall|i: int|
            0 <= i < end ==> !#[trigger] occurs_at(content, "<ADDITIONAL_METADATA>"@, i)
                && !occurs_at(content, "<USER_SETTINGS_CHANGE>"@, i),
    ensures
        user_request(content) == trimmed(content.take(end)),
{
    let open = "<USER_REQUEST>"@;
    reveal_strlit("<ADDITIONAL_METADATA>");
    reveal_strlit("<USER_SETTINGS_CHANGE>");
    lemma_find_from(content, open, 0);
    if let Some(at) = find(content, open) {
        lemma_find_from(content, "</USER_REQUEST>"@, at + open.len());
    }
    lemma_find_from(content, "<ADDITIONAL_METADATA>"@, 0);
    lemma_find_from(content, "<USER_SETTINGS_CHANGE>"@, 0);
    if let Some(place) = find(content, "<USER_SETTINGS_CHANGE>"@) {
        if place < end {
            assert(!occurs_at(content, "<ADDITIONAL_METADATA>"@, place));
        }
    }
}

/// What the model answers is its content without the white space around it, whatever it
/// thinks; only where the content is blank is what it thinks said.
pub proof fn law_answer_comes_before_thinking(step: JsonTree)
    requires
        text_field(step, "source"@) == "MODEL"@,
        text_field(step, "type"@) == "PLANNER_RESPONSE"@,
    ensures
        trimmed(text_field(step, "content"@)).len() > 0 ==> step_speech(step) == Some(
            (false, trimmed(text_field(step, "content"@))),
        ),
        trimmed(text_field(step, "content"@)).len() == 0 && trimmed(
            text_field(step, "thinking"@),
        ).len() > 0 ==> step_speech(step) == Some((false, trimmed(text_field(step, "thinking"@)))),
        trimmed(text_field(step, "content"@)).len() == 0 && trimmed(
            text_field(step, "thinking"@),
        ).len() == 0 ==> step_speech(step) is None,
{
    reveal_strlit("MODEL");
    reveal_strlit("USER");
    reveal_strlit("USER_EXPLICIT");
    reveal_strlit("PLANNER_RESPONSE");
    reveal_strlit("CONVERSATION_HISTORY");
    reveal_strlit("EPHEMERAL_MESSAGE");
    assert("MODEL"@.len() == 5 && "USER"@.len() == 4 && "USER_EXPLICIT"@.len() == 13);
    assert("PLANNER_RESPONSE"@.len() == 16 && "CONVERSATION_HISTORY"@.len() == 20);
    assert("EPHEMERAL_MESSAGE"@.len() == 17);
}

/// A step of the user says what the user asked for, if that is anything, and nothing of
/// what is thought.
pub proof fn law_user_says_what_is_asked_for(step: JsonTree)
    requires
        text_field(step, "source"@) == "USER"@ || text_field(step, "source"@) == "USER_EXPLICIT"@,
        text_field(step, "type"@) != "CONVERSATION_HISTORY"@,
        text_field(step, "type"@) != "EPHEMERAL_MESSAGE"@,
    ensures
        match step_speech(step) {
            Some((user, text)) => user && text == user_request(text_field(step, "content"@))
                && text.len() > 0,
            None => user_request(text_field(step, "content"@)).len() == 0,
        },
{
}

/// Only the user and the planner of the model speak, and neither does in a step that
/// repeats the history or passes.
pub proof fn law_machinery_says_nothing(step: JsonTree)
    ensures
        step_speech(step) is Some ==> {
            &&& text_field(step, "type"@) != "CONVERSATION_HISTORY"@
            &&& text_field(step, "type"@) != "EPHEMERAL_MESSAGE"@
            &&& text_field(step, "source"@) == "USER"@ || text_field(step, "source"@)
                == "USER_EXPLICIT"@ || (text_field(step, "source"@) == "MODEL"@ && text_field(
                step,
                "type"@,
            ) == "PLANNER_RESPONSE"@)
        },
{
}

/// The turns of a transcript are those of its steps, in order: each step that says
/// something makes one, at the time at which it was made.
pub proof fn law_steps_make_turns_in_order(left: Seq<JsonTree>, right: Seq<JsonTree>)
    ensures
        transcript_turns(left + right) == transcript_turns(left) + transcript_turns(right),
        left.len() == 1 ==> match step_speech(left[0]) {
            Some((user, text)) => transcript_turns(left) == seq![
                TurnView {
                    user,
                    text,
                    timestamp: rfc3339_instant(text_field(left[0], "created_at"@)),
                },
            ],
            None => transcript_turns(left).len() == 0,
        },
    decreases right.len(),
{
    reveal_with_fuel(transcript_turns, 2);
    let all = left + right;
    if right.len() == 0 {
        assert(all =~= left);
    } else {
        law_steps_make_turns_in_order(left, right.drop_last());
        assert(all.drop_last() =~= left + right.drop_last());
        assert(all.last() == right.last());
    }
    assert(transcript_turns(all) =~= transcript_turns(left) + transcript_turns(right));
    if left.len() == 1 {
        if let Some((user, text)) = step_speech(left[0]) {
            assert(transcript_turns(left) =~= seq![
                TurnView {
                    user,
                    text,
                    timestamp: rfc3339_instant(text_field(left[0], "created_at"@)),
                },
            ]);
        }
    }
}

/// Lines that are JSON are read in order, and one that is not costs only itself.
pub proof fn law_lines_are_read_one_by_one(left: Seq<Seq<char>>, right: Seq<Seq<char>>)
    ensures
        line_documents(left + right) == line_documents(left) + line_documents(right),
        left.len() == 1 ==> match parsed_json(encode_utf8(left[0])) {
            Some(document) => line_documents(left) == seq![document],
            None => line_documents(left).len() == 0,
        },
    decreases right.len(),
{
    reveal_with_fuel(line_documents, 2);
    let all = left + right;
    if right.len() == 0 {
        assert(all =~= left);
    } else {
        law_lines_are_read_one_by_one(left, right.drop_last());
        assert(all.drop_last() =~= left + right.drop_last());
        assert(all.last() == right.last());
    }
    assert(line_documents(all) =~= line_documents(left) + line_documents(right));
    if left.len() == 1 {
        if let Some(document) = parsed_json(encode_utf8(left[0])) {
            assert(line_documents(left) =~= seq![document]);
        }
    }
}

} // verus!
