//! Sessions, and the turns that they are made of.

use vstd::prelude::*;

use crate::text::{
    chars_of, concat, join, joined, last_index, law_joined_in_places, lemma_last_index, string_of,
    texts, trim_range, trimmed, CharClass,
};
use crate::time::{latest, latest_of, Timestamp};

verus! {

/// How many characters of a title are shown.
pub const TITLE_LENGTH: usize = 100;

/// A session as it is listed and resumed. The modification time counts nanoseconds
/// since the start of 1970; 0 stands for an unknown one.
#[derive(Debug)]
pub struct Session {
    pub id: String,
    pub agent: &'static str,
    pub title: String,
    pub directory: String,
    pub timestamp: Timestamp,
    pub content: String,
    pub message_count: usize,
    pub mtime: u64,
}

#[verifier::ext_equal]
pub struct SessionView {
    pub id: Seq<char>,
    pub agent: Seq<char>,
    pub title: Seq<char>,
    pub directory: Seq<char>,
    pub timestamp: Timestamp,
    pub content: Seq<char>,
    pub message_count: nat,
    pub mtime: u64,
}

impl View for Session {
    type V = SessionView;

    open spec fn view(&self) -> SessionView {
        SessionView {
            id: self.id@,
            agent: self.agent@,
            title: self.title@,
            directory: self.directory@,
            timestamp: self.timestamp,
            content: self.content@,
            message_count: self.message_count as nat,
            mtime: self.mtime,
        }
    }
}

impl Session {
    /// A session whose modification time is not known yet.
    pub fn new(
        id: String,
        agent: &'static str,
        title: String,
        directory: String,
        timestamp: Timestamp,
        content: String,
        message_count: usize,
    ) -> (session: Self)
        ensures
            session@ == (SessionView {
                id: id@,
                agent: agent@,
                title: title@,
                directory: directory@,
                timestamp,
                content: content@,
                message_count: message_count as nat,
                mtime: 0,
            }),
    {
        Session { id, agent, title, directory, timestamp, content, message_count, mtime: 0 }
    }
}

impl Clone for Session {
    fn clone(&self) -> (copy: Self)
        ensures
            copy@ == self@,
    {
        Session {
            id: self.id.clone(),
            agent: self.agent,
            title: self.title.clone(),
            directory: self.directory.clone(),
            timestamp: self.timestamp,
            content: self.content.clone(),
            message_count: self.message_count,
            mtime: self.mtime,
        }
    }
}

/// The views of optional sessions.
pub open spec fn session_view(session: Option<Session>) -> Option<SessionView> {
    match session {
        Some(s) => Some(s@),
        None => None,
    }
}

/// What the files of an agent take up.
#[derive(Debug)]
pub struct RawAdapterStats {
    pub agent: &'static str,
    pub data_dir: String,
    pub available: bool,
    pub file_count: usize,
    pub total_bytes: u64,
}

/// A trimmed title of at most `length` characters. A longer one is cut there, or
/// before the last space up to there where words are kept whole, and marked.
pub open spec fn truncated(text: Seq<char>, length: nat, whole_words: bool) -> Seq<char> {
    let title = trimmed(text);
    if title.len() <= length {
        title
    } else {
        let end = match last_index(title, ' ', length as int) {
            Some(space) if whole_words => space,
            _ => length as int,
        };
        title.take(end) + "..."@
    }
}

/// Cuts a title to `length` characters, at the end of a word if `whole_words`.
pub fn truncate_title(text: &str, length: usize, whole_words: bool) -> (title: String)
    ensures
        title@ == truncated(text@, length as nat, whole_words),
{
    let chars = chars_of(text);
    let (lo, hi) = trim_range(chars.as_slice(), 0, chars.len(), CharClass::WhiteSpace);
    assert(chars@.subrange(0, chars@.len() as int) =~= chars@);
    let ghost title = trimmed(text@);
    if hi - lo <= length {
        return string_of(chars.as_slice(), lo, hi);
    }
    let limit = lo + length;
    let mut end: usize = limit;
    if whole_words {
        let mut space: usize = limit;
        while space > lo
            invariant_except_break
                lo <= space <= limit <= hi,
                hi <= chars@.len(),
                limit == lo + length,
                title == chars@.subrange(lo as int, hi as int),
                end == limit,
                last_index(title, ' ', length as int) == last_index(title, ' ', space - lo),
            ensures
                lo <= end <= limit,
                end - lo == match last_index(title, ' ', length as int) {
                    Some(found) => found,
                    None => length as int,
                },
            decreases space - lo,
        {
            if chars[space - 1] == ' ' {
                end = space - 1;
                break;
            }
            space -= 1;
        }
    }
    let cut = string_of(chars.as_slice(), lo, end);
    assert(cut@ =~= title.take(end - lo));
    concat(cut.as_str(), "...")
}

/// A title is never more than three characters longer than its limit.
pub proof fn law_title_length(text: Seq<char>, length: nat, whole_words: bool)
    ensures
        truncated(text, length, whole_words).len() <= length + 3,
        trimmed(text).len() <= length ==> truncated(text, length, whole_words) == trimmed(text),
{
    reveal_strlit("...");
    if length <= trimmed(text).len() {
        lemma_last_index(trimmed(text), ' ', length as int);
    }
}

/// One contribution to a session, by the user or by the agent.
#[derive(Debug)]
pub struct Turn {
    pub user: bool,
    pub text: String,
    pub timestamp: Option<Timestamp>,
}

#[verifier::ext_equal]
pub struct TurnView {
    pub user: bool,
    pub text: Seq<char>,
    pub timestamp: Option<Timestamp>,
}

impl View for Turn {
    type V = TurnView;

    open spec fn view(&self) -> TurnView {
        TurnView { user: self.user, text: self.text@, timestamp: self.timestamp }
    }
}

pub open spec fn turn_views(turns: Seq<Turn>) -> Seq<TurnView> {
    turns.map_values(|turn: Turn| turn@)
}

/// What a turn looks like in the content of a session.
pub open spec fn rendered(turn: TurnView) -> Seq<char> {
    if turn.user {
        "» "@ + turn.text
    } else {
        "  "@ + turn.text
    }
}

/// The content of a session with these turns.
pub open spec fn content_of(turns: Seq<TurnView>) -> Seq<char> {
    joined(turns.map_values(|turn: TurnView| rendered(turn)), "\n\n"@)
}

/// The text of the first turn by the user.
pub open spec fn first_user_text(turns: Seq<TurnView>) -> Option<Seq<char>>
    decreases turns.len(),
{
    if turns.len() == 0 {
        None
    } else if turns[0].user {
        Some(turns[0].text)
    } else {
        first_user_text(turns.drop_first())
    }
}

/// How many turns are by the user.
pub open spec fn user_turns(turns: Seq<TurnView>) -> nat
    decreases turns.len(),
{
    if turns.len() == 0 {
        0
    } else {
        user_turns(turns.drop_last()) + if turns.last().user {
            1nat
        } else {
            0nat
        }
    }
}

/// When the latest turn took place, as far as the turns say.
pub open spec fn last_activity(turns: Seq<TurnView>) -> Option<Timestamp>
    decreases turns.len(),
{
    if turns.len() == 0 {
        None
    } else {
        latest(last_activity(turns.drop_last()), turns.last().timestamp)
    }
}

/// The text of the first turn by the user.
pub fn find_first_user(turns: &Vec<Turn>) -> (text: Option<&String>)
    ensures
        match text {
            Some(t) => first_user_text(turn_views(turns@)) == Some(t@),
            None => first_user_text(turn_views(turns@)) is None,
        },
{
    let ghost views = turn_views(turns@);
    let mut i: usize = 0;
    assert(views.skip(0) =~= views);
    while i < turns.len()
        invariant
            i <= turns@.len(),
            views == turn_views(turns@),
            first_user_text(views) == first_user_text(views.skip(i as int)),
        decreases turns@.len() - i,
    {
        assert(views.skip(i as int).drop_first() =~= views.skip(i + 1));
        if turns[i].user {
            return Some(&turns[i].text);
        }
        i += 1;
    }
    None
}

/// How many turns are by the user.
pub fn count_user_turns(turns: &Vec<Turn>) -> (count: usize)
    ensures
        count == user_turns(turn_views(turns@)),
{
    let ghost views = turn_views(turns@);
    let mut count: usize = 0;
    let mut i: usize = 0;
    while i < turns.len()
        invariant
            count <= i <= turns@.len(),
            views == turn_views(turns@),
            count == user_turns(views.take(i as int)),
        decreases turns@.len() - i,
    {
        assert(views.take(i + 1).drop_last() =~= views.take(i as int));
        if turns[i].user {
            count += 1;
        }
        i += 1;
    }
    assert(views.take(i as int) =~= views);
    count
}

/// When the latest turn took place, as far as the turns say.
pub fn find_last_activity(turns: &Vec<Turn>) -> (instant: Option<Timestamp>)
    ensures
        instant == last_activity(turn_views(turns@)),
{
    let ghost views = turn_views(turns@);
    let mut instant: Option<Timestamp> = None;
    let mut i: usize = 0;
    while i < turns.len()
        invariant
            i <= turns@.len(),
            views == turn_views(turns@),
            instant == last_activity(views.take(i as int)),
        decreases turns@.len() - i,
    {
        assert(views.take(i + 1).drop_last() =~= views.take(i as int));
        instant = latest_of(instant, turns[i].timestamp);
        i += 1;
    }
    assert(views.take(i as int) =~= views);
    instant
}

/// What a turn looks like in the content of a session.
pub fn render(user: bool, text: &str) -> (line: String)
    ensures
        line@ == rendered(TurnView { user, text: text@, timestamp: None }),
{
    if user {
        concat("» ", text)
    } else {
        concat("  ", text)
    }
}

/// The content of a session with these turns.
pub fn render_content(turns: &Vec<Turn>) -> (content: String)
    ensures
        content@ == content_of(turn_views(turns@)),
{
    let mut lines: Vec<String> = Vec::new();
    let mut i: usize = 0;
    while i < turns.len()
        invariant
            i <= turns@.len(),
            lines@.len() == i,
            forall|j: int| 0 <= j < i ==> (#[trigger] lines@[j])@ == rendered(turns@[j]@),
        decreases turns@.len() - i,
    {
        lines.push(render(turns[i].user, turns[i].text.as_str()));
        i += 1;
    }
    assert(texts(lines@) =~= turn_views(turns@).map_values(|turn: TurnView| rendered(turn)));
    join(&lines, "\n\n")
}

/// The last activity is at or after every turn that says when it took place.
pub proof fn law_last_activity_is_latest(turns: Seq<TurnView>, i: int)
    requires
        0 <= i < turns.len(),
    ensures
        turns[i].timestamp matches Some(instant) ==> (last_activity(turns) matches Some(last)
            && !crate::time::later(instant, last)),
    decreases turns.len(),
{
    if i < turns.len() - 1 {
        law_last_activity_is_latest(turns.drop_last(), i);
    }
}

/// The text that titles a session is that of the first turn by the user, and there is one
/// wherever the user takes part.
pub proof fn law_first_user_text(turns: Seq<TurnView>, k: int)
    requires
        0 <= k < turns.len(),
        turns[k].user,
        forall|i: int| 0 <= i < k ==> !(#[trigger] turns[i]).user,
    ensures
        first_user_text(turns) == Some(turns[k].text),
    decreases turns.len(),
{
    if k > 0 {
        let rest = turns.drop_first();
        assert(!turns[0].user);
        assert forall|i: int| 0 <= i < k - 1 implies !(#[trigger] rest[i]).user by {
            assert(rest[i] == turns[i + 1]);
        }
        law_first_user_text(rest, k - 1);
    }
}

/// Nothing titles a session in which the user does not take part.
pub proof fn law_no_text_without_the_user(turns: Seq<TurnView>)
    ensures
        first_user_text(turns) is None <==> (forall|i: int|
            0 <= i < turns.len() ==> !(#[trigger] turns[i]).user),
    decreases turns.len(),
{
    if turns.len() > 0 {
        let rest = turns.drop_first();
        law_no_text_without_the_user(rest);
        if !turns[0].user {
            if first_user_text(rest) is None {
                assert forall|i: int| 0 <= i < turns.len() implies !(#[trigger] turns[i]).user by {
                    if i > 0 {
                        assert(rest[i - 1] == turns[i]);
                    }
                }
            }
            if forall|i: int| 0 <= i < turns.len() ==> !(#[trigger] turns[i]).user {
                assert forall|i: int| 0 <= i < rest.len() implies !(#[trigger] rest[i]).user by {
                    assert(rest[i] == turns[i + 1]);
                }
            }
        }
    }
}

/// Turns that come after a turn of the user do not change what titles a session.
pub proof fn law_later_turns_do_not_title(turns: Seq<TurnView>, more: Seq<TurnView>)
    requires
        first_user_text(turns) is Some,
    ensures
        first_user_text(turns + more) == first_user_text(turns),
    decreases turns.len(),
{
    let all = turns + more;
    assert(all[0] == turns[0]);
    if !turns[0].user {
        law_later_turns_do_not_title(turns.drop_first(), more);
        assert(all.drop_first() =~= turns.drop_first() + more);
    }
}

/// A title that is too long is cut within its limit and marked by three dots. Words are
/// kept whole by cutting at the last space within the limit, if there is one.
pub proof fn law_long_title_is_cut(text: Seq<char>, length: nat, whole_words: bool)
    requires
        trimmed(text).len() > length,
    ensures
        ({
            let title = truncated(text, length, whole_words);
            let cut = title.len() - 3;
            &&& 0 <= cut <= length
            &&& title.take(cut) == trimmed(text).take(cut)
            &&& title[cut] == '.' && title[cut + 1] == '.' && title[cut + 2] == '.'
            &&& !whole_words ==> cut == length
            &&& whole_words && cut < length ==> trimmed(text)[cut] == ' '
            &&& whole_words ==> forall|i: int|
                cut < i < length ==> #[trigger] trimmed(text)[i] != ' '
            &&& whole_words && cut == length ==> forall|i: int|
                0 <= i < length ==> #[trigger] trimmed(text)[i] != ' '
        }),
{
    reveal_strlit("...");
    let whole = trimmed(text);
    lemma_last_index(whole, ' ', length as int);
    let end = match last_index(whole, ' ', length as int) {
        Some(space) if whole_words => space,
        _ => length as int,
    };
    let title = truncated(text, length, whole_words);
    assert(title =~= whole.take(end) + "..."@);
    assert(title.take(end) =~= whole.take(end));
}

/// A turn is shown behind a mark that tells who speaks, two characters wide.
pub proof fn law_turn_is_shown_behind_its_mark(turn: TurnView)
    ensures
        rendered(turn).len() == turn.text.len() + 2,
        rendered(turn).skip(2) == turn.text,
        rendered(turn)[0] == if turn.user {
            '»'
        } else {
            ' '
        },
        rendered(turn)[1] == ' ',
{
    reveal_strlit("» ");
    reveal_strlit("  ");
    assert(rendered(turn).skip(2) =~= turn.text);
}

/// The content of a session shows all turns in order, an empty line between each two.
pub proof fn law_content_shows_all_turns(left: Seq<TurnView>, right: Seq<TurnView>)
    ensures
        content_of(seq![]).len() == 0,
        left.len() == 1 ==> content_of(left) == rendered(left[0]),
        left.len() > 0 && right.len() > 0 ==> content_of(left + right) == content_of(left) + seq![
            '\n',
            '\n',
        ] + content_of(right),
{
    reveal_strlit("\n\n");
    assert("\n\n"@ =~= seq!['\n', '\n']);
    let render = |turn: TurnView| rendered(turn);
    assert((left + right).map_values(render) =~= left.map_values(render) + right.map_values(
        render,
    ));
    assert(Seq::<TurnView>::empty().map_values(render) =~= Seq::<Seq<char>>::empty());
    law_joined_in_places(left.map_values(render), right.map_values(render), "\n\n"@);
}

/// Each turn by the user counts once, and no other.
pub proof fn law_user_turns_are_counted(turns: Seq<TurnView>)
    ensures
        user_turns(turns) == turns.filter(|turn: TurnView| turn.user).len(),
    decreases turns.len(),
{
    reveal(Seq::filter);
    if turns.len() > 0 {
        law_user_turns_are_counted(turns.drop_last());
    }
}

/// The last activity is that of some turn, and there is one wherever a turn says when it
/// took place.
pub proof fn law_last_activity_is_of_a_turn(turns: Seq<TurnView>)
    ensures
        match last_activity(turns) {
            Some(instant) => exists|i: int|
                0 <= i < turns.len() && (#[trigger] turns[i]).timestamp == Some(instant),
            None => forall|i: int| 0 <= i < turns.len() ==> (#[trigger] turns[i]).timestamp is None,
        },
    decreases turns.len(),
{
    if turns.len() > 0 {
        let rest = turns.drop_last();
        law_last_activity_is_of_a_turn(rest);
        if last_activity(turns) is Some {
            if last_activity(turns) == turns.last().timestamp {
                assert(turns[turns.len() - 1].timestamp == last_activity(turns));
            } else {
                let i = choose|i: int|
                    0 <= i < rest.len() && (#[trigger] rest[i]).timestamp == last_activity(rest);
                assert(turns[i].timestamp == last_activity(turns));
            }
        } else {
            assert forall|i: int| 0 <= i < turns.len() implies (#[trigger] turns[i]).timestamp
                is None by {
                if i < rest.len() {
                    assert(rest[i].timestamp is None);
                }
            }
        }
    }
}

} // verus!
