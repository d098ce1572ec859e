//! Cursor CLI sessions: each chat is a small key-value database. What the values hold
//! varies between releases; structured JSON and the plain encoding of what a user said
//! are read, and other binary records are passed over.

use std::path::PathBuf;

use vstd::prelude::*;

pub mod records;
pub mod tables;

use crate::adapters::cursor::records::{
    collect_cursor_records, cursor_plain_user_message, decode_json, decoded_json, no_records,
    plain_message, with_metadata, with_record, CursorRecords, RecordsView,
};
use crate::adapters::cursor::tables::{entry_views, read_key_value_table, table_entries, TableRead};
use crate::adapters::shared::{
    build_resume_command, incremental_scan, lemma_contains_none, listed, resume_words, scan_all,
    scan_inputs, scan_report, session_views, store_result, str_texts, sum_stats, total_bytes,
    total_files, FileNameView, FileStats, IgnoreSessions, IncrementalParse, IncrementalScan,
    KnownSessions, Listing, NamedStats, ParseView, ScanEntry, SessionCallback, StoreError,
};
use crate::json::or_empty;
use crate::model::{
    content_of, count_user_turns, find_first_user, find_last_activity, first_user_text,
    last_activity, law_first_user_text, law_last_activity_is_latest, law_last_activity_is_of_a_turn,
    law_long_title_is_cut, law_no_text_without_the_user, law_user_turns_are_counted, render_content,
    session_view, truncate_title, truncated, turn_views, user_turns, RawAdapterStats, Session,
    SessionView, Turn, TurnView, TITLE_LENGTH,
};
use crate::paths::{absolute_outcome, is_absolute};
use crate::percent::{law_nothing_decodes_to_nothing, percent_decode, percent_decoded};
use crate::string_map::{distinct_keys, law_upsert, lemma_upsert_entry, lookup, upsert, StringMap};
use crate::text::{
    clone_text, law_trim_twice, same_text, text_view, texts, trim, trimmed, CharClass,
};
use crate::time::{later, Timestamp};

verus! {

/// The sessions of the Cursor CLI.
#[derive(Debug)]
pub struct CursorAdapter {
    pub chats_dir: PathBuf,
}

impl Clone for CursorAdapter {
    fn clone(&self) -> (copy: Self)
        ensures
            copy == *self,
    {
        CursorAdapter { chats_dir: self.chats_dir.clone() }
    }
}

/// A path by its last three names: that of a file, of the directory that holds it and
/// of the one above. A name is missing where there is none or it is not text.
pub struct ChatPath {
    pub place: PathBuf,
    pub name: Option<String>,
    pub parent: Option<String>,
    pub grandparent: Option<String>,
}

#[verifier::ext_equal]
pub struct ChatPathView {
    pub place: PathBuf,
    pub name: Option<Seq<char>>,
    pub parent: Option<Seq<char>>,
    pub grandparent: Option<Seq<char>>,
}

impl View for ChatPath {
    type V = ChatPathView;

    open spec fn view(&self) -> ChatPathView {
        ChatPathView {
            place: self.place,
            name: text_view(self.name),
            parent: text_view(self.parent),
            grandparent: text_view(self.grandparent),
        }
    }
}

impl Clone for ChatPath {
    fn clone(&self) -> (copy: Self)
        ensures
            copy@ == self@,
    {
        ChatPath {
            place: self.place.clone(),
            name: clone_text(&self.name),
            parent: clone_text(&self.parent),
            grandparent: clone_text(&self.grandparent),
        }
    }
}

/// The database of a chat, with its modification time.
pub struct ScannedChat {
    pub path: ChatPath,
    pub mtime: u64,
}

#[verifier::ext_equal]
pub struct ScannedChatView {
    pub path: ChatPathView,
    pub mtime: u64,
}

impl View for ScannedChat {
    type V = ScannedChatView;

    open spec fn view(&self) -> ScannedChatView {
        ScannedChatView { path: self.path@, mtime: self.mtime }
    }
}

/// The databases of chats by id, and whether all could be listed.
pub struct ChatFiles {
    pub files: StringMap<ScannedChat>,
    pub complete: bool,
}

#[verifier::ext_equal]
pub struct ChatFilesView {
    pub files: Seq<(Seq<char>, ScannedChatView)>,
    pub complete: bool,
}

impl View for ChatFiles {
    type V = ChatFilesView;

    open spec fn view(&self) -> ChatFilesView {
        ChatFilesView { files: self.files@, complete: self.complete }
    }
}

pub open spec fn chat_files_view(found: Option<ChatFiles>) -> Option<ChatFilesView> {
    match found {
        Some(f) => Some(f@),
        None => None,
    }
}

/// What the tables of a database gave.
pub struct CursorStore {
    pub meta: TableRead,
    pub blobs: TableRead,
}

/// What the metadata of a chat tell.
pub open spec fn meta_records(entries: Seq<(Seq<char>, Seq<u8>)>) -> RecordsView
    decreases entries.len(),
{
    if entries.len() == 0 {
        no_records()
    } else {
        let before = meta_records(entries.drop_last());
        match decoded_json(entries.last().1) {
            Some(value) => with_metadata(before, value),
            None => before,
        }
    }
}

/// What is told after a stored value: a record, or a plain message.
pub open spec fn with_blob(records: RecordsView, bytes: Seq<u8>) -> RecordsView {
    match decoded_json(bytes) {
        Some(value) => with_record(records, value),
        None => match plain_message(bytes) {
            Some(text) => RecordsView {
                messages: records.messages.push(TurnView { user: true, text, timestamp: None }),
                ..records
            },
            None => records,
        },
    }
}

/// What is told after these stored values.
pub open spec fn with_blobs(
    records: RecordsView,
    entries: Seq<(Seq<char>, Seq<u8>)>,
) -> RecordsView
    decreases entries.len(),
{
    if entries.len() == 0 {
        records
    } else {
        with_blob(with_blobs(records, entries.drop_last()), entries.last().1)
    }
}

/// What a database tells, unless it cannot be read.
pub open spec fn store_records(store: CursorStore) -> Result<RecordsView, StoreError> {
    match (table_entries(store.meta), table_entries(store.blobs)) {
        (Err(error), _) => Err(error),
        (Ok(_), Err(error)) => Err(error),
        (Ok(meta), Ok(blobs)) => Ok(with_blobs(meta_records(meta), blobs)),
    }
}

fn read_meta(entries: &Vec<(String, Vec<u8>)>) -> (records: CursorRecords)
    ensures
        records@ == meta_records(entry_views(entries@)),
{
    let ghost all = entry_views(entries@);
    let mut records = CursorRecords::new();
    let mut i: usize = 0;
    while i < entries.len()
        invariant
            i <= entries@.len(),
            all == entry_views(entries@),
            records@ == meta_records(all.take(i as int)),
        decreases entries@.len() - i,
    {
        assert(all.take(i + 1).drop_last() =~= all.take(i as int));
        if let Some(value) = decode_json(entries[i].1.as_slice()) {
            records.apply_cursor_metadata(&value);
        }
        i += 1;
    }
    assert(all.take(i as int) =~= all);
    records
}

fn read_blobs(records: &mut CursorRecords, entries: &Vec<(String, Vec<u8>)>)
    ensures
        final(records)@ == with_blobs(old(records)@, entry_views(entries@)),
{
    let ghost all = entry_views(entries@);
    let ghost start = records@;
    let mut i: usize = 0;
    assert(all.take(0) =~= Seq::<(Seq<char>, Seq<u8>)>::empty());
    while i < entries.len()
        invariant
            i <= entries@.len(),
            all == entry_views(entries@),
            records@ == with_blobs(start, all.take(i as int)),
        decreases entries@.len() - i,
    {
        assert(all.take(i + 1).drop_last() =~= all.take(i as int));
        match decode_json(entries[i].1.as_slice()) {
            Some(value) => collect_cursor_records(&value, records),
            None => {
                if let Some(text) = cursor_plain_user_message(entries[i].1.as_slice()) {
                    records.push_message(Turn { user: true, text, timestamp: None });
                }
            },
        }
        i += 1;
    }
    assert(all.take(i as int) =~= all);
}

/// What a database tells.
pub fn read_store(store: &CursorStore) -> (records: Result<CursorRecords, StoreError>)
    ensures
        match records {
            Ok(found) => store_records(*store) == Ok::<_, StoreError>(found@),
            Err(error) => store_records(*store) == Err::<RecordsView, _>(error),
        },
{
    let meta = match read_key_value_table(&store.meta) {
        Ok(entries) => entries,
        Err(error) => return Err(error),
    };
    let blobs = match read_key_value_table(&store.blobs) {
        Ok(entries) => entries,
        Err(error) => return Err(error),
    };
    let mut records = read_meta(&meta);
    read_blobs(&mut records, &blobs);
    Ok(records)
}

/// The messages that say anything, without the white space around what they say.
pub open spec fn tidied(messages: Seq<TurnView>) -> Seq<TurnView>
    decreases messages.len(),
{
    if messages.len() == 0 {
        seq![]
    } else {
        let before = tidied(messages.drop_last());
        let last = messages.last();
        if trimmed(last.text).len() > 0 {
            before.push(TurnView { text: trimmed(last.text), ..last })
        } else {
            before
        }
    }
}

fn tidy_messages(messages: &Vec<Turn>) -> (turns: Vec<Turn>)
    ensures
        turn_views(turns@) == tidied(turn_views(messages@)),
{
    let ghost all = turn_views(messages@);
    let mut turns: Vec<Turn> = Vec::new();
    let mut i: usize = 0;
    assert(turn_views(turns@) =~= Seq::<TurnView>::empty());
    while i < messages.len()
        invariant
            i <= messages@.len(),
            all == turn_views(messages@),
            turn_views(turns@) == tidied(all.take(i as int)),
        decreases messages@.len() - i,
    {
        let ghost before = turns@;
        assert(all.take(i + 1).drop_last() =~= all.take(i as int));
        let text = trim(messages[i].text.as_str());
        if !text.as_str().is_empty() {
            let turn = Turn {
                user: messages[i].user,
                text,
                timestamp: messages[i].timestamp,
            };
            turns.push(turn);
            assert(turn_views(turns@) =~= turn_views(before).push(turn@));
        }
        i += 1;
    }
    assert(all.take(i as int) =~= all);
    turns
}

/// A text, or another where the first is blank.
pub open spec fn unless_blank(text: Seq<char>, other: Seq<char>) -> Seq<char> {
    if trimmed(text).len() == 0 {
        other
    } else {
        text
    }
}

/// The session that records make, if the user says anything in it. `directory` is that
/// of the database, for a chat that tells none.
pub open spec fn records_session(
    path: ChatPathView,
    records: RecordsView,
    directory: Seq<char>,
    written: Timestamp,
    mtime: u64,
) -> Option<SessionView> {
    let turns = tidied(records.messages);
    match first_user_text(turns) {
        Some(first) => Some(
            SessionView {
                id: or_empty(path.parent),
                agent: "cursor"@,
                title: truncated(unless_blank(records.title, first), TITLE_LENGTH as nat, true),
                directory: unless_blank(records.directory, directory),
                timestamp: match (last_activity(records.messages), records.created_at) {
                    (Some(instant), _) => instant,
                    (None, Some(instant)) => instant,
                    (None, None) => written,
                },
                content: content_of(turns),
                message_count: user_turns(records.messages),
                mtime,
            },
        ),
        None => None,
    }
}

/// The session that records make.
pub fn session_from_records(
    path: &ChatPath,
    records: CursorRecords,
    directory: String,
    written: Timestamp,
    mtime: u64,
) -> (session: Option<Session>)
    ensures
        session_view(session) == records_session(path@, records@, directory@, written, mtime),
{
    let turns = tidy_messages(&records.messages);
    let first = match find_first_user(&turns) {
        Some(first) => first,
        None => return None,
    };
    let title = if trim(records.title.as_str()).as_str().is_empty() {
        truncate_title(first.as_str(), TITLE_LENGTH, true)
    } else {
        truncate_title(records.title.as_str(), TITLE_LENGTH, true)
    };
    let directory = if trim(records.directory.as_str()).as_str().is_empty() {
        directory
    } else {
        records.directory
    };
    let timestamp = match (find_last_activity(&records.messages), records.created_at) {
        (Some(instant), _) => instant,
        (None, Some(instant)) => instant,
        (None, None) => written,
    };
    let id = match &path.parent {
        Some(name) => name.clone(),
        None => String::new(),
    };
    let mut session = Session::new(
        id,
        "cursor",
        title,
        directory,
        timestamp,
        render_content(&turns),
        count_user_turns(&records.messages),
    );
    session.mtime = mtime;
    Some(session)
}

/// What the directory two levels above a database stands for.
pub open spec fn decoded_parent(path: ChatPathView) -> Seq<char> {
    percent_decoded(or_empty(path.grandparent))
}

/// The directory that the path of a database encodes, given whether what it decodes to
/// is absolute.
pub open spec fn encoded_directory(path: ChatPathView, absolute: bool) -> Seq<char> {
    if absolute {
        decoded_parent(path)
    } else {
        seq![]
    }
}

/// Directories that the path of a database can encode. Which paths are absolute
/// depends on the system.
pub open spec fn path_directory_outcome(path: ChatPathView, directory: Seq<char>) -> bool {
    exists|absolute: bool| #[trigger]
        absolute_outcome(decoded_parent(path), absolute) && directory == encoded_directory(
            path,
            absolute,
        )
}

fn decode_parent(path: &ChatPath) -> (decoded: String)
    ensures
        decoded@ == decoded_parent(path@),
{
    match &path.grandparent {
        Some(name) => percent_decode(name.as_str()),
        None => {
            proof {
                reveal_strlit("");
                assert(""@ =~= Seq::<char>::empty());
            }
            percent_decode("")
        },
    }
}

/// The directory that the path of a database encodes, given whether what it decodes to
/// is absolute.
pub fn directory_if_absolute(path: &ChatPath, absolute: bool) -> (directory: String)
    ensures
        directory@ == encoded_directory(path@, absolute),
{
    if absolute {
        decode_parent(path)
    } else {
        String::new()
    }
}

/// The directory that the path of a database encodes, if that is absolute.
pub fn cursor_directory_from_path(path: &ChatPath) -> (directory: String)
    ensures
        path_directory_outcome(path@, directory@),
{
    let absolute = is_absolute(decode_parent(path).as_str());
    assert(absolute_outcome(decoded_parent(path@), absolute));
    directory_if_absolute(path, absolute)
}

/// The session of a database, given the directory that its path encodes.
pub open spec fn store_session(
    path: ChatPathView,
    store: CursorStore,
    directory: Seq<char>,
    written: Timestamp,
    mtime: u64,
) -> Result<Option<SessionView>, StoreError> {
    match store_records(store) {
        Ok(records) => Ok(records_session(path, records, directory, written, mtime)),
        Err(error) => Err(error),
    }
}

/// What reading a changed database gave: one that cannot be read leaves what is known
/// as it is.
pub open spec fn store_outcome(session: Result<Option<SessionView>, StoreError>) -> ParseView {
    match session {
        Ok(Some(session)) => ParseView::Session(session),
        Ok(None) => ParseView::Delete,
        Err(_) => ParseView::Retain,
    }
}

/// A database of a chat, what its tables gave and when it was written.
pub struct ChatStore {
    pub path: ChatPath,
    pub store: CursorStore,
    pub written: Timestamp,
    pub mtime: u64,
}

/// The session of a chat, given the directory that its path encodes.
pub open spec fn chat_store_session(chat: ChatStore, directory: Seq<char>) -> Result<
    Option<SessionView>,
    StoreError,
> {
    store_session(chat.path@, chat.store, directory, chat.written, chat.mtime)
}

/// Directories that the paths of these chats can encode.
pub open spec fn chat_directories(chats: Seq<ChatStore>, directories: Seq<Seq<char>>) -> bool {
    &&& directories.len() == chats.len()
    &&& forall|i: int|
        0 <= i < chats.len() ==> path_directory_outcome(
            (#[trigger] chats[i]).path@,
            directories[i],
        )
}

/// The sessions of chats, given the directories that their paths encode.
pub open spec fn chat_sessions(
    chats: Seq<ChatStore>,
    directories: Seq<Seq<char>>,
) -> Seq<SessionView>
    decreases chats.len(),
{
    if chats.len() == 0 {
        seq![]
    } else {
        let before = chat_sessions(chats.drop_last(), directories.drop_last());
        match chat_store_session(chats.last(), directories.last()) {
            Ok(Some(session)) => before.push(session),
            _ => before,
        }
    }
}

/// A file or directory that was met, with the modification time that it has as a
/// database.
pub struct WalkEntry {
    pub path: ChatPath,
    pub sqlite_mtime: u64,
}

/// The id of the chat that a file is the database of: the name of its directory.
pub open spec fn chat_id(path: ChatPathView) -> Option<Seq<char>> {
    match (path.name, path.parent) {
        (Some(name), Some(id)) => if name == "store.db"@ && id.len() > 0 {
            Some(id)
        } else {
            None
        },
        _ => None,
    }
}

/// The databases after these entries.
pub open spec fn walked_files(entries: Seq<Option<WalkEntry>>) -> ChatFilesView
    decreases entries.len(),
{
    if entries.len() == 0 {
        ChatFilesView { files: seq![], complete: true }
    } else {
        let before = walked_files(entries.drop_last());
        match entries.last() {
            None => ChatFilesView { complete: false, ..before },
            Some(entry) => match chat_id(entry.path@) {
                Some(id) => ChatFilesView {
                    files: upsert(
                        before.files,
                        id,
                        ScannedChatView { path: entry.path@, mtime: entry.sqlite_mtime },
                    ),
                    ..before
                },
                None => before,
            },
        }
    }
}

/// The databases of all chats, unless the directory of chats is none.
pub open spec fn all_chat_files(walk: Listing<WalkEntry>) -> Option<ChatFilesView> {
    if walk is Unreadable {
        None
    } else {
        Some(walked_files(listed(walk)))
    }
}

fn find_chat_id(path: &ChatPath) -> (id: Option<String>)
    ensures
        text_view(id) == chat_id(path@),
{
    let name = match &path.name {
        Some(name) => name,
        None => return None,
    };
    if !same_text(name.as_str(), "store.db") {
        return None;
    }
    match &path.parent {
        Some(id) => if id.as_str().is_empty() {
            None
        } else {
            Some(id.clone())
        },
        None => None,
    }
}

/// What the databases among these entries take up.
pub open spec fn chat_stats(entries: Seq<NamedStats>) -> Seq<FileStats>
    decreases entries.len(),
{
    if entries.len() == 0 {
        seq![]
    } else {
        let before = chat_stats(entries.drop_last());
        if entries.last().name@ == (FileNameView { text: "store.db"@, exact: true }) {
            before.push(entries.last().stats)
        } else {
            before
        }
    }
}

fn collect_chat_stats(entries: &Vec<NamedStats>) -> (stats: Vec<FileStats>)
    ensures
        stats@ == chat_stats(entries@),
{
    let mut stats: Vec<FileStats> = Vec::new();
    let mut i: usize = 0;
    while i < entries.len()
        invariant
            i <= entries@.len(),
            stats@ == chat_stats(entries@.take(i as int)),
        decreases entries@.len() - i,
    {
        assert(entries@.take(i + 1).drop_last() =~= entries@.take(i as int));
        if entries[i].name.exact && same_text(entries[i].name.text.as_str(), "store.db") {
            stats.push(entries[i].stats);
        }
        i += 1;
    }
    assert(entries@.take(i as int) =~= entries@);
    stats
}

impl CursorAdapter {
    /// The sessions below `chats_dir`.
    pub fn new(chats_dir: PathBuf) -> (adapter: Self)
        ensures
            adapter.chats_dir == chats_dir,
    {
        CursorAdapter { chats_dir }
    }

    /// The name of the agent.
    pub fn name(&self) -> (name: &'static str)
        ensures
            name@ == "cursor"@,
    {
        "cursor"
    }

    /// The agent can be told to skip permissions.
    pub fn supports_yolo(&self) -> (supported: bool)
        ensures
            supported,
    {
        true
    }

    /// The command that resumes a session.
    pub fn resume_command(&self, session: &Session, yolo: bool) -> (command: Vec<String>)
        ensures
            texts(command@) == resume_words(
                "agent"@,
                seq!["--yolo"@],
                yolo,
                seq!["--resume"@],
                session.id@,
            ),
    {
        let flags = ["--yolo"];
        let arguments = ["--resume"];
        assert(str_texts(flags@) =~= seq!["--yolo"@]);
        assert(str_texts(arguments@) =~= seq!["--resume"@]);
        build_resume_command("agent", &flags, yolo, &arguments, session.id.as_str())
    }

    /// The databases of all chats by id, unless the directory of chats is none.
    pub fn scan_session_files(&self, walk: &Listing<WalkEntry>) -> (found: Option<ChatFiles>)
        ensures
            chat_files_view(found) == all_chat_files(*walk),
    {
        let mut found = ChatFiles { files: StringMap::new(), complete: true };
        let entries = match walk {
            Listing::Unreadable => return None,
            Listing::Missing => return Some(found),
            Listing::Entries(entries) => entries,
        };
        let mut i: usize = 0;
        while i < entries.len()
            invariant
                i <= entries@.len(),
                found@ == walked_files(entries@.take(i as int)),
            decreases entries@.len() - i,
        {
            assert(entries@.take(i + 1).drop_last() =~= entries@.take(i as int));
            match &entries[i] {
                None => {
                    found.complete = false;
                },
                Some(entry) => {
                    if let Some(id) = find_chat_id(&entry.path) {
                        let file = ScannedChat {
                            path: entry.path.clone(),
                            mtime: entry.sqlite_mtime,
                        };
                        found.files.insert(id, file);
                    }
                },
            }
            i += 1;
        }
        assert(entries@.take(i as int) =~= entries@);
        Some(found)
    }

    /// The session of a chat. Its directory may depend on the system; all else is
    /// determined.
    pub fn parse_session(&self, chat: &ChatStore) -> (session: Result<Option<Session>, StoreError>)
        ensures
            exists|directory: Seq<char>| #[trigger]
                path_directory_outcome(chat.path@, directory) && store_result(session)
                    == chat_store_session(*chat, directory),
    {
        let directory = cursor_directory_from_path(&chat.path);
        assert(path_directory_outcome(chat.path@, directory@));
        match read_store(&chat.store) {
            Ok(records) => Ok(
                session_from_records(&chat.path, records, directory, chat.written, chat.mtime),
            ),
            Err(error) => Err(error),
        }
    }

    /// What reading a changed chat gives.
    pub fn parse_incremental(&self, chat: &ChatStore) -> (outcome: IncrementalParse)
        ensures
            exists|directory: Seq<char>| #[trigger]
                path_directory_outcome(chat.path@, directory) && outcome@ == store_outcome(
                    chat_store_session(*chat, directory),
                ),
    {
        match self.parse_session(chat) {
            Ok(Some(session)) => IncrementalParse::Session(session),
            Ok(None) => IncrementalParse::Delete,
            Err(_) => IncrementalParse::Retain,
        }
    }

    /// The sessions of all chats that can be read.
    pub fn find_sessions(&self, chats: &Vec<ChatStore>) -> (sessions: Vec<Session>)
        ensures
            exists|directories: Seq<Seq<char>>| #[trigger]
                chat_directories(chats@, directories) && session_views(sessions@)
                    == chat_sessions(chats@, directories),
    {
        let mut sessions: Vec<Session> = Vec::new();
        let ghost mut directories: Seq<Seq<char>> = seq![];
        let mut i: usize = 0;
        assert(session_views(sessions@) =~= Seq::<SessionView>::empty());
        while i < chats.len()
            invariant
                i <= chats@.len(),
                chat_directories(chats@.take(i as int), directories),
                session_views(sessions@) == chat_sessions(chats@.take(i as int), directories),
            decreases chats@.len() - i,
        {
            let ghost before = sessions@;
            let ghost so_far = directories;
            let parsed = self.parse_session(&chats[i]);
            proof {
                let directory = choose|directory: Seq<char>| #[trigger]
                    path_directory_outcome(chats@[i as int].path@, directory) && store_result(
                        parsed,
                    ) == chat_store_session(chats@[i as int], directory);
                directories = so_far.push(directory);
                assert(directories.drop_last() =~= so_far);
                assert(chats@.take(i + 1).drop_last() =~= chats@.take(i as int));
                assert forall|j: int|
                    0 <= j < chats@.take(i + 1).len() implies path_directory_outcome(
                    (#[trigger] chats@.take(i + 1)[j]).path@,
                    directories[j],
                ) by {
                    if j < i {
                        assert(chats@.take(i as int)[j] == chats@.take(i + 1)[j]);
                    }
                }
            }
            if let Ok(Some(session)) = parsed {
                sessions.push(session);
                assert(session_views(sessions@) =~= session_views(before).push(session@));
            }
            i += 1;
        }
        assert(chats@.take(i as int) =~= chats@);
        assert(chat_directories(chats@, directories));
        sessions
    }

    /// Scans for sessions that are new, changed or gone, and hands out each new or changed
    /// one as it is found.
    pub fn incremental<C: SessionCallback>(
        &self,
        known: &KnownSessions,
        scanned: Option<(Vec<ScanEntry>, bool)>,
        on_session: &mut C,
    ) -> (scan: IncrementalScan)
        ensures
            match scanned {
                Some((files, complete)) => scan_report(
                    known@,
                    "cursor"@,
                    scan_all(known@, "cursor"@, complete, scan_inputs(files@)),
                    scan,
                ),
                None => scan.agent@ == "cursor"@ && scan.new_or_modified@.len() == 0
                    && scan.deleted_ids@.len() == 0,
            },
            final(on_session).handed() == old(on_session).handed() + session_views(
                scan.new_or_modified@,
            ),
    {
        incremental_scan(self.name(), known, scanned, on_session)
    }

    /// Scans for sessions that are new, changed or gone.
    pub fn find_sessions_incremental(
        &self,
        known: &KnownSessions,
        scanned: Option<(Vec<ScanEntry>, bool)>,
    ) -> (scan: IncrementalScan)
        ensures
            match scanned {
                Some((files, complete)) => scan_report(
                    known@,
                    "cursor"@,
                    scan_all(known@, "cursor"@, complete, scan_inputs(files@)),
                    scan,
                ),
                None => scan.agent@ == "cursor"@ && scan.new_or_modified@.len() == 0
                    && scan.deleted_ids@.len() == 0,
            },
    {
        let mut ignore = IgnoreSessions::new();
        self.incremental(known, scanned, &mut ignore)
    }

    /// Scans for sessions that are new, changed or gone, and hands out each new or changed
    /// one as it is found.
    pub fn find_sessions_incremental_streaming<C: SessionCallback>(
        &self,
        known: &KnownSessions,
        scanned: Option<(Vec<ScanEntry>, bool)>,
        on_session: &mut C,
    ) -> (scan: IncrementalScan)
        ensures
            match scanned {
                Some((files, complete)) => scan_report(
                    known@,
                    "cursor"@,
                    scan_all(known@, "cursor"@, complete, scan_inputs(files@)),
                    scan,
                ),
                None => scan.agent@ == "cursor"@ && scan.new_or_modified@.len() == 0
                    && scan.deleted_ids@.len() == 0,
            },
            final(on_session).handed() == old(on_session).handed() + session_views(
                scan.new_or_modified@,
            ),
    {
        self.incremental(known, scanned, on_session)
    }

    /// What the databases take up. `entries` are what the directory of chats holds, at
    /// any depth; `None` stands for a directory that is not there.
    pub fn raw_stats(&self, data_dir: String, entries: &Option<Vec<NamedStats>>) -> (stats:
        RawAdapterStats)
        requires
            match *entries {
                Some(found) => total_files(chat_stats(found@)) <= usize::MAX && total_bytes(
                    chat_stats(found@),
                ) <= u64::MAX,
                None => true,
            },
        ensures
            stats.agent@ == "cursor"@,
            stats.data_dir@ == data_dir@,
            match *entries {
                Some(found) => stats.available && stats.file_count == total_files(
                    chat_stats(found@),
                ) && stats.total_bytes == total_bytes(chat_stats(found@)),
                None => !stats.available && stats.file_count == 0 && stats.total_bytes == 0,
            },
    {
        match entries {
            Some(found) => {
                let databases = collect_chat_stats(found);
                let sum = sum_stats(&databases);
                RawAdapterStats {
                    agent: self.name(),
                    data_dir,
                    available: true,
                    file_count: sum.files,
                    total_bytes: sum.bytes,
                }
            },
            None => RawAdapterStats {
                agent: self.name(),
                data_dir,
                available: false,
                file_count: 0,
                total_bytes: 0,
            },
        }
    }
}

/// A chat that tells a title or a directory is listed under them, and one that the user
/// says nothing in is not listed.
pub proof fn law_told_metadata_take_precedence(
    path: ChatPathView,
    records: RecordsView,
    directory: Seq<char>,
    written: Timestamp,
    mtime: u64,
)
    ensures
        first_user_text(tidied(records.messages)) is None <==> records_session(
            path,
            records,
            directory,
            written,
            mtime,
        ) is None,
        records_session(path, records, directory, written, mtime) matches Some(session) ==> {
            &&& trimmed(records.title).len() > 0 ==> session.title == truncated(
                records.title,
                TITLE_LENGTH as nat,
                true,
            )
            &&& trimmed(records.directory).len() > 0 ==> session.directory == records.directory
            &&& session.mtime == mtime
        },
{
}

/// No chat is scanned twice, a scan is complete exactly if no entry failed, and every
/// chat that is scanned has a database of the name of a chat's.
pub proof fn law_walked_files(entries: Seq<Option<WalkEntry>>)
    ensures
        distinct_keys(walked_files(entries).files),
        walked_files(entries).complete <==> !entries.contains(None),
        forall|i: int|
            0 <= i < walked_files(entries).files.len() ==> chat_id(
                (#[trigger] walked_files(entries).files[i]).1.path,
            ) == Some(walked_files(entries).files[i].0),
    decreases entries.len(),
{
    if entries.len() > 0 {
        let rest = entries.drop_last();
        law_walked_files(rest);
        lemma_contains_none(entries);
        let before = walked_files(rest);
        if let Some(entry) = entries.last() {
            if let Some(id) = chat_id(entry.path@) {
                let file = ScannedChatView { path: entry.path@, mtime: entry.sqlite_mtime };
                law_upsert(before.files, id, file, id);
                let new = upsert(before.files, id, file);
                assert forall|i: int| 0 <= i < new.len() implies chat_id((#[trigger] new[i]).1.path)
                    == Some(new[i].0) by {
                    lemma_upsert_entry(before.files, id, file, i);
                    if new[i] != (id, file) {
                        assert(before.files[i] == new[i]);
                    }
                }
            }
        }
    }
}

/// A chat took place when its latest message that says so did, whenever it was created;
/// the time of creation counts only where no message says, and that of the file only
/// where nothing does.
pub proof fn law_latest_message_times_the_chat(
    path: ChatPathView,
    records: RecordsView,
    directory: Seq<char>,
    written: Timestamp,
    mtime: u64,
)
    ensures
        records_session(path, records, directory, written, mtime) matches Some(session) ==> {
            let messages = records.messages;
            if exists|i: int|
                0 <= i < messages.len() && (#[trigger] messages[i]).timestamp is Some {
                &&& exists|i: int|
                    0 <= i < messages.len() && (#[trigger] messages[i]).timestamp == Some(
                        session.timestamp,
                    )
                &&& forall|i: int|
                    0 <= i < messages.len() ==> ((#[trigger] messages[i]).timestamp matches Some(
                        instant,
                    ) ==> !later(instant, session.timestamp))
            } else {
                session.timestamp == if records.created_at is Some {
                    records.created_at->0
                } else {
                    written
                }
            }
        },
{
    let messages = records.messages;
    law_last_activity_is_of_a_turn(messages);
    assert forall|i: int| 0 <= i < messages.len() implies ((#[trigger] messages[i]).timestamp
        matches Some(instant) ==> last_activity(messages) matches Some(last) && !later(
        instant,
        last,
    )) by {
        law_last_activity_is_latest(messages, i);
    }
}

/// Messages that say nothing are left out, and the others are shown without the white
/// space around them, in order.
pub proof fn law_messages_are_tidied_one_by_one(left: Seq<TurnView>, right: Seq<TurnView>)
    ensures
        tidied(left + right) == tidied(left) + tidied(right),
        left.len() == 1 ==> if trimmed(left[0].text).len() == 0 {
            tidied(left).len() == 0
        } else {
            tidied(left) == seq![
                TurnView {
                    user: left[0].user,
                    text: trimmed(left[0].text),
                    timestamp: left[0].timestamp,
                },
            ]
        },
    decreases right.len(),
{
    reveal_with_fuel(tidied, 2);
    let all = left + right;
    if right.len() == 0 {
        assert(all =~= left);
    } else {
        law_messages_are_tidied_one_by_one(left, right.drop_last());
        assert(all.drop_last() =~= left + right.drop_last());
        assert(all.last() == right.last());
    }
    assert(tidied(all) =~= tidied(left) + tidied(right));
    if left.len() == 1 && trimmed(left[0].text).len() > 0 {
        assert(tidied(left) =~= seq![
            TurnView {
                user: left[0].user,
                text: trimmed(left[0].text),
                timestamp: left[0].timestamp,
            },
        ]);
    }
}

proof fn lemma_first_tidied(messages: Seq<TurnView>, k: int)
    requires
        0 <= k < messages.len(),
        messages[k].user,
        trimmed(messages[k].text).len() > 0,
        forall|i: int|
            0 <= i < k ==> !(#[trigger] messages[i]).user || trimmed(messages[i].text).len() == 0,
    ensures
        first_user_text(tidied(messages)) == Some(trimmed(messages[k].text)),
{
    let before = messages.take(k);
    let this = seq![messages[k]];
    let after = messages.skip(k + 1);
    assert(messages =~= before + this + after);
    law_messages_are_tidied_one_by_one(before + this, after);
    law_messages_are_tidied_one_by_one(before, this);
    law_messages_are_tidied_one_by_one(this, seq![]);
    assert forall|i: int| 0 <= i < before.len() implies !(#[trigger] before[i]).user || trimmed(
        before[i].text,
    ).len() == 0 by {
        assert(before[i] == messages[i]);
    }
    lemma_no_user_tidied(before);
    let turns = tidied(messages);
    let place = tidied(before).len() as int;
    assert(turns =~= tidied(before) + tidied(this) + tidied(after));
    assert(turns[place] == tidied(this)[0]);
    assert forall|i: int| 0 <= i < place implies !(#[trigger] turns[i]).user by {
        assert(turns[i] == tidied(before)[i]);
    }
    law_first_user_text(turns, place);
}

proof fn lemma_no_user_tidied(messages: Seq<TurnView>)
    requires
        forall|i: int|
            0 <= i < messages.len() ==> !(#[trigger] messages[i]).user || trimmed(
                messages[i].text,
            ).len() == 0,
    ensures
        forall|i: int| 0 <= i < tidied(messages).len() ==> !(#[trigger] tidied(messages)[i]).user,
    decreases messages.len(),
{
    if messages.len() > 0 {
        let rest = messages.drop_last();
        assert forall|i: int| 0 <= i < rest.len() implies !(#[trigger] rest[i]).user || trimmed(
            rest[i].text,
        ).len() == 0 by {
            assert(rest[i] == messages[i]);
        }
        lemma_no_user_tidied(rest);
        assert(!messages[messages.len() - 1].user || trimmed(
            messages[messages.len() - 1].text,
        ).len() == 0);
        assert forall|i: int| 0 <= i < tidied(messages).len() implies !(#[trigger] tidied(
            messages,
        )[i]).user by {
            if i < tidied(rest).len() {
                assert(tidied(messages)[i] == tidied(rest)[i]);
            }
        }
    }
}

/// A chat without a title is titled by the first message of the user that says anything,
/// however it goes on; one with a title by that. Either is cut where it is long.
pub proof fn law_first_message_titles_the_chat(
    path: ChatPathView,
    records: RecordsView,
    directory: Seq<char>,
    written: Timestamp,
    mtime: u64,
    k: int,
)
    requires
        0 <= k < records.messages.len(),
        records.messages[k].user,
        trimmed(records.messages[k].text).len() > 0,
        forall|i: int|
            0 <= i < k ==> !(#[trigger] records.messages[i]).user || trimmed(
                records.messages[i].text,
            ).len() == 0,
    ensures
        records_session(path, records, directory, written, mtime) matches Some(session) && {
            let title = if trimmed(records.title).len() > 0 {
                trimmed(records.title)
            } else {
                trimmed(records.messages[k].text)
            };
            let cut = session.title.len() - 3;
            if title.len() <= 100 {
                session.title == title
            } else {
                &&& 0 <= cut <= 100
                &&& session.title.take(cut) == title.take(cut)
                &&& session.title[cut] == '.' && session.title[cut + 1] == '.'
                    && session.title[cut + 2] == '.'
                &&& cut < 100 ==> title[cut] == ' '
            }
        },
{
    lemma_first_tidied(records.messages, k);
    let first = trimmed(records.messages[k].text);
    law_trim_twice(records.messages[k].text, CharClass::WhiteSpace);
    let whole = if trimmed(records.title).len() > 0 {
        records.title
    } else {
        first
    };
    if trimmed(whole).len() > 100 {
        law_long_title_is_cut(whole, 100, true);
    }
}

/// A chat is listed exactly if the user says anything in it: under the name of its
/// directory, with all messages that say anything shown and all of the user counted.
pub proof fn law_chat_tells_of_its_messages(
    path: ChatPathView,
    records: RecordsView,
    directory: Seq<char>,
    written: Timestamp,
    mtime: u64,
)
    ensures
        records_session(path, records, directory, written, mtime) is Some <==> exists|k: int|
            0 <= k < records.messages.len() && (#[trigger] records.messages[k]).user && trimmed(
                records.messages[k].text,
            ).len() > 0,
        records_session(path, records, directory, written, mtime) matches Some(session) ==> {
            &&& path.parent matches Some(parent) ==> session.id == parent
            &&& path.parent is None ==> session.id.len() == 0
            &&& trimmed(records.directory).len() > 0 ==> session.directory == records.directory
            &&& trimmed(records.directory).len() == 0 ==> session.directory == directory
            &&& session.content == content_of(tidied(records.messages))
            &&& session.message_count == records.messages.filter(
                |turn: TurnView| turn.user,
            ).len()
            &&& session.mtime == mtime
        },
{
    law_user_turns_are_counted(records.messages);
    let messages = records.messages;
    if exists|k: int|
        0 <= k < messages.len() && (#[trigger] messages[k]).user && trimmed(messages[k].text).len()
            > 0 {
        let k = choose|k: int|
            0 <= k < messages.len() && (#[trigger] messages[k]).user && trimmed(
                messages[k].text,
            ).len() > 0;
        lemma_some_first(messages, k);
    } else {
        lemma_no_user_tidied(messages);
        law_no_text_without_the_user(tidied(messages));
    }
}

proof fn lemma_some_first(messages: Seq<TurnView>, k: int)
    requires
        0 <= k < messages.len(),
        messages[k].user,
        trimmed(messages[k].text).len() > 0,
    ensures
        first_user_text(tidied(messages)) is Some,
    decreases k,
{
    if exists|i: int|
        0 <= i < k && (#[trigger] messages[i]).user && trimmed(messages[i].text).len() > 0 {
        let i = choose|i: int|
            0 <= i < k && (#[trigger] messages[i]).user && trimmed(messages[i].text).len() > 0;
        lemma_some_first(messages, i);
    } else {
        lemma_first_tidied(messages, k);
    }
}

/// What the metadata of a chat tell is told entry by entry, and entries that are no
/// documents tell nothing.
pub proof fn law_metadata_are_told_in_order(
    entries: Seq<(Seq<char>, Seq<u8>)>,
    last: (Seq<char>, Seq<u8>),
)
    ensures
        meta_records(seq![]) == no_records(),
        meta_records(entries.push(last)) == match decoded_json(last.1) {
            Some(value) => with_metadata(meta_records(entries), value),
            None => meta_records(entries),
        },
        meta_records(entries).messages.len() == 0,
    decreases entries.len(),
{
    assert(entries.push(last).drop_last() =~= entries);
    if entries.len() > 0 {
        law_metadata_are_told_in_order(entries.drop_last(), last);
    }
}

/// A stored value is a record wherever it is a document; only another one can be a plain
/// message, which the user says at no certain time. Values are told one by one.
pub proof fn law_values_are_told_in_order(
    records: RecordsView,
    entries: Seq<(Seq<char>, Seq<u8>)>,
    last: (Seq<char>, Seq<u8>),
)
    ensures
        with_blobs(records, seq![]) == records,
        ({
            let before = with_blobs(records, entries);
            let after = with_blobs(records, entries.push(last));
            match (decoded_json(last.1), plain_message(last.1)) {
                (Some(value), _) => after == with_record(before, value),
                (None, Some(text)) => {
                    &&& after.messages.len() == before.messages.len() + 1
                    &&& after.messages.drop_last() == before.messages
                    &&& after.messages.last().user && after.messages.last().text == text
                    &&& after.messages.last().timestamp is None
                    &&& after.title == before.title && after.directory == before.directory
                    &&& after.created_at == before.created_at
                },
                (None, None) => after == before,
            }
        }),
{
    assert(entries.push(last).drop_last() =~= entries);
    let before = with_blobs(records, entries);
    if let Some(text) = plain_message(last.1) {
        let message = TurnView { user: true, text, timestamp: None };
        assert(before.messages.push(message).drop_last() =~= before.messages);
    }
}

/// A database of which a table cannot be read tells nothing; one that can be read tells
/// its metadata before its values.
pub proof fn law_store_records(store: CursorStore)
    ensures
        table_entries(store.meta) is Err || table_entries(store.blobs) is Err <==> store_records(
            store,
        ) is Err,
        table_entries(store.meta) is Ok && table_entries(store.blobs) is Ok ==> store_records(store)
            == Ok::<RecordsView, StoreError>(
            with_blobs(
                meta_records(table_entries(store.meta)->Ok_0),
                table_entries(store.blobs)->Ok_0,
            ),
        ),
{
}

/// A database without a session tells that it is gone, and one that cannot be read tells
/// nothing.
pub proof fn law_store_outcome(session: SessionView, error: StoreError)
    ensures
        store_outcome(Ok(Some(session))) == ParseView::Session(session),
        store_outcome(Ok(None)) is Delete,
        store_outcome(Err(error)) is Retain,
{
}

/// The id of a chat is the name of the directory of its database, whatever stands above.
pub proof fn law_chat_id(path: ChatPathView)
    ensures
        chat_id(path) is Some <==> (path.name == Some("store.db"@) && path.parent is Some
            && path.parent->0.len() > 0),
        chat_id(path) is Some ==> chat_id(path) == path.parent,
{
}

/// The last database of a chat is the one that is scanned, and nothing is scanned for a
/// chat that has none.
pub proof fn law_last_database_is_scanned(
    entries: Seq<Option<WalkEntry>>,
    id: Seq<char>,
    k: int,
)
    requires
        -1 <= k < entries.len(),
        k >= 0 ==> entries[k] is Some && chat_id(entries[k]->0.path@) == Some(id),
        forall|i: int|
            k < i < entries.len() ==> ((#[trigger] entries[i]) matches Some(entry) ==> chat_id(
                entry.path@,
            ) != Some(id)),
    ensures
        lookup(walked_files(entries).files, id) == if k >= 0 {
            Some(
                ScannedChatView {
                    path: entries[k]->0.path@,
                    mtime: entries[k]->0.sqlite_mtime,
                },
            )
        } else {
            None
        },
    decreases entries.len(),
{
    if entries.len() > 0 {
        let rest = entries.drop_last();
        law_walked_files(rest);
        assert(entries[entries.len() - 1] == entries.last());
        if k < rest.len() {
            assert forall|i: int| k < i < rest.len() implies ((#[trigger] rest[i]) matches Some(
                entry,
            ) ==> chat_id(entry.path@) != Some(id)) by {
                assert(rest[i] == entries[i]);
            }
            law_last_database_is_scanned(rest, id, k);
        }
        if let Some(entry) = entries.last() {
            if let Some(last_id) = chat_id(entry.path@) {
                law_upsert(
                    walked_files(rest).files,
                    last_id,
                    ScannedChatView { path: entry.path@, mtime: entry.sqlite_mtime },
                    id,
                );
            }
        }
    }
}

/// A scan fails exactly if the directory of chats is there and cannot be listed.
pub proof fn law_walk_fails_on_what_cannot_be_listed(walk: Listing<WalkEntry>)
    ensures
        all_chat_files(walk) is None <==> walk is Unreadable,
        walk is Missing ==> all_chat_files(walk)->0.files.len() == 0 && all_chat_files(
            walk,
        )->0.complete,
        walk matches Listing::Entries(entries) ==> all_chat_files(walk) == Some(
            walked_files(entries@),
        ),
{
}

/// The directory that a path encodes is what the name two levels above the database
/// decodes to, and none where that is not absolute.
pub proof fn law_encoded_directory(path: ChatPathView, directory: Seq<char>)
    requires
        path_directory_outcome(path, directory),
    ensures
        directory.len() > 0 ==> path.grandparent is Some && directory == percent_decoded(
            path.grandparent->0,
        ),
        directory.len() > 0 ==> directory[0] == '/' || directory[0] == '\\' || (directory.len() > 2
            && directory[1] == ':' && (directory[2] == '/' || directory[2] == '\\')),
        encoded_directory(path, true) == percent_decoded(
            if path.grandparent is Some {
                path.grandparent->0
            } else {
                seq![]
            },
        ),
{
    if path.grandparent is None {
        law_nothing_decodes_to_nothing();
    }
}

/// The sessions of chats are theirs one by one, in order; a chat that cannot be read has
/// none.
pub proof fn law_chats_make_sessions_in_order(
    chats: Seq<ChatStore>,
    directories: Seq<Seq<char>>,
    last: ChatStore,
    directory: Seq<char>,
)
    ensures
        chat_sessions(seq![], seq![]).len() == 0,
        ({
            let before = chat_sessions(chats, directories);
            let after = chat_sessions(chats.push(last), directories.push(directory));
            match chat_store_session(last, directory) {
                Ok(Some(session)) => after.len() == before.len() + 1 && after.last() == session
                    && after.drop_last() == before,
                _ => after == before,
            }
        }),
{
    assert(chats.push(last).drop_last() =~= chats);
    assert(directories.push(directory).drop_last() =~= directories);
    let before = chat_sessions(chats, directories);
    if let Ok(Some(session)) = chat_store_session(last, directory) {
        assert(before.push(session).drop_last() =~= before);
    }
}

/// The session of a chat is that of what its database tells.
pub proof fn law_chat_store_session(chat: ChatStore, directory: Seq<char>)
    ensures
        store_records(chat.store) is Err <==> chat_store_session(chat, directory) is Err,
        store_records(chat.store) matches Ok(records) ==> chat_store_session(chat, directory)
            == Ok::<Option<SessionView>, StoreError>(
            records_session(chat.path@, records, directory, chat.written, chat.mtime),
        ),
{
}

/// What databases of chats take up is counted one by one; other files are not.
pub proof fn law_chat_databases_are_counted(left: Seq<NamedStats>, right: Seq<NamedStats>)
    ensures
        chat_stats(left + right) == chat_stats(left) + chat_stats(right),
        left.len() == 1 ==> chat_stats(left) == if left[0].name.exact && left[0].name.text@
            == "store.db"@ {
            seq![left[0].stats]
        } else {
            seq![]
        },
    decreases right.len(),
{
    reveal_with_fuel(chat_stats, 2);
    let all = left + right;
    if right.len() == 0 {
        assert(all =~= left);
    } else {
        law_chat_databases_are_counted(left, right.drop_last());
        assert(all.drop_last() =~= left + right.drop_last());
        assert(all.last() == right.last());
    }
    assert(chat_stats(all) =~= chat_stats(left) + chat_stats(right));
    if left.len() == 1 {
        assert(chat_stats(left) =~= if left[0].name.exact && left[0].name.text@ == "store.db"@ {
            seq![left[0].stats]
        } else {
            seq![]
        });
    }
}

} // verus!
