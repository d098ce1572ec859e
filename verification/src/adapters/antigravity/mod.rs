//! Antigravity CLI sessions: transcripts in lines of JSON, databases of protobuf
//! steps, and a history that maps conversations back to workspaces.

use std::path::PathBuf;

use vstd::prelude::*;

pub mod files;
pub mod steps;
pub mod transcript;
pub mod workspaces;

use crate::adapters::antigravity::files::{
    all_session_files, antigravity_session_id, brain_file, brain_files, choose_transcript,
    collect_database_stats, database_files, database_name_id, database_stats, facts_mtime,
    facts_size, is_sqlite_database, join_transcript, logs_path, names_database, newer, newer_of,
    path_view, preferred_path, preferred_transcript, BrainEntry, DatabaseEntry,
};
use crate::adapters::antigravity::steps::{
    directory_outcome, row_turns, store_directory, store_metadata, stored_turns, StepStore,
    StepStoreView,
};
use crate::adapters::antigravity::transcript::{
    line_documents, parse_lines, parse_transcript, transcript_turns,
};
use crate::adapters::antigravity::workspaces::{
    add_history, document_workspaces, history_workspaces, workspaces_in_cache,
};
use crate::adapters::shared::{
    build_resume_command, incremental_parse_jsonl, incremental_scan, jsonl_outcome, resume_words,
    scan_all, scan_inputs, scan_report, session_files_view, session_views, store_result, str_texts,
    sum_stats, total_bytes, total_files, IgnoreSessions, IncrementalParse, IncrementalScan,
    KnownSessions, Listing, NamedStats, ParseView, ScanEntry, ScannedFile, SessionCallback,
    SessionFiles, StoreError,
};
use crate::json::{optional_document, or_empty, parse_optional_json};
use crate::model::{
    content_of, count_user_turns, find_first_user, find_last_activity, first_user_text,
    last_activity, law_first_user_text, law_last_activity_is_latest, law_last_activity_is_of_a_turn,
    law_later_turns_do_not_title, law_long_title_is_cut, law_no_text_without_the_user,
    law_user_turns_are_counted, render_content, session_view, truncate_title, truncated, turn_views,
    user_turns, RawAdapterStats, Session, SessionView, Turn, TurnView, TITLE_LENGTH,
};
use crate::paths::{name_above, path_stem, FsPath, FsPathView};
use crate::string_map::{lookup, StringMap};
use crate::text::{bytes_view, either_text, text_view, texts, trim, trimmed};
use crate::time::{later, Timestamp};

verus! {

/// The sessions of the Antigravity CLI.
#[derive(Debug)]
pub struct AntigravityAdapter {
    pub data_dir: PathBuf,
}

impl Clone for AntigravityAdapter {
    fn clone(&self) -> (copy: Self)
        ensures
            copy == *self,
    {
        AntigravityAdapter { data_dir: self.data_dir.clone() }
    }
}

/// When a file was written: the instant that stands for the session where its turns
/// name none, the modification time of the file itself, and that of the file as a
/// database, with the files that belong to it.
#[derive(Debug, Clone, Copy)]
pub struct FileTimes {
    pub timestamp: Timestamp,
    pub file_mtime: u64,
    pub sqlite_mtime: u64,
}

/// A transcript and its lines, unless it could not be opened.
pub struct Transcript {
    pub path: FsPath,
    pub lines: Option<Vec<String>>,
    pub times: FileTimes,
}

#[verifier::ext_equal]
pub struct TranscriptView {
    pub path: FsPathView,
    pub lines: Option<Seq<Seq<char>>>,
    pub times: FileTimes,
}

impl View for Transcript {
    type V = TranscriptView;

    open spec fn view(&self) -> TranscriptView {
        TranscriptView {
            path: self.path@,
            lines: match self.lines {
                Some(lines) => Some(texts(lines@)),
                None => None,
            },
            times: self.times,
        }
    }
}

pub open spec fn transcript_view(transcript: Option<Transcript>) -> Option<TranscriptView> {
    match transcript {
        Some(t) => Some(t@),
        None => None,
    }
}

/// The modification time of a source of sessions. A change of the workspaces counts
/// as a change of every source.
pub open spec fn source_mtime_of(
    path: FsPathView,
    times: FileTimes,
    workspace_mtime: u64,
) -> u64 {
    newer(
        if names_database(path) {
            times.sqlite_mtime
        } else {
            times.file_mtime
        },
        workspace_mtime,
    )
}

/// The session that turns make, if the user takes part in it.
pub open spec fn turns_session(
    id: Seq<char>,
    turns: Seq<TurnView>,
    directory: Seq<char>,
    written: Timestamp,
    mtime: u64,
) -> Option<SessionView> {
    match first_user_text(turns) {
        Some(first) => Some(
            SessionView {
                id,
                agent: "antigravity"@,
                title: truncated(first, TITLE_LENGTH as nat, true),
                directory,
                timestamp: match last_activity(turns) {
                    Some(instant) => instant,
                    None => written,
                },
                content: content_of(turns),
                message_count: user_turns(turns),
                mtime,
            },
        ),
        None => None,
    }
}

/// The session that turns make, if the user takes part in it.
pub fn session_from_turns(
    id: String,
    turns: &Vec<Turn>,
    directory: String,
    written: Timestamp,
    mtime: u64,
) -> (session: Option<Session>)
    ensures
        session_view(session) == turns_session(
            id@,
            turn_views(turns@),
            directory@,
            written,
            mtime,
        ),
{
    let title = match find_first_user(turns) {
        Some(first) => truncate_title(first.as_str(), TITLE_LENGTH, true),
        None => return None,
    };
    let timestamp = match find_last_activity(turns) {
        Some(instant) => instant,
        None => written,
    };
    let mut session = Session::new(
        id,
        "antigravity",
        title,
        directory,
        timestamp,
        render_content(turns),
        count_user_turns(turns),
    );
    session.mtime = mtime;
    Some(session)
}

/// The session of a transcript.
pub open spec fn transcript_session(
    transcript: TranscriptView,
    workspaces: Seq<(Seq<char>, Seq<char>)>,
    workspace_mtime: u64,
) -> Option<SessionView> {
    match (name_above(transcript.path, 3), transcript.lines) {
        (Some(id), Some(lines)) => turns_session(
            id,
            transcript_turns(line_documents(lines)),
            or_empty(lookup(workspaces, id)),
            transcript.times.timestamp,
            source_mtime_of(transcript.path, transcript.times, workspace_mtime),
        ),
        _ => None,
    }
}

/// The directory of a conversation, as far as the workspaces tell.
fn workspace_of(workspaces: &StringMap<String>, id: &str) -> (directory: String)
    ensures
        directory@ == or_empty(lookup(workspaces@, id@)),
{
    match workspaces.get(id) {
        Some(directory) => directory.clone(),
        None => String::new(),
    }
}

/// The id of a stored conversation: the one that it names, unless that is blank, or
/// else the name of its file.
pub open spec fn store_id(given: Option<Seq<char>>, path: FsPathView) -> Seq<char> {
    match given {
        Some(id) => if trimmed(id).len() > 0 {
            id
        } else {
            or_empty(path_stem(path))
        },
        None => or_empty(path_stem(path)),
    }
}

/// The session of a database, given the directory that its metadata stand for.
pub open spec fn store_session(
    path: FsPathView,
    times: FileTimes,
    store: StepStoreView,
    directory: Option<Seq<char>>,
    workspaces: Seq<(Seq<char>, Seq<char>)>,
    workspace_mtime: u64,
) -> Result<Option<SessionView>, StoreError> {
    match store.cascade_id {
        Err(error) => Err(error),
        Ok(given) => {
            let id = store_id(given, path);
            if id.len() == 0 {
                Ok(None)
            } else {
                match (store.metadata, store.steps) {
                    (Err(error), _) => Err(error),
                    (Ok(_), Err(error)) => Err(error),
                    (Ok(_), Ok(rows)) => Ok(
                        turns_session(
                            id,
                            row_turns(rows),
                            or_empty(either_text(directory, lookup(workspaces, id))),
                            times.timestamp,
                            source_mtime_of(path, times, workspace_mtime),
                        ),
                    ),
                }
            }
        },
    }
}

/// The session of a database, given the directory that its metadata stand for.
pub fn sqlite_session(
    path: &FsPath,
    times: FileTimes,
    store: &StepStore,
    directory: Option<String>,
    workspaces: &StringMap<String>,
    workspace_mtime: u64,
) -> (session: Result<Option<Session>, StoreError>)
    ensures
        store_result(session) == store_session(
            path@,
            times,
            store@,
            text_view(directory),
            workspaces@,
            workspace_mtime,
        ),
{
    let given = match &store.cascade_id {
        Ok(given) => given,
        Err(error) => return Err(*error),
    };
    let stem = match path.file_stem() {
        Some(stem) => stem,
        None => String::new(),
    };
    let id = match given {
        Some(id) => if !trim(id.as_str()).as_str().is_empty() {
            id.clone()
        } else {
            stem
        },
        None => stem,
    };
    if id.as_str().is_empty() {
        return Ok(None);
    }
    if let Err(error) = &store.metadata {
        return Err(*error);
    }
    let rows = match &store.steps {
        Ok(rows) => rows,
        Err(error) => return Err(*error),
    };
    let directory = match directory {
        Some(directory) => directory,
        None => workspace_of(workspaces, id.as_str()),
    };
    let turns = stored_turns(rows);
    let mtime = source_mtime(path, times, workspace_mtime);
    Ok(session_from_turns(id, &turns, directory, times.timestamp, mtime))
}

/// The modification time of a source of sessions.
pub fn source_mtime(path: &FsPath, times: FileTimes, workspace_mtime: u64) -> (mtime: u64)
    ensures
        mtime == source_mtime_of(path@, times, workspace_mtime),
{
    let own = if is_sqlite_database(path) {
        times.sqlite_mtime
    } else {
        times.file_mtime
    };
    newer_of(own, workspace_mtime)
}

/// When the workspaces last changed: the newer of the history and the cache.
pub fn workspace_mtime(history_mtime: u64, cache_mtime: u64) -> (mtime: u64)
    ensures
        mtime == newer(history_mtime, cache_mtime),
{
    newer_of(history_mtime, cache_mtime)
}

/// A file that may hold a session. A database comes with what its queries gave and
/// with the transcript of the same conversation, if there is one; any other file is
/// itself the transcript.
pub struct SessionFile {
    pub path: FsPath,
    pub times: FileTimes,
    pub store: StepStore,
    pub transcript: Option<Transcript>,
}

#[verifier::ext_equal]
pub struct SessionFileView {
    pub path: FsPathView,
    pub times: FileTimes,
    pub store: StepStoreView,
    pub transcript: Option<TranscriptView>,
}

impl View for SessionFile {
    type V = SessionFileView;

    open spec fn view(&self) -> SessionFileView {
        SessionFileView {
            path: self.path@,
            times: self.times,
            store: self.store@,
            transcript: transcript_view(self.transcript),
        }
    }
}

/// The session of an optional transcript.
pub open spec fn optional_transcript_session(
    transcript: Option<TranscriptView>,
    workspaces: Seq<(Seq<char>, Seq<char>)>,
    workspace_mtime: u64,
) -> Option<SessionView> {
    match transcript {
        Some(t) => transcript_session(t, workspaces, workspace_mtime),
        None => None,
    }
}

/// The session of a file, given the directory that its metadata stand for: that of
/// the database, or else that of the transcript.
pub open spec fn file_session(
    file: SessionFileView,
    directory: Option<Seq<char>>,
    workspaces: Seq<(Seq<char>, Seq<char>)>,
    workspace_mtime: u64,
) -> Option<SessionView> {
    let from_transcript = optional_transcript_session(
        file.transcript,
        workspaces,
        workspace_mtime,
    );
    if names_database(file.path) {
        match store_session(
            file.path,
            file.times,
            file.store,
            directory,
            workspaces,
            workspace_mtime,
        ) {
            Ok(Some(session)) => Some(session),
            _ => from_transcript,
        }
    } else {
        from_transcript
    }
}

/// What reading an optional transcript gave.
pub open spec fn optional_transcript_outcome(
    transcript: Option<TranscriptView>,
    workspaces: Seq<(Seq<char>, Seq<char>)>,
    workspace_mtime: u64,
    missing: ParseView,
) -> ParseView {
    match transcript {
        Some(t) => jsonl_outcome(
            t.lines is Some,
            transcript_session(t, workspaces, workspace_mtime),
        ),
        None => missing,
    }
}

/// What reading a changed file gave, given the directory that its metadata stand
/// for. A database that cannot be read leaves what is known as it is; one without a
/// session leaves the transcript to decide.
pub open spec fn file_outcome(
    file: SessionFileView,
    directory: Option<Seq<char>>,
    workspaces: Seq<(Seq<char>, Seq<char>)>,
    workspace_mtime: u64,
) -> ParseView {
    if names_database(file.path) {
        match store_session(
            file.path,
            file.times,
            file.store,
            directory,
            workspaces,
            workspace_mtime,
        ) {
            Ok(Some(session)) => ParseView::Session(session),
            Ok(None) => optional_transcript_outcome(
                file.transcript,
                workspaces,
                workspace_mtime,
                ParseView::Delete,
            ),
            Err(_) => ParseView::Retain,
        }
    } else {
        optional_transcript_outcome(
            file.transcript,
            workspaces,
            workspace_mtime,
            ParseView::Retain,
        )
    }
}

/// A database that cannot be opened costs nothing: its session is that of the
/// transcript, and nothing known is given up for it.
pub proof fn law_unreadable_database(
    file: SessionFileView,
    directory: Option<Seq<char>>,
    workspaces: Seq<(Seq<char>, Seq<char>)>,
    workspace_mtime: u64,
)
    requires
        names_database(file.path),
        file.store.cascade_id is Err,
    ensures
        file_session(file, directory, workspaces, workspace_mtime) == optional_transcript_session(
            file.transcript,
            workspaces,
            workspace_mtime,
        ),
        file_outcome(file, directory, workspaces, workspace_mtime) == ParseView::Retain,
{
}

/// A session is as new as its source and as the workspaces, and a change of either
/// shows.
pub proof fn law_session_is_as_new_as_its_sources(
    file: SessionFileView,
    directory: Option<Seq<char>>,
    workspaces: Seq<(Seq<char>, Seq<char>)>,
    workspace_mtime: u64,
)
    ensures
        file_session(file, directory, workspaces, workspace_mtime) matches Some(session) ==> {
            &&& session.mtime >= workspace_mtime
            &&& session.mtime == source_mtime_of(file.path, file.times, workspace_mtime) || (
            file.transcript matches Some(transcript) && session.mtime == source_mtime_of(
                transcript.path,
                transcript.times,
                workspace_mtime,
            ))
            &&& session.agent == "antigravity"@
        },
{
}

/// The sessions of files, given the directories that their metadata stand for.
pub open spec fn file_sessions(
    files: Seq<SessionFile>,
    directories: Seq<Option<Seq<char>>>,
    workspaces: Seq<(Seq<char>, Seq<char>)>,
    workspace_mtime: u64,
) -> Seq<SessionView>
    decreases files.len(),
{
    if files.len() == 0 {
        seq![]
    } else {
        let before = file_sessions(
            files.drop_last(),
            directories.drop_last(),
            workspaces,
            workspace_mtime,
        );
        match file_session(files.last()@, directories.last(), workspaces, workspace_mtime) {
            Some(session) => before.push(session),
            None => before,
        }
    }
}

/// Directories that the metadata of these files can stand for.
pub open spec fn directory_outcomes(
    files: Seq<SessionFile>,
    directories: Seq<Option<Seq<char>>>,
) -> bool {
    &&& directories.len() == files.len()
    &&& forall|i: int|
        0 <= i < files.len() ==> directory_outcome(
            store_metadata((#[trigger] files[i]).store@),
            directories[i],
        )
}

impl AntigravityAdapter {
    /// The sessions below `data_dir`.
    pub fn new(data_dir: PathBuf) -> (adapter: Self)
        ensures
            adapter.data_dir == data_dir,
    {
        AntigravityAdapter { data_dir }
    }

    /// The name of the agent.
    pub fn name(&self) -> (name: &'static str)
        ensures
            name@ == "antigravity"@,
    {
        "antigravity"
    }

    /// The agent can be told to skip permissions.
    pub fn supports_yolo(&self) -> (supported: bool)
        ensures
            supported,
    {
        true
    }

    /// The command that resumes a session.
    pub fn resume_command(&self, session: &Session, yolo: bool) -> (command: Vec<String>)
        ensures
            texts(command@) == resume_words(
                "agy"@,
                seq!["--dangerously-skip-permissions"@],
                yolo,
                seq!["--conversation"@],
                session.id@,
            ),
    {
        let flags = ["--dangerously-skip-permissions"];
        let arguments = ["--conversation"];
        assert(str_texts(flags@) =~= seq!["--dangerously-skip-permissions"@]);
        assert(str_texts(arguments@) =~= seq!["--conversation"@]);
        build_resume_command("agy", &flags, yolo, &arguments, session.id.as_str())
    }

    /// The workspaces that the bytes of the cache tell of, if it could be read.
    pub fn last_conversations_map(&self, cache: &Option<Vec<u8>>) -> (workspaces: StringMap<
        String,
    >)
        ensures
            workspaces@ == document_workspaces(optional_document(bytes_view(*cache))),
    {
        match parse_optional_json(cache) {
            Some(document) => workspaces_in_cache(Some(&document)),
            None => workspaces_in_cache(None),
        }
    }

    /// The workspaces of conversations, as the cache and the lines of the history tell,
    /// where these could be read.
    pub fn workspace_map(&self, history: &Option<Vec<String>>, cache: &Option<Vec<u8>>) -> (
        workspaces: StringMap<String>)
        ensures
            workspaces@ == history_workspaces(
                document_workspaces(optional_document(bytes_view(*cache))),
                match *history {
                    Some(lines) => line_documents(texts(lines@)),
                    None => seq![],
                },
            ),
    {
        let workspaces = self.last_conversations_map(cache);
        match history {
            Some(lines) => {
                let documents = parse_lines(lines);
                add_history(workspaces, &documents)
            },
            None => workspaces,
        }
    }

    fn logs_of(&self, id: &str) -> (logs: FsPath)
        ensures
            logs@ == logs_path(self.data_dir, id@),
    {
        FsPath::at(self.data_dir.clone()).join("brain").join(id).join(".system_generated").join(
            "logs",
        )
    }

    /// The transcript of a conversation, given the sizes of its two transcripts.
    pub fn transcript_for_id(
        &self,
        id: &str,
        regular_size: Option<u64>,
        full_size: Option<u64>,
    ) -> (path: Option<FsPath>)
        ensures
            path_view(path) == preferred_path(
                logs_path(self.data_dir, id@),
                regular_size,
                full_size,
            ),
    {
        preferred_transcript(&self.logs_of(id), regular_size, full_size)
    }

    fn transcript_in(&self, entry: &BrainEntry, history_mtime: u64) -> (found: Option<
        (String, ScannedFile),
    >)
        ensures
            match found {
                Some((id, file)) => brain_file(self.data_dir, *entry, history_mtime) == Some(
                    (id@, file@),
                ),
                None => brain_file(self.data_dir, *entry, history_mtime) is None,
            },
    {
        if !entry.is_dir {
            return None;
        }
        let id = match &entry.name {
            Some(name) => name.clone(),
            None => return None,
        };
        if id.as_str().is_empty() {
            return None;
        }
        let full = match choose_transcript(facts_size(&entry.regular), facts_size(&entry.full)) {
            Some(full) => full,
            None => return None,
        };
        let own = if full {
            facts_mtime(&entry.full)
        } else {
            facts_mtime(&entry.regular)
        };
        let path = join_transcript(&self.logs_of(id.as_str()), full);
        Some((id, ScannedFile { path, mtime: newer_of(own, history_mtime) }))
    }

    fn scan_transcripts(&self, entries: &Vec<Option<BrainEntry>>, history_mtime: u64) -> (found:
        SessionFiles)
        ensures
            found@ == brain_files(self.data_dir, entries@, history_mtime),
    {
        let mut found = SessionFiles { files: StringMap::new(), complete: true };
        let mut i: usize = 0;
        assert(found@ == brain_files(self.data_dir, entries@.take(0), history_mtime));
        while i < entries.len()
            invariant
                i <= entries@.len(),
                found@ == brain_files(self.data_dir, entries@.take(i as int), history_mtime),
            decreases entries@.len() - i,
        {
            assert(entries@.take(i + 1).drop_last() =~= entries@.take(i as int));
            match &entries[i] {
                None => {
                    found.complete = false;
                },
                Some(entry) => {
                    if let Some((id, file)) = self.transcript_in(entry, history_mtime) {
                        found.files.insert(id, file);
                    }
                },
            }
            i += 1;
        }
        assert(entries@.take(i as int) =~= entries@);
        found
    }

    fn scan_databases(
        &self,
        before: SessionFiles,
        entries: &Vec<Option<DatabaseEntry>>,
        history_mtime: u64,
    ) -> (found: SessionFiles)
        ensures
            found@ == database_files(self.data_dir, before@, entries@, history_mtime),
    {
        let mut found = before;
        let mut i: usize = 0;
        assert(entries@.take(0) =~= Seq::<Option<DatabaseEntry>>::empty());
        while i < entries.len()
            invariant
                i <= entries@.len(),
                found@ == database_files(
                    self.data_dir,
                    before@,
                    entries@.take(i as int),
                    history_mtime,
                ),
            decreases entries@.len() - i,
        {
            assert(entries@.take(i + 1).drop_last() =~= entries@.take(i as int));
            match &entries[i] {
                None => {
                    found.complete = false;
                },
                Some(entry) => {
                    if let Some(name) = &entry.name {
                        if let Some(id) = database_name_id(name.as_str()) {
                            let seen: u64 = match found.files.get(id.as_str()) {
                                Some(file) => file.mtime,
                                None => 0,
                            };
                            let path = FsPath::at(self.data_dir.clone()).join(
                                "conversations",
                            ).join(name.as_str());
                            let mtime = newer_of(
                                newer_of(entry.sqlite_mtime, history_mtime),
                                seen,
                            );
                            found.files.insert(id, ScannedFile { path, mtime });
                        }
                    }
                },
            }
            i += 1;
        }
        assert(entries@.take(i as int) =~= entries@);
        found
    }

    /// All session files by id, unless a directory that is there cannot be listed.
    pub fn scan_session_files(
        &self,
        brain: &Listing<BrainEntry>,
        databases: &Listing<DatabaseEntry>,
        history_mtime: u64,
    ) -> (found: Option<SessionFiles>)
        ensures
            session_files_view(found) == all_session_files(
                self.data_dir,
                *brain,
                *databases,
                history_mtime,
            ),
    {
        let transcripts = match brain {
            Listing::Unreadable => return None,
            Listing::Missing => SessionFiles { files: StringMap::new(), complete: true },
            Listing::Entries(entries) => self.scan_transcripts(entries, history_mtime),
        };
        match databases {
            Listing::Unreadable => None,
            Listing::Missing => Some(transcripts),
            Listing::Entries(entries) => Some(
                self.scan_databases(transcripts, entries, history_mtime),
            ),
        }
    }

    /// The session of a transcript, if it can be read and the user takes part.
    pub fn parse_jsonl_session(
        &self,
        transcript: &Transcript,
        workspaces: &StringMap<String>,
        workspace_mtime: u64,
    ) -> (session: Option<Session>)
        ensures
            session_view(session) == transcript_session(
                transcript@,
                workspaces@,
                workspace_mtime,
            ),
    {
        let id = match antigravity_session_id(&transcript.path) {
            Some(id) => id,
            None => return None,
        };
        let lines = match &transcript.lines {
            Some(lines) => lines,
            None => return None,
        };
        let documents = parse_lines(lines);
        let turns = parse_transcript(&documents);
        let directory = workspace_of(workspaces, id.as_str());
        let mtime = source_mtime(&transcript.path, transcript.times, workspace_mtime);
        session_from_turns(id, &turns, directory, transcript.times.timestamp, mtime)
    }

    /// The session of a database. Its directory may depend on the system; all else is
    /// determined.
    pub fn parse_sqlite_session(
        &self,
        path: &FsPath,
        times: FileTimes,
        store: &StepStore,
        workspaces: &StringMap<String>,
        workspace_mtime: u64,
    ) -> (session: Result<Option<Session>, StoreError>)
        ensures
            exists|directory: Option<Seq<char>>| #[trigger]
                directory_outcome(store_metadata(store@), directory) && store_result(session)
                    == store_session(
                    path@,
                    times,
                    store@,
                    directory,
                    workspaces@,
                    workspace_mtime,
                ),
    {
        let directory = store_directory(store);
        assert(directory_outcome(store_metadata(store@), text_view(directory)));
        sqlite_session(path, times, store, directory, workspaces, workspace_mtime)
    }

    /// The session of a file: that of the database, or else that of the transcript.
    pub fn parse_session(
        &self,
        file: &SessionFile,
        workspaces: &StringMap<String>,
        workspace_mtime: u64,
    ) -> (session: Option<Session>)
        ensures
            exists|directory: Option<Seq<char>>| #[trigger]
                directory_outcome(store_metadata(file.store@), directory) && session_view(session)
                    == file_session(file@, directory, workspaces@, workspace_mtime),
    {
        let directory = store_directory(&file.store);
        assert(directory_outcome(store_metadata(file.store@), text_view(directory)));
        if is_sqlite_database(&file.path) {
            if let Ok(Some(session)) = sqlite_session(
                &file.path,
                file.times,
                &file.store,
                directory,
                workspaces,
                workspace_mtime,
            ) {
                return Some(session);
            }
        }
        match &file.transcript {
            Some(transcript) => self.parse_jsonl_session(transcript, workspaces, workspace_mtime),
            None => None,
        }
    }

    /// What reading a changed file gives.
    pub fn parse_incremental(
        &self,
        file: &SessionFile,
        workspaces: &StringMap<String>,
        workspace_mtime: u64,
    ) -> (outcome: IncrementalParse)
        ensures
            exists|directory: Option<Seq<char>>| #[trigger]
                directory_outcome(store_metadata(file.store@), directory) && outcome@
                    == file_outcome(file@, directory, workspaces@, workspace_mtime),
    {
        let directory = store_directory(&file.store);
        assert(directory_outcome(store_metadata(file.store@), text_view(directory)));
        let missing = if is_sqlite_database(&file.path) {
            match sqlite_session(
                &file.path,
                file.times,
                &file.store,
                directory,
                workspaces,
                workspace_mtime,
            ) {
                Ok(Some(session)) => return IncrementalParse::Session(session),
                Ok(None) => IncrementalParse::Delete,
                Err(_) => return IncrementalParse::Retain,
            }
        } else {
            IncrementalParse::Retain
        };
        match &file.transcript {
            Some(transcript) => incremental_parse_jsonl(
                transcript.lines.is_some(),
                self.parse_jsonl_session(transcript, workspaces, workspace_mtime),
            ),
            None => missing,
        }
    }

    /// The sessions of all files.
    pub fn find_sessions(
        &self,
        files: &Vec<SessionFile>,
        workspaces: &StringMap<String>,
        workspace_mtime: u64,
    ) -> (sessions: Vec<Session>)
        ensures
            exists|directories: Seq<Option<Seq<char>>>| #[trigger]
                directory_outcomes(files@, directories) && session_views(sessions@)
                    == file_sessions(files@, directories, workspaces@, workspace_mtime),
    {
        let mut sessions: Vec<Session> = Vec::new();
        let ghost mut directories: Seq<Option<Seq<char>>> = seq![];
        let mut i: usize = 0;
        assert(session_views(sessions@) =~= Seq::<SessionView>::empty());
        while i < files.len()
            invariant
                i <= files@.len(),
                directory_outcomes(files@.take(i as int), directories),
                session_views(sessions@) == file_sessions(
                    files@.take(i as int),
                    directories,
                    workspaces@,
                    workspace_mtime,
                ),
            decreases files@.len() - i,
        {
            let ghost before = sessions@;
            let ghost known = directories;
            let parsed = self.parse_session(&files[i], workspaces, workspace_mtime);
            proof {
                let directory = choose|directory: Option<Seq<char>>| #[trigger]
                    directory_outcome(store_metadata(files@[i as int].store@), directory)
                        && session_view(parsed) == file_session(
                        files@[i as int]@,
                        directory,
                        workspaces@,
                        workspace_mtime,
                    );
                directories = known.push(directory);
                assert(directories.drop_last() =~= known);
                assert(files@.take(i + 1).drop_last() =~= files@.take(i as int));
                assert forall|j: int| 0 <= j < files@.take(i + 1).len() implies directory_outcome(
                    store_metadata((#[trigger] files@.take(i + 1)[j]).store@),
                    directories[j],
                ) by {
                    if j < i {
                        assert(files@.take(i as int)[j] == files@.take(i + 1)[j]);
                    }
                }
            }
            if let Some(session) = parsed {
                sessions.push(session);
                assert(session_views(sessions@) =~= session_views(before).push(session@));
            }
            i += 1;
        }
        assert(files@.take(i as int) =~= files@);
        assert(directory_outcomes(files@, directories));
        sessions
    }

    /// What the transcripts and the databases take up. `brain` counts the transcripts;
    /// `entries` are what the directory of databases holds.
    pub fn raw_stats(
        &self,
        data_dir: String,
        brain: &RawAdapterStats,
        databases_are_there: bool,
        entries: &Vec<NamedStats>,
    ) -> (stats: RawAdapterStats)
        requires
            brain.file_count + total_files(database_stats(entries@)) <= usize::MAX,
            brain.total_bytes + total_bytes(database_stats(entries@)) <= u64::MAX,
        ensures
            stats.agent@ == "antigravity"@,
            stats.data_dir@ == data_dir@,
            stats.available == (brain.available || databases_are_there),
            stats.file_count == brain.file_count + total_files(database_stats(entries@)),
            stats.total_bytes == brain.total_bytes + total_bytes(database_stats(entries@)),
    {
        let databases = collect_database_stats(entries);
        let sum = sum_stats(&databases);
        RawAdapterStats {
            agent: self.name(),
            data_dir,
            available: brain.available || databases_are_there,
            file_count: brain.file_count + sum.files,
            total_bytes: brain.total_bytes + sum.bytes,
        }
    }

    /// Scans for sessions that are new, changed or gone, and hands out each new or changed
    /// one as it is found.
    pub fn incremental<C: SessionCallback>(
        &self,
        known: &KnownSessions,
        scanned: Option<(Vec<ScanEntry>, bool)>,
        on_session: &mut C,
    ) -> (scan: IncrementalScan)
        ensures
            match scanned {
                Some((files, complete)) => scan_report(
                    known@,
                    "antigravity"@,
                    scan_all(known@, "antigravity"@, complete, scan_inputs(files@)),
                    scan,
                ),
                None => scan.agent@ == "antigravity"@ && scan.new_or_modified@.len() == 0
                    && scan.deleted_ids@.len() == 0,
            },
            final(on_session).handed() == old(on_session).handed() + session_views(
                scan.new_or_modified@,
            ),
    {
        incremental_scan(self.name(), known, scanned, on_session)
    }

    /// Scans for sessions that are new, changed or gone.
    pub fn find_sessions_incremental(
        &self,
        known: &KnownSessions,
        scanned: Option<(Vec<ScanEntry>, bool)>,
    ) -> (scan: IncrementalScan)
        ensures
            match scanned {
                Some((files, complete)) => scan_report(
                    known@,
                    "antigravity"@,
                    scan_all(known@, "antigravity"@, complete, scan_inputs(files@)),
                    scan,
                ),
                None => scan.agent@ == "antigravity"@ && scan.new_or_modified@.len() == 0
                    && scan.deleted_ids@.len() == 0,
            },
    {
        let mut ignore = IgnoreSessions::new();
        self.incremental(known, scanned, &mut ignore)
    }

    /// Scans for sessions that are new, changed or gone, and hands out each new or changed
    /// one as it is found.
    pub fn find_sessions_incremental_streaming<C: SessionCallback>(
        &self,
        known: &KnownSessions,
        scanned: Option<(Vec<ScanEntry>, bool)>,
        on_session: &mut C,
    ) -> (scan: IncrementalScan)
        ensures
            match scanned {
                Some((files, complete)) => scan_report(
                    known@,
                    "antigravity"@,
                    scan_all(known@, "antigravity"@, complete, scan_inputs(files@)),
                    scan,
                ),
                None => scan.agent@ == "antigravity"@ && scan.new_or_modified@.len() == 0
                    && scan.deleted_ids@.len() == 0,
            },
            final(on_session).handed() == old(on_session).handed() + session_views(
                scan.new_or_modified@,
            ),
    {
        self.incremental(known, scanned, on_session)
    }
}

/// There is a session exactly if the user takes part, and it is titled by the first turn
/// of the user: in full where that is short, or else by its beginning and three dots.
pub proof fn law_first_prompt_titles_the_session(
    id: Seq<char>,
    turns: Seq<TurnView>,
    directory: Seq<char>,
    written: Timestamp,
    mtime: u64,
    k: int,
)
    requires
        0 <= k < turns.len(),
        turns[k].user,
        forall|i: int| 0 <= i < k ==> !(#[trigger] turns[i]).user,
    ensures
        turns_session(id, turns, directory, written, mtime) matches Some(session) && {
            let prompt = trimmed(turns[k].text);
            let cut = session.title.len() - 3;
            if prompt.len() <= 100 {
                session.title == prompt
            } else {
                &&& 0 <= cut <= 100
                &&& session.title.take(cut) == prompt.take(cut)
                &&& session.title[cut] == '.' && session.title[cut + 1] == '.'
                    && session.title[cut + 2] == '.'
                &&& cut < 100 ==> prompt[cut] == ' '
            }
        },
{
    law_first_user_text(turns, k);
    if trimmed(turns[k].text).len() > 100 {
        law_long_title_is_cut(turns[k].text, 100, true);
    }
}

/// Without a turn of the user there is no session, and turns that come after one of the
/// user never change the title.
pub proof fn law_later_turns_keep_the_title(
    id: Seq<char>,
    turns: Seq<TurnView>,
    more: Seq<TurnView>,
    directory: Seq<char>,
    written: Timestamp,
    mtime: u64,
)
    ensures
        turns_session(id, turns, directory, written, mtime) is None <==> (forall|i: int|
            0 <= i < turns.len() ==> !(#[trigger] turns[i]).user),
        turns_session(id, turns, directory, written, mtime) matches Some(session) ==> (
        turns_session(id, turns + more, directory, written, mtime) matches Some(longer)
            && longer.title == session.title && longer.id == session.id),
{
    law_no_text_without_the_user(turns);
    if first_user_text(turns) is Some {
        law_later_turns_do_not_title(turns, more);
    }
}

/// A session shows all its turns, counts those of the user, and took place when the
/// latest turn that says so did, or else when its file was written.
pub proof fn law_session_tells_of_its_turns(
    id: Seq<char>,
    turns: Seq<TurnView>,
    directory: Seq<char>,
    written: Timestamp,
    mtime: u64,
)
    ensures
        turns_session(id, turns, directory, written, mtime) matches Some(session) ==> {
            &&& session.id == id && session.directory == directory && session.mtime == mtime
            &&& session.content == content_of(turns)
            &&& session.message_count == turns.filter(|turn: TurnView| turn.user).len()
            &&& (exists|i: int|
                0 <= i < turns.len() && (#[trigger] turns[i]).timestamp == Some(session.timestamp))
                || (session.timestamp == written && forall|i: int|
                0 <= i < turns.len() ==> (#[trigger] turns[i]).timestamp is None)
            &&& forall|i: int|
                0 <= i < turns.len() ==> ((#[trigger] turns[i]).timestamp matches Some(instant)
                    ==> !later(instant, session.timestamp))
        },
{
    law_user_turns_are_counted(turns);
    law_last_activity_is_of_a_turn(turns);
    assert forall|i: int| 0 <= i < turns.len() implies ((#[trigger] turns[i]).timestamp matches Some(
        instant,
    ) ==> last_activity(turns) matches Some(last) && !later(instant, last)) by {
        law_last_activity_is_latest(turns, i);
    }
}

/// A stored conversation goes by the id that it names, and by the name of its file only
/// where it names none but blanks.
pub proof fn law_stored_id(given: Seq<char>, path: FsPathView)
    ensures
        trimmed(given).len() > 0 ==> store_id(Some(given), path) == given,
        trimmed(given).len() == 0 ==> store_id(Some(given), path) == store_id(None, path),
        path_stem(path) matches Some(stem) ==> store_id(None, path) == stem,
        path_stem(path) is None ==> store_id(None, path).len() == 0,
{
}

/// A database that can be read makes the session of its steps, in the directory that its
/// metadata stand for, or else in the one that the workspaces tell.
pub proof fn law_stored_session(
    path: FsPathView,
    times: FileTimes,
    store: StepStoreView,
    directory: Option<Seq<char>>,
    workspaces: Seq<(Seq<char>, Seq<char>)>,
    workspace_mtime: u64,
)
    ensures
        store_session(path, times, store, directory, workspaces, workspace_mtime) matches Ok(
            Some(session),
        ) ==> {
            &&& store.cascade_id is Ok && store.metadata is Ok && store.steps is Ok
            &&& session.id == store_id(store.cascade_id->Ok_0, path) && session.id.len() > 0
            &&& directory is Some ==> session.directory == directory->0
            &&& directory is None && lookup(workspaces, session.id) is Some ==> session.directory
                == lookup(workspaces, session.id)->0
            &&& directory is None && lookup(workspaces, session.id) is None
                ==> session.directory.len() == 0
            &&& session.content == content_of(row_turns(store.steps->Ok_0))
            &&& session.mtime >= times.sqlite_mtime || !names_database(path)
            &&& session.mtime >= times.file_mtime || names_database(path)
            &&& session.mtime >= workspace_mtime
            &&& session.mtime == workspace_mtime || session.mtime == times.sqlite_mtime
                || session.mtime == times.file_mtime
        },
        store.cascade_id is Err || (store_id(store.cascade_id->Ok_0, path).len() > 0 && (
        store.metadata is Err || store.steps is Err)) ==> store_session(
            path,
            times,
            store,
            directory,
            workspaces,
            workspace_mtime,
        ) is Err,
        store.cascade_id is Ok && store_id(store.cascade_id->Ok_0, path).len() == 0
            ==> store_session(path, times, store, directory, workspaces, workspace_mtime) == Ok::<
            Option<SessionView>,
            StoreError,
        >(None),
        store.cascade_id is Ok && store_id(store.cascade_id->Ok_0, path).len() > 0 && store.metadata
            is Ok && store.steps is Ok ==> (store_session(
            path,
            times,
            store,
            directory,
            workspaces,
            workspace_mtime,
        ) matches Ok(session) && (session is Some <==> exists|i: int|
            0 <= i < row_turns(store.steps->Ok_0).len() && (#[trigger] row_turns(
                store.steps->Ok_0,
            )[i]).user)),
{
    if store.steps is Ok {
        law_no_text_without_the_user(row_turns(store.steps->Ok_0));
    }
}

/// A transcript that can be read makes the session of its lines, under the id of its
/// conversation and in the directory that the workspaces tell for it.
pub proof fn law_transcript_session(
    transcript: TranscriptView,
    workspaces: Seq<(Seq<char>, Seq<char>)>,
    workspace_mtime: u64,
)
    ensures
        transcript.lines is None || name_above(transcript.path, 3) is None ==> transcript_session(
            transcript,
            workspaces,
            workspace_mtime,
        ) is None,
        transcript.lines is Some && name_above(transcript.path, 3) is Some ==> {
            let turns = transcript_turns(line_documents(transcript.lines->0));
            &&& transcript_session(transcript, workspaces, workspace_mtime) is Some
                <==> exists|i: int| 0 <= i < turns.len() && (#[trigger] turns[i]).user
            &&& transcript_session(transcript, workspaces, workspace_mtime) matches Some(session)
                ==> {
                &&& Some(session.id) == name_above(transcript.path, 3)
                &&& lookup(workspaces, session.id) matches Some(directory) ==> session.directory
                    == directory
                &&& lookup(workspaces, session.id) is None ==> session.directory.len() == 0
                &&& session.content == content_of(turns)
            }
        },
{
    if transcript.lines is Some {
        law_no_text_without_the_user(transcript_turns(line_documents(transcript.lines->0)));
    }
}

/// The session of a database counts before that of the transcript, which stands in for
/// it; a file that is not a database is its own transcript.
pub proof fn law_database_counts_before_the_transcript(
    file: SessionFileView,
    directory: Option<Seq<char>>,
    workspaces: Seq<(Seq<char>, Seq<char>)>,
    workspace_mtime: u64,
)
    ensures
        ({
            let stored = store_session(
                file.path,
                file.times,
                file.store,
                directory,
                workspaces,
                workspace_mtime,
            );
            let told = match file.transcript {
                Some(transcript) => transcript_session(transcript, workspaces, workspace_mtime),
                None => None,
            };
            let session = file_session(file, directory, workspaces, workspace_mtime);
            let outcome = file_outcome(file, directory, workspaces, workspace_mtime);
            let gone = match file.transcript {
                Some(transcript) => transcript.lines is Some,
                None => names_database(file.path),
            };
            if names_database(file.path) && (stored matches Ok(Some(_))) {
                session == stored->Ok_0 && outcome == ParseView::Session(stored->Ok_0->0)
            } else {
                &&& session == told
                &&& names_database(file.path) && stored is Err ==> outcome is Retain
                &&& !(names_database(file.path) && stored is Err) ==> {
                    &&& told matches Some(s) ==> outcome == ParseView::Session(s)
                    &&& told is None ==> (outcome is Delete <==> gone)
                    &&& told is None ==> (outcome is Retain <==> !gone)
                }
            }
        }),
{
}

/// The sessions of files are theirs one by one, in order.
pub proof fn law_files_make_sessions_in_order(
    files: Seq<SessionFile>,
    directories: Seq<Option<Seq<char>>>,
    last: SessionFile,
    directory: Option<Seq<char>>,
    workspaces: Seq<(Seq<char>, Seq<char>)>,
    workspace_mtime: u64,
)
    ensures
        file_sessions(seq![], seq![], workspaces, workspace_mtime).len() == 0,
        ({
            let before = file_sessions(files, directories, workspaces, workspace_mtime);
            let after = file_sessions(
                files.push(last),
                directories.push(directory),
                workspaces,
                workspace_mtime,
            );
            match file_session(last@, directory, workspaces, workspace_mtime) {
                Some(session) => after.len() == before.len() + 1 && after.last() == session
                    && after.drop_last() == before,
                None => after == before,
            }
        }),
{
    assert(files.push(last).drop_last() =~= files);
    assert(directories.push(directory).drop_last() =~= directories);
    let before = file_sessions(files, directories, workspaces, workspace_mtime);
    if let Some(session) = file_session(last@, directory, workspaces, workspace_mtime) {
        assert(before.push(session).drop_last() =~= before);
    }
}

/// A source is as new as its own file, a database with the files that belong to it, and as
/// the workspaces: the newer of the two.
pub proof fn law_source_mtime(path: FsPathView, times: FileTimes, workspace_mtime: u64)
    ensures
        ({
            let mtime = source_mtime_of(path, times, workspace_mtime);
            let own = if names_database(path) {
                times.sqlite_mtime
            } else {
                times.file_mtime
            };
            &&& mtime >= own && mtime >= workspace_mtime
            &&& mtime == own || mtime == workspace_mtime
        }),
{
}

} // verus!
