//! Copilot chats of VS Code: one JSON document for each session, kept for windows
//! without a folder and for workspaces.

use std::path::PathBuf;

use vstd::prelude::*;

pub mod chat;
pub mod directory;
pub mod files;
pub mod scan;

use crate::adapters::copilot_vscode::chat::{chat_session, session_from_chat};
use crate::adapters::copilot_vscode::directory::chat_directory;
use crate::adapters::copilot_vscode::files::{
    all_chats, file_views, found_view, ChatEntry, FoundChats, VscodeFileView, VscodeSessionFile,
    WorkspaceEntry,
};
use crate::adapters::copilot_vscode::scan::{
    as_list, chat_scan, chat_step, is_known_by_name, lemma_one_more_directory,
    lemma_some_directory_is_possible, reported_session, source_data, source_directories,
    source_directory_outcome, source_input, source_inputs, source_session, source_sessions,
    VscodeSource,
};
use crate::adapters::shared::{
    failed_incremental_scan, scan_report, session_needs_update, session_views, IgnoreSessions,
    IncrementalScan, KnownSessions, Listing, ScanState, SessionCallback,
};
use crate::json::{parse_optional_json, Json};
use crate::model::{session_view, RawAdapterStats, Session, SessionView};
use crate::text::{bytes_view, texts};
use crate::time::Timestamp;

verus! {

/// The sessions of Copilot in VS Code.
#[derive(Debug)]
pub struct CopilotVsCodeAdapter {
    pub chat_sessions_dir: PathBuf,
    pub workspace_storage_dir: PathBuf,
}

impl Clone for CopilotVsCodeAdapter {
    fn clone(&self) -> (copy: Self)
        ensures
            copy == *self,
    {
        CopilotVsCodeAdapter {
            chat_sessions_dir: self.chat_sessions_dir.clone(),
            workspace_storage_dir: self.workspace_storage_dir.clone(),
        }
    }
}

/// The bytes of the files whose size is known.
pub open spec fn known_bytes(sizes: Seq<Option<u64>>) -> nat
    decreases sizes.len(),
{
    if sizes.len() == 0 {
        0
    } else {
        known_bytes(sizes.drop_last()) + match sizes.last() {
            Some(size) => size as nat,
            None => 0,
        }
    }
}

proof fn lemma_known_bytes_grow(sizes: Seq<Option<u64>>, i: int)
    requires
        0 <= i <= sizes.len(),
    ensures
        known_bytes(sizes.take(i)) <= known_bytes(sizes),
    decreases sizes.len() - i,
{
    if i < sizes.len() {
        lemma_known_bytes_grow(sizes, i + 1);
        assert(sizes.take(i + 1).drop_last() =~= sizes.take(i));
    } else {
        assert(sizes.take(i) =~= sizes);
    }
}

impl CopilotVsCodeAdapter {
    /// The name of the agent.
    pub fn name(&self) -> (name: &'static str)
        ensures
            name@ == "copilot-vscode"@,
    {
        "copilot-vscode"
    }

    /// The command that opens the editor; the editor itself offers the session.
    pub fn resume_command(&self, session: &Session, yolo: bool) -> (command: Vec<String>)
        ensures
            texts(command@) == seq!["code"@],
    {
        let mut command: Vec<String> = Vec::new();
        command.push("code".to_owned());
        assert(texts(command@) =~= seq!["code"@]);
        command
    }

    /// The files of all chats, unless a directory that is there cannot be listed.
    pub fn session_files(
        &self,
        chats: &Listing<ChatEntry>,
        workspaces: &Listing<WorkspaceEntry>,
    ) -> (found: Option<FoundChats>)
        ensures
            found_view(found) == all_chats(*chats, *workspaces),
    {
        let mut found = FoundChats { files: Vec::new(), complete: true };
        assert(file_views(found.files@) =~= Seq::<VscodeFileView>::empty());
        match chats {
            Listing::Unreadable => return None,
            Listing::Missing => {},
            Listing::Entries(entries) => found.add_chats(entries, &None),
        }
        match workspaces {
            Listing::Unreadable => return None,
            Listing::Missing => {},
            Listing::Entries(entries) => found.add_workspaces(entries),
        }
        Some(found)
    }

    /// The session of a document. Its directory may depend on the system; all else is
    /// determined.
    pub fn parse_session_data(
        &self,
        file: &VscodeSessionFile,
        data: &Json,
        description: &Option<Vec<u8>>,
        written: Timestamp,
        mtime: u64,
    ) -> (session: Option<Session>)
        ensures
            exists|directory: Seq<char>| #[trigger]
                source_directory_outcome(bytes_view(*description), Some(data@), directory)
                    && session_view(session) == chat_session(
                    file.name@,
                    data@,
                    directory,
                    written,
                    mtime,
                ),
    {
        let directory = match data.get("requests") {
            Some(value) => match value.as_array() {
                Some(requests) => chat_directory(description, requests),
                None => String::new(),
            },
            None => String::new(),
        };
        assert(source_directory_outcome(bytes_view(*description), Some(data@), directory@));
        session_from_chat(file, data, directory, written, mtime)
    }

    /// The session of a file, if it was read and holds one.
    pub fn parse_session(&self, source: &VscodeSource) -> (session: Option<Session>)
        ensures
            exists|directory: Seq<char>| #[trigger]
                source_directory_outcome(
                    bytes_view(source.description),
                    source_data(*source),
                    directory,
                ) && session_view(session) == source_session(*source, directory),
    {
        match parse_optional_json(&source.contents) {
            Some(data) => self.parse_session_data(
                &source.file,
                &data,
                &source.description,
                source.written,
                source.mtime,
            ),
            None => {
                assert(source_directory_outcome(
                    bytes_view(source.description),
                    source_data(*source),
                    seq![],
                ));
                None
            },
        }
    }

    /// The sessions of all files.
    pub fn find_sessions(&self, sources: &Vec<VscodeSource>) -> (sessions: Vec<Session>)
        ensures
            exists|directories: Seq<Seq<char>>| #[trigger]
                source_directories(sources@, directories) && session_views(sessions@)
                    == source_sessions(sources@, directories),
    {
        let mut sessions: Vec<Session> = Vec::new();
        let ghost mut directories: Seq<Seq<char>> = seq![];
        let mut i: usize = 0;
        assert(session_views(sessions@) =~= Seq::<SessionView>::empty());
        while i < sources.len()
            invariant
                i <= sources@.len(),
                source_directories(sources@.take(i as int), directories),
                session_views(sessions@) == source_sessions(sources@.take(i as int), directories),
            decreases sources@.len() - i,
        {
            let ghost before = sessions@;
            let ghost so_far = directories;
            let parsed = self.parse_session(&sources[i]);
            proof {
                let directory = choose|directory: Seq<char>| #[trigger]
                    source_directory_outcome(
                        bytes_view(sources@[i as int].description),
                        source_data(sources@[i as int]),
                        directory,
                    ) && session_view(parsed) == source_session(sources@[i as int], directory);
                directories = so_far.push(directory);
                lemma_one_more_directory(sources@, so_far, directory, i as int);
            }
            if let Some(session) = parsed {
                sessions.push(session);
                assert(session_views(sessions@) =~= session_views(before).push(session@));
            }
            i += 1;
        }
        assert(sources@.take(i as int) =~= sources@);
        assert(source_directories(sources@, directories));
        sessions
    }

    /// Whether a scan has to read a file.
    pub fn needs_reading(&self, known: &KnownSessions, file: &VscodeSessionFile, mtime: u64) -> (
        needed: bool)
        ensures
            needed == !is_known_by_name(known@, file.name@, mtime),
    {
        match file.fallback_session_id() {
            Some(id) => session_needs_update(known, self.name(), id.as_str(), mtime),
            None => true,
        }
    }

    /// Takes the next file of a scan into account, and hands out the session that it
    /// reports.
    pub fn scan_file<C: SessionCallback>(
        &self,
        state: &mut ScanState,
        known: &KnownSessions,
        source: &VscodeSource,
        on_session: &mut C,
    )
        ensures
            exists|directory: Seq<char>| #[trigger]
                source_directory_outcome(
                    bytes_view(source.description),
                    source_data(*source),
                    directory,
                ) && final(state)@ == chat_step(
                    known@,
                    old(state)@,
                    source_input(*source, directory),
                ) && final(on_session).handed() == old(on_session).handed() + as_list(
                    reported_session(known@, source_input(*source, directory)),
                ),
    {
        proof {
            lemma_some_directory_is_possible(bytes_view(source.description), source_data(*source));
            assert(on_session.handed() + Seq::<SessionView>::empty() =~= on_session.handed());
        }
        if !self.needs_reading(known, &source.file, source.mtime) {
            if let Some(id) = source.file.fallback_session_id() {
                state.current.insert(id);
            }
            return ;
        }
        let data = match parse_optional_json(&source.contents) {
            Some(data) => data,
            None => {
                state.complete = false;
                return ;
            },
        };
        let id = match source.file.session_id(&data) {
            Some(id) => id,
            None => {
                state.complete = false;
                return ;
            },
        };
        if !session_needs_update(known, self.name(), id.as_str(), source.mtime) {
            state.current.insert(id);
            return ;
        }
        let session = self.parse_session_data(
            &source.file,
            &data,
            &source.description,
            source.written,
            source.mtime,
        );
        match session {
            Some(session) => {
                state.current.insert(id);
                state.report(session, source.mtime, on_session);
            },
            None => state.current.remove(id.as_str()),
        }
    }

    /// Scans files for sessions that are new, changed or gone, and hands out each new or
    /// changed one as it is found. `None` stands for files that could not be listed; the
    /// flag says whether the list is complete.
    pub fn find_sessions_incremental_with<C: SessionCallback>(
        &self,
        known: &KnownSessions,
        found: Option<(Vec<VscodeSource>, bool)>,
        on_session: &mut C,
    ) -> (scan: IncrementalScan)
        ensures
            match found {
                Some((sources, complete)) => exists|directories: Seq<Seq<char>>| #[trigger]
                    source_directories(sources@, directories) && scan_report(
                        known@,
                        "copilot-vscode"@,
                        chat_scan(known@, complete, source_inputs(sources@, directories)),
                        scan,
                    ),
                None => scan.agent@ == "copilot-vscode"@ && scan.new_or_modified@.len() == 0
                    && scan.deleted_ids@.len() == 0,
            },
            final(on_session).handed() == old(on_session).handed() + session_views(
                scan.new_or_modified@,
            ),
    {
        let ghost start = on_session.handed();
        let (sources, complete) = match found {
            Some(found) => found,
            None => {
                let scan = failed_incremental_scan(self.name());
                assert(start + session_views(scan.new_or_modified@) =~= start);
                return scan;
            },
        };
        let mut state = ScanState::begin(complete);
        let ghost mut directories: Seq<Seq<char>> = seq![];
        let mut i: usize = 0;
        assert(start + state@.sessions =~= start);
        while i < sources.len()
            invariant
                i <= sources@.len(),
                source_directories(sources@.take(i as int), directories),
                state@ == chat_scan(
                    known@,
                    complete,
                    source_inputs(sources@.take(i as int), directories),
                ),
                on_session.handed() == start + state@.sessions,
            decreases sources@.len() - i,
        {
            let ghost before = state@;
            let ghost handed = on_session.handed();
            let ghost so_far = directories;
            self.scan_file(&mut state, known, &sources[i], on_session);
            proof {
                let directory = choose|directory: Seq<char>| #[trigger]
                    source_directory_outcome(
                        bytes_view(sources@[i as int].description),
                        source_data(sources@[i as int]),
                        directory,
                    ) && state@ == chat_step(
                        known@,
                        before,
                        source_input(sources@[i as int], directory),
                    ) && on_session.handed() == handed + as_list(
                        reported_session(known@, source_input(sources@[i as int], directory)),
                    );
                directories = so_far.push(directory);
                lemma_one_more_directory(sources@, so_far, directory, i as int);
                assert(on_session.handed() =~= start + state@.sessions);
            }
            i += 1;
        }
        assert(sources@.take(i as int) =~= sources@);
        assert(source_directories(sources@, directories));
        state.finish(known, self.name())
    }

    /// Scans files for sessions that are new, changed or gone.
    pub fn find_sessions_incremental(
        &self,
        known: &KnownSessions,
        found: Option<(Vec<VscodeSource>, bool)>,
    ) -> (scan: IncrementalScan)
        ensures
            match found {
                Some((sources, complete)) => exists|directories: Seq<Seq<char>>| #[trigger]
                    source_directories(sources@, directories) && scan_report(
                        known@,
                        "copilot-vscode"@,
                        chat_scan(known@, complete, source_inputs(sources@, directories)),
                        scan,
                    ),
                None => scan.agent@ == "copilot-vscode"@ && scan.new_or_modified@.len() == 0
                    && scan.deleted_ids@.len() == 0,
            },
    {
        let mut ignore = IgnoreSessions::new();
        self.find_sessions_incremental_with(known, found, &mut ignore)
    }

    /// Scans files for sessions that are new, changed or gone, and hands out each new or
    /// changed one as it is found.
    pub fn find_sessions_incremental_streaming<C: SessionCallback>(
        &self,
        known: &KnownSessions,
        found: Option<(Vec<VscodeSource>, bool)>,
        on_session: &mut C,
    ) -> (scan: IncrementalScan)
        ensures
            match found {
                Some((sources, complete)) => exists|directories: Seq<Seq<char>>| #[trigger]
                    source_directories(sources@, directories) && scan_report(
                        known@,
                        "copilot-vscode"@,
                        chat_scan(known@, complete, source_inputs(sources@, directories)),
                        scan,
                    ),
                None => scan.agent@ == "copilot-vscode"@ && scan.new_or_modified@.len() == 0
                    && scan.deleted_ids@.len() == 0,
            },
            final(on_session).handed() == old(on_session).handed() + session_views(
                scan.new_or_modified@,
            ),
    {
        self.find_sessions_incremental_with(known, found, on_session)
    }

    /// What the files of chats take up, given the sizes of those that could be asked.
    pub fn raw_stats(&self, data_dir: String, sizes: &Vec<Option<u64>>) -> (stats: RawAdapterStats)
        requires
            known_bytes(sizes@) <= u64::MAX,
        ensures
            stats.agent@ == "copilot-vscode"@,
            stats.data_dir@ == data_dir@,
            stats.available == (sizes@.len() > 0),
            stats.file_count == sizes@.len(),
            stats.total_bytes == known_bytes(sizes@),
    {
        let mut total_bytes: u64 = 0;
        let mut i: usize = 0;
        while i < sizes.len()
            invariant
                i <= sizes@.len(),
                known_bytes(sizes@) <= u64::MAX,
                total_bytes == known_bytes(sizes@.take(i as int)),
            decreases sizes@.len() - i,
        {
            assert(sizes@.take(i + 1).drop_last() =~= sizes@.take(i as int));
            proof {
                lemma_known_bytes_grow(sizes@, i + 1);
            }
            if let Some(size) = sizes[i] {
                total_bytes += size;
            }
            i += 1;
        }
        assert(sizes@.take(i as int) =~= sizes@);
        RawAdapterStats {
            agent: self.name(),
            data_dir,
            available: sizes.len() > 0,
            file_count: sizes.len(),
            total_bytes,
        }
    }
}

/// The bytes of two lists of files add up, and a file whose size is not known adds none.
pub proof fn law_known_bytes_add_up(left: Seq<Option<u64>>, right: Seq<Option<u64>>, size: u64)
    ensures
        known_bytes(left + right) == known_bytes(left) + known_bytes(right),
        known_bytes(seq![Some(size)]) == size,
        known_bytes(seq![None::<u64>]) == 0,
    decreases right.len(),
{
    reveal_with_fuel(known_bytes, 2);
    if right.len() == 0 {
        assert(left + right =~= left);
    } else {
        assert((left + right).drop_last() =~= left + right.drop_last());
        law_known_bytes_add_up(left, right.drop_last(), size);
    }
}

} // verus!
