//! Which files hold the sessions.

use std::path::PathBuf;

use vstd::prelude::*;

use crate::adapters::shared::{
    lemma_contains_none, listed, FileStats, Listing, NamedStats, ScannedView, SessionFilesView,
};
use crate::paths::{
    below, extension_of, law_stem_and_extension, name_above, name_extension, name_stem,
    path_extension, path_stem, stem_of, FsPath, FsPathView,
};
use crate::string_map::{distinct_keys, law_upsert, lemma_upsert_entry, lookup, upsert};
use crate::text::{last_index, lemma_last_index, same_text, text_view};

verus! {

/// Whether a path names a database.
pub open spec fn names_database(path: FsPathView) -> bool {
    path_extension(path) == Some("db"@)
}

/// Whether a path names a database.
pub fn is_sqlite_database(path: &FsPath) -> (database: bool)
    ensures
        database == names_database(path@),
{
    path.has_extension("db")
}

/// The id of the session that a transcript belongs to: the name of the directory
/// three levels up.
pub fn antigravity_session_id(path: &FsPath) -> (id: Option<String>)
    ensures
        text_view(id) == name_above(path@, 3),
{
    match path.name_above(3) {
        Some(name) => Some(name.clone()),
        None => None,
    }
}

/// The greater of two modification times.
pub open spec fn newer(left: u64, right: u64) -> u64 {
    if left >= right {
        left
    } else {
        right
    }
}

pub(crate) fn newer_of(left: u64, right: u64) -> (mtime: u64)
    ensures
        mtime == newer(left, right),
{
    if left >= right {
        left
    } else {
        right
    }
}

/// Which of two transcripts is read, given their sizes: the full one if it is not
/// empty and not shorter, or else the regular one. `Some(true)` is the full one.
pub open spec fn prefers_full(regular: Option<u64>, full: Option<u64>) -> Option<bool> {
    match (regular, full) {
        (Some(r), Some(f)) => Some(f >= r && f > 0),
        (Some(_), None) => Some(false),
        (None, Some(f)) => if f > 0 {
            Some(true)
        } else {
            None
        },
        (None, None) => None,
    }
}

/// The path of a transcript among the logs.
pub open spec fn transcript_path(logs: FsPathView, full: bool) -> FsPathView {
    below(
        logs,
        if full {
            "transcript_full.jsonl"@
        } else {
            "transcript.jsonl"@
        },
    )
}

/// The path of the preferred transcript, if there is one.
pub open spec fn preferred_path(
    logs: FsPathView,
    regular: Option<u64>,
    full: Option<u64>,
) -> Option<FsPathView> {
    match prefers_full(regular, full) {
        Some(takes_full) => Some(transcript_path(logs, takes_full)),
        None => None,
    }
}

/// The views of optional paths.
pub open spec fn path_view(path: Option<FsPath>) -> Option<FsPathView> {
    match path {
        Some(p) => Some(p@),
        None => None,
    }
}

pub(crate) fn choose_transcript(regular: Option<u64>, full: Option<u64>) -> (choice: Option<bool>)
    ensures
        choice == prefers_full(regular, full),
{
    match (regular, full) {
        (Some(regular), Some(full)) => Some(full >= regular && full > 0),
        (Some(_), None) => Some(false),
        (None, Some(full)) => if full > 0 {
            Some(true)
        } else {
            None
        },
        (None, None) => None,
    }
}

pub(crate) fn join_transcript(logs: &FsPath, full: bool) -> (path: FsPath)
    ensures
        path@ == transcript_path(logs@, full),
{
    if full {
        logs.join("transcript_full.jsonl")
    } else {
        logs.join("transcript.jsonl")
    }
}

/// The path of the transcript to read among `logs`, given the sizes of the regular
/// and of the full one.
pub fn preferred_transcript(
    logs: &FsPath,
    regular_size: Option<u64>,
    full_size: Option<u64>,
) -> (path: Option<FsPath>)
    ensures
        path_view(path) == preferred_path(logs@, regular_size, full_size),
{
    match choose_transcript(regular_size, full_size) {
        Some(full) => Some(join_transcript(logs, full)),
        None => None,
    }
}

/// Where the logs of a conversation are.
pub open spec fn logs_path(data_dir: PathBuf, id: Seq<char>) -> FsPathView {
    below(
        below(
            below(below(FsPathView { base: data_dir, names: seq![] }, "brain"@), id),
            ".system_generated"@,
        ),
        "logs"@,
    )
}

/// The id of a transcript's session is the id of the conversation whose logs hold it,
/// where that is the name of a directory.
pub proof fn law_transcript_names_its_conversation(data_dir: PathBuf, id: Seq<char>, full: bool)
    requires
        id.len() > 0 && id != "."@ && id != ".."@,
    ensures
        name_above(transcript_path(logs_path(data_dir, id), full), 3) == Some(id),
{
    reveal_strlit("brain");
    reveal_strlit(".system_generated");
    reveal_strlit("logs");
    reveal_strlit("transcript.jsonl");
    reveal_strlit("transcript_full.jsonl");
    reveal_strlit(".");
    let path = transcript_path(logs_path(data_dir, id), full);
    assert("."@.len() == 1 && "brain"@.len() == 5 && "logs"@.len() == 4);
    assert(".system_generated"@.len() == 17 && "transcript.jsonl"@.len() == 16);
    assert("transcript_full.jsonl"@.len() == 21);
    assert(path.names.len() == 5 && path.names[1] == id);
}

/// The size of a file and when it was last modified.
#[derive(Debug, Clone, Copy)]
pub struct FileFacts {
    pub size: u64,
    pub mtime: u64,
}

pub open spec fn size_of_file(facts: Option<FileFacts>) -> Option<u64> {
    match facts {
        Some(f) => Some(f.size),
        None => None,
    }
}

pub open spec fn mtime_of_file(facts: Option<FileFacts>) -> u64 {
    match facts {
        Some(f) => f.mtime,
        None => 0,
    }
}

/// An entry among the conversations that have transcripts. A name that is not text
/// is missing.
pub struct BrainEntry {
    pub is_dir: bool,
    pub name: Option<String>,
    pub regular: Option<FileFacts>,
    pub full: Option<FileFacts>,
}

/// An entry among the databases, with the modification time that it has as one.
pub struct DatabaseEntry {
    pub name: Option<String>,
    pub sqlite_mtime: u64,
}

/// The transcript that a conversation directory holds, by the id of the conversation.
pub open spec fn brain_file(data_dir: PathBuf, entry: BrainEntry, history_mtime: u64) -> Option<
    (Seq<char>, ScannedView),
> {
    let choice = prefers_full(size_of_file(entry.regular), size_of_file(entry.full));
    match (text_view(entry.name), choice) {
        (Some(id), Some(full)) => if entry.is_dir && id.len() > 0 {
            Some(
                (
                    id,
                    ScannedView {
                        path: transcript_path(logs_path(data_dir, id), full),
                        mtime: newer(
                            mtime_of_file(
                                if full {
                                    entry.full
                                } else {
                                    entry.regular
                                },
                            ),
                            history_mtime,
                        ),
                    },
                ),
            )
        } else {
            None
        },
        _ => None,
    }
}

/// The session files after these conversation directories.
pub open spec fn brain_files(
    data_dir: PathBuf,
    entries: Seq<Option<BrainEntry>>,
    history_mtime: u64,
) -> SessionFilesView
    decreases entries.len(),
{
    if entries.len() == 0 {
        SessionFilesView { files: seq![], complete: true }
    } else {
        let before = brain_files(data_dir, entries.drop_last(), history_mtime);
        match entries.last() {
            None => SessionFilesView { complete: false, ..before },
            Some(entry) => match brain_file(data_dir, entry, history_mtime) {
                Some((id, file)) => SessionFilesView {
                    files: upsert(before.files, id, file),
                    ..before
                },
                None => before,
            },
        }
    }
}

/// The id of the conversation that a database belongs to, from the file's name.
pub open spec fn database_id(name: Option<Seq<char>>) -> Option<Seq<char>> {
    match name {
        Some(n) => if extension_of(n) == Some("db"@) && stem_of(n).len() > 0 {
            Some(stem_of(n))
        } else {
            None
        },
        None => None,
    }
}

/// Where the database of that name is.
pub open spec fn database_path(data_dir: PathBuf, name: Seq<char>) -> FsPathView {
    below(below(FsPathView { base: data_dir, names: seq![] }, "conversations"@), name)
}

/// The modification time under which a conversation is known so far.
pub open spec fn scanned_mtime(files: Seq<(Seq<char>, ScannedView)>, id: Seq<char>) -> u64 {
    match lookup(files, id) {
        Some(file) => file.mtime,
        None => 0,
    }
}

/// The session files after these databases: a database takes the place of the
/// transcript of its conversation, and is as new as the newer of them.
pub open spec fn database_files(
    data_dir: PathBuf,
    before: SessionFilesView,
    entries: Seq<Option<DatabaseEntry>>,
    history_mtime: u64,
) -> SessionFilesView
    decreases entries.len(),
{
    if entries.len() == 0 {
        before
    } else {
        let found = database_files(data_dir, before, entries.drop_last(), history_mtime);
        match entries.last() {
            None => SessionFilesView { complete: false, ..found },
            Some(entry) => match database_id(text_view(entry.name)) {
                Some(id) => SessionFilesView {
                    files: upsert(
                        found.files,
                        id,
                        ScannedView {
                            path: database_path(data_dir, text_view(entry.name)->0),
                            mtime: newer(
                                newer(entry.sqlite_mtime, history_mtime),
                                scanned_mtime(found.files, id),
                            ),
                        },
                    ),
                    ..found
                },
                None => found,
            },
        }
    }
}

/// All session files, unless a directory that is there cannot be listed.
pub open spec fn all_session_files(
    data_dir: PathBuf,
    brain: Listing<BrainEntry>,
    databases: Listing<DatabaseEntry>,
    history_mtime: u64,
) -> Option<SessionFilesView> {
    if brain is Unreadable || databases is Unreadable {
        None
    } else {
        Some(
            database_files(
                data_dir,
                brain_files(data_dir, listed(brain), history_mtime),
                listed(databases),
                history_mtime,
            ),
        )
    }
}

pub(crate) fn facts_size(facts: &Option<FileFacts>) -> (size: Option<u64>)
    ensures
        size == size_of_file(*facts),
{
    match facts {
        Some(facts) => Some(facts.size),
        None => None,
    }
}

pub(crate) fn facts_mtime(facts: &Option<FileFacts>) -> (mtime: u64)
    ensures
        mtime == mtime_of_file(*facts),
{
    match facts {
        Some(facts) => facts.mtime,
        None => 0,
    }
}

proof fn lemma_files_are_new(
    files: Seq<(Seq<char>, ScannedView)>,
    id: Seq<char>,
    file: ScannedView,
    mtime: u64,
)
    requires
        forall|i: int| 0 <= i < files.len() ==> (#[trigger] files[i]).1.mtime >= mtime,
        file.mtime >= mtime,
    ensures
        forall|i: int|
            0 <= i < upsert(files, id, file).len() ==> (#[trigger] upsert(
                files,
                id,
                file,
            )[i]).1.mtime >= mtime,
{
    let new = upsert(files, id, file);
    assert forall|i: int| 0 <= i < new.len() implies (#[trigger] new[i]).1.mtime >= mtime by {
        lemma_upsert_entry(files, id, file, i);
    }
}

proof fn lemma_brain_files(
    data_dir: PathBuf,
    entries: Seq<Option<BrainEntry>>,
    history_mtime: u64,
)
    ensures
        ({
            let found = brain_files(data_dir, entries, history_mtime);
            &&& forall|i: int|
                0 <= i < found.files.len() ==> (#[trigger] found.files[i]).1.mtime >= history_mtime
            &&& distinct_keys(found.files)
            &&& found.complete <==> !entries.contains(None)
        }),
    decreases entries.len(),
{
    if entries.len() > 0 {
        let rest = entries.drop_last();
        lemma_brain_files(data_dir, rest, history_mtime);
        lemma_contains_none(entries);
        let before = brain_files(data_dir, rest, history_mtime);
        if let Some(entry) = entries.last() {
            if let Some((id, file)) = brain_file(data_dir, entry, history_mtime) {
                lemma_files_are_new(before.files, id, file, history_mtime);
                law_upsert(before.files, id, file, id);
            }
        }
    }
}

proof fn lemma_database_files(
    data_dir: PathBuf,
    before: SessionFilesView,
    entries: Seq<Option<DatabaseEntry>>,
    history_mtime: u64,
)
    requires
        forall|i: int|
            0 <= i < before.files.len() ==> (#[trigger] before.files[i]).1.mtime >= history_mtime,
        distinct_keys(before.files),
    ensures
        ({
            let found = database_files(data_dir, before, entries, history_mtime);
            &&& forall|i: int|
                0 <= i < found.files.len() ==> (#[trigger] found.files[i]).1.mtime >= history_mtime
            &&& distinct_keys(found.files)
            &&& found.complete <==> (before.complete && !entries.contains(None))
        }),
    decreases entries.len(),
{
    if entries.len() > 0 {
        let rest = entries.drop_last();
        lemma_database_files(data_dir, before, rest, history_mtime);
        lemma_contains_none(entries);
        let found = database_files(data_dir, before, rest, history_mtime);
        if let Some(entry) = entries.last() {
            if let Some(id) = database_id(text_view(entry.name)) {
                let file = ScannedView {
                    path: database_path(data_dir, text_view(entry.name)->0),
                    mtime: newer(
                        newer(entry.sqlite_mtime, history_mtime),
                        scanned_mtime(found.files, id),
                    ),
                };
                lemma_files_are_new(found.files, id, file, history_mtime);
                law_upsert(found.files, id, file, id);
            }
        }
    }
}

/// Every scanned file counts as at least as new as the workspaces, no conversation
/// is scanned twice, and a scan is complete exactly if no entry failed.
pub proof fn law_scanned_files(
    data_dir: PathBuf,
    brain: Listing<BrainEntry>,
    databases: Listing<DatabaseEntry>,
    history_mtime: u64,
)
    ensures
        all_session_files(data_dir, brain, databases, history_mtime) matches Some(found) ==> {
            &&& forall|i: int|
                0 <= i < found.files.len() ==> (#[trigger] found.files[i]).1.mtime >= history_mtime
            &&& distinct_keys(found.files)
            &&& found.complete <==> (!listed(brain).contains(None) && !listed(databases).contains(
                None,
            ))
        },
{
    lemma_brain_files(data_dir, listed(brain), history_mtime);
    lemma_database_files(
        data_dir,
        brain_files(data_dir, listed(brain), history_mtime),
        listed(databases),
        history_mtime,
    );
}

proof fn lemma_database_wins(
    data_dir: PathBuf,
    before: SessionFilesView,
    entries: Seq<Option<DatabaseEntry>>,
    history_mtime: u64,
    i: int,
)
    requires
        forall|j: int|
            0 <= j < before.files.len() ==> (#[trigger] before.files[j]).1.mtime >= history_mtime,
        distinct_keys(before.files),
        0 <= i < entries.len(),
        entries[i] is Some,
        database_id(text_view(entries[i]->0.name)) is Some,
    ensures
        ({
            let id = database_id(text_view(entries[i]->0.name))->0;
            let found = database_files(data_dir, before, entries, history_mtime);
            lookup(found.files, id) matches Some(file) && names_database(file.path) && path_stem(
                file.path,
            ) == Some(id) && file.mtime >= entries[i]->0.sqlite_mtime && file.mtime
                >= scanned_mtime(before.files, id)
        }),
    decreases entries.len(),
{
    let rest = entries.drop_last();
    let id = database_id(text_view(entries[i]->0.name))->0;
    let found = database_files(data_dir, before, rest, history_mtime);
    lemma_database_files(data_dir, before, rest, history_mtime);
    lemma_scanned_mtime_grows(data_dir, before, rest, history_mtime, id);
    if i < rest.len() {
        assert(rest[i] == entries[i]);
        lemma_database_wins(data_dir, before, rest, history_mtime, i);
    }
    if let Some(entry) = entries.last() {
        if let Some(last_id) = database_id(text_view(entry.name)) {
            let name = text_view(entry.name)->0;
            let file = ScannedView {
                path: database_path(data_dir, name),
                mtime: newer(
                    newer(entry.sqlite_mtime, history_mtime),
                    scanned_mtime(found.files, last_id),
                ),
            };
            lemma_last_index(name, '.', name.len() as int);
            reveal_strlit(".");
            assert(name.len() > 1 && "."@.len() == 1);
            assert(name_above(file.path, 0) == Some(name));
            law_upsert(found.files, last_id, file, id);
        }
    }
}

proof fn lemma_scanned_mtime_grows(
    data_dir: PathBuf,
    before: SessionFilesView,
    entries: Seq<Option<DatabaseEntry>>,
    history_mtime: u64,
    id: Seq<char>,
)
    requires
        forall|j: int|
            0 <= j < before.files.len() ==> (#[trigger] before.files[j]).1.mtime >= history_mtime,
        distinct_keys(before.files),
    ensures
        scanned_mtime(database_files(data_dir, before, entries, history_mtime).files, id)
            >= scanned_mtime(before.files, id),
    decreases entries.len(),
{
    if entries.len() > 0 {
        let rest = entries.drop_last();
        lemma_scanned_mtime_grows(data_dir, before, rest, history_mtime, id);
        lemma_database_files(data_dir, before, rest, history_mtime);
        let found = database_files(data_dir, before, rest, history_mtime);
        if let Some(entry) = entries.last() {
            if let Some(last_id) = database_id(text_view(entry.name)) {
                let file = ScannedView {
                    path: database_path(data_dir, text_view(entry.name)->0),
                    mtime: newer(
                        newer(entry.sqlite_mtime, history_mtime),
                        scanned_mtime(found.files, last_id),
                    ),
                };
                law_upsert(found.files, last_id, file, id);
            }
        }
    }
}

/// A conversation that has a database is read from it, and counts as at least as new
/// as the database and as the transcript.
pub proof fn law_database_takes_precedence(
    data_dir: PathBuf,
    brain: Listing<BrainEntry>,
    databases: Listing<DatabaseEntry>,
    history_mtime: u64,
    i: int,
)
    requires
        0 <= i < listed(databases).len(),
        listed(databases)[i] is Some,
        database_id(text_view(listed(databases)[i]->0.name)) is Some,
    ensures
        all_session_files(data_dir, brain, databases, history_mtime) matches Some(found) ==> {
            let entry = listed(databases)[i]->0;
            let id = database_id(text_view(entry.name))->0;
            lookup(found.files, id) matches Some(file) && names_database(file.path) && path_stem(
                file.path,
            ) == Some(id) && file.mtime >= entry.sqlite_mtime && file.mtime >= scanned_mtime(
                brain_files(data_dir, listed(brain), history_mtime).files,
                id,
            )
        },
{
    lemma_brain_files(data_dir, listed(brain), history_mtime);
    lemma_database_wins(
        data_dir,
        brain_files(data_dir, listed(brain), history_mtime),
        listed(databases),
        history_mtime,
        i,
    );
}

/// What the databases among these entries take up. One whose name is not text all
/// through counts by its extension like any other.
pub open spec fn database_stats(entries: Seq<NamedStats>) -> Seq<FileStats>
    decreases entries.len(),
{
    if entries.len() == 0 {
        seq![]
    } else {
        let before = database_stats(entries.drop_last());
        if extension_of(entries.last().name.text@) == Some("db"@) {
            before.push(entries.last().stats)
        } else {
            before
        }
    }
}

pub(crate) fn collect_database_stats(entries: &Vec<NamedStats>) -> (stats: Vec<FileStats>)
    ensures
        stats@ == database_stats(entries@),
{
    let mut stats: Vec<FileStats> = Vec::new();
    let mut i: usize = 0;
    while i < entries.len()
        invariant
            i <= entries@.len(),
            stats@ == database_stats(entries@.take(i as int)),
        decreases entries@.len() - i,
    {
        assert(entries@.take(i + 1).drop_last() =~= entries@.take(i as int));
        if let Some(extension) = name_extension(entries[i].name.text.as_str()) {
            if same_text(extension.as_str(), "db") {
                stats.push(entries[i].stats);
            }
        }
        i += 1;
    }
    assert(entries@.take(i as int) =~= entries@);
    stats
}

pub(crate) fn database_name_id(name: &str) -> (id: Option<String>)
    ensures
        text_view(id) == database_id(Some(name@)),
{
    match name_extension(name) {
        Some(extension) => if same_text(extension.as_str(), "db") {
            let stem = name_stem(name);
            if stem.as_str().is_empty() {
                None
            } else {
                Some(stem)
            }
        } else {
            None
        },
        None => None,
    }
}

/// The full transcript is read where it holds anything and is not shorter than the
/// regular one; otherwise the regular one is, if it is there.
pub proof fn law_preferred_transcript(logs: FsPathView, regular: Option<u64>, full: Option<u64>)
    ensures
        ({
            let takes_full = full is Some && full->0 > 0 && (regular is None || full->0
                >= regular->0);
            if takes_full {
                preferred_path(logs, regular, full) == Some(
                    FsPathView {
                        names: logs.names.push("transcript_full.jsonl"@),
                        ..logs
                    },
                )
            } else if regular is Some {
                preferred_path(logs, regular, full) == Some(
                    FsPathView { names: logs.names.push("transcript.jsonl"@), ..logs },
                )
            } else {
                preferred_path(logs, regular, full) is None
            }
        }),
{
    reveal_strlit("transcript.jsonl");
    reveal_strlit("transcript_full.jsonl");
    reveal_strlit(".");
    assert("."@.len() == 1 && "transcript.jsonl"@.len() == 16);
    assert("transcript_full.jsonl"@.len() == 21);
}

/// The logs of a conversation stand below its directory, which has the name of its id.
pub proof fn law_place_of_logs(data_dir: PathBuf, id: Seq<char>)
    requires
        id.len() > 0 && id != "."@,
    ensures
        logs_path(data_dir, id).base == data_dir,
        logs_path(data_dir, id).names == seq!["brain"@, id, ".system_generated"@, "logs"@],
{
    reveal_strlit("brain");
    reveal_strlit(".system_generated");
    reveal_strlit("logs");
    reveal_strlit(".");
    assert("."@.len() == 1 && "brain"@.len() == 5 && "logs"@.len() == 4);
    assert(".system_generated"@.len() == 17);
    assert(logs_path(data_dir, id).names =~= seq!["brain"@, id, ".system_generated"@, "logs"@]);
}

/// The newer of two modification times is one of them, and neither is later.
pub proof fn law_newer(left: u64, right: u64)
    ensures
        newer(left, right) >= left,
        newer(left, right) >= right,
        newer(left, right) == left || newer(left, right) == right,
{
}

/// A conversation directory is scanned under its name, for the transcript that is read,
/// exactly if it is a directory with a name and has one to read.
pub proof fn law_conversation_directory_is_scanned(
    data_dir: PathBuf,
    entry: BrainEntry,
    history_mtime: u64,
)
    ensures
        brain_file(data_dir, entry, history_mtime) is Some <==> {
            &&& entry.is_dir
            &&& entry.name is Some && entry.name->0@.len() > 0
            &&& entry.regular is Some || (entry.full is Some && entry.full->0.size > 0)
        },
        brain_file(data_dir, entry, history_mtime) matches Some((id, file)) ==> {
            let facts = if entry.full is Some && entry.full->0.size > 0 && (entry.regular is None
                || entry.full->0.size >= entry.regular->0.size) {
                entry.full->0
            } else {
                entry.regular->0
            };
            &&& id == entry.name->0@
            &&& file.mtime >= facts.mtime && file.mtime >= history_mtime
            &&& file.mtime == facts.mtime || file.mtime == history_mtime
            &&& Some(file.path) == preferred_path(
                logs_path(data_dir, id),
                size_of_file(entry.regular),
                size_of_file(entry.full),
            )
        },
{
}

/// The last directory of a conversation is the one that is scanned for it, and nothing is
/// scanned for a conversation that has none.
pub proof fn law_last_directory_is_scanned(
    data_dir: PathBuf,
    entries: Seq<Option<BrainEntry>>,
    history_mtime: u64,
    id: Seq<char>,
    k: int,
)
    requires
        -1 <= k < entries.len(),
        k >= 0 ==> entries[k] is Some && (brain_file(data_dir, entries[k]->0, history_mtime)
            matches Some((found, _)) && found == id),
        forall|i: int|
            k < i < entries.len() ==> ((#[trigger] entries[i]) matches Some(entry) ==> (brain_file(
                data_dir,
                entry,
                history_mtime,
            ) matches Some((other, _)) ==> other != id)),
    ensures
        lookup(brain_files(data_dir, entries, history_mtime).files, id) == match brain_file(
            data_dir,
            entries[k]->0,
            history_mtime,
        ) {
            Some((_, file)) if k >= 0 => Some(file),
            _ => None,
        },
    decreases entries.len(),
{
    if entries.len() > 0 {
        let rest = entries.drop_last();
        lemma_brain_files(data_dir, rest, history_mtime);
        let before = brain_files(data_dir, rest, history_mtime);
        assert(entries[entries.len() - 1] == entries.last());
        if k < rest.len() {
            assert forall|i: int| k < i < rest.len() implies ((#[trigger] rest[i]) matches Some(
                entry,
            ) ==> (brain_file(data_dir, entry, history_mtime) matches Some((other, _)) ==> other
                != id)) by {
                assert(rest[i] == entries[i]);
            }
            law_last_directory_is_scanned(data_dir, rest, history_mtime, id, k);
        }
        if let Some(entry) = entries.last() {
            if let Some((last_id, file)) = brain_file(data_dir, entry, history_mtime) {
                law_upsert(before.files, last_id, file, id);
            }
        }
    }
}

/// A file is a database of a conversation by its extension, and the conversation is what
/// stands before that.
pub proof fn law_database_name(id: Seq<char>, name: Seq<char>)
    ensures
        database_id(None) is None,
        database_id(Some(name)) == Some(id) ==> name == id + seq!['.', 'd', 'b'] && id.len() > 0,
        id.len() > 0 ==> database_id(Some(id + seq!['.', 'd', 'b'])) == Some(id),
{
    reveal_strlit("db");
    reveal_strlit("..");
    law_stem_and_extension(name);
    if database_id(Some(name)) == Some(id) {
        assert(name =~= id + seq!['.', 'd', 'b']);
    }
    let full = id + seq!['.', 'd', 'b'];
    law_stem_and_extension(full);
    lemma_last_index(full, '.', full.len() as int);
    if id.len() > 0 {
        assert(full[full.len() - 3] == '.');
        assert(last_index(full, '.', full.len() as int) == Some(full.len() - 3));
        assert(full.last() == 'b');
        assert(full != ".."@);
        assert(full.skip(full.len() - 2) =~= "db"@);
        assert(full.take(full.len() - 3) =~= id);
    }
}

/// A conversation without a database is scanned as its directory is, and one with
/// databases counts as new as the newest of what is scanned for it, and no newer.
pub proof fn law_database_mtime(
    data_dir: PathBuf,
    before: SessionFilesView,
    entries: Seq<Option<DatabaseEntry>>,
    history_mtime: u64,
    id: Seq<char>,
)
    requires
        distinct_keys(before.files),
        forall|j: int|
            0 <= j < before.files.len() ==> (#[trigger] before.files[j]).1.mtime >= history_mtime,
    ensures
        ({
            let found = database_files(data_dir, before, entries, history_mtime);
            let is_database = |i: int|
                0 <= i < entries.len() && entries[i] is Some && database_id(
                    text_view(entries[i]->0.name),
                ) == Some(id);
            &&& (forall|i: int| !#[trigger] is_database(i)) ==> lookup(found.files, id) == lookup(
                before.files,
                id,
            )
            &&& (exists|i: int| #[trigger] is_database(i)) ==> (lookup(found.files, id) matches Some(
                file,
            ) && (file.mtime == history_mtime || file.mtime == scanned_mtime(before.files, id)
                || exists|i: int| #[trigger] is_database(i) && file.mtime
                == entries[i]->0.sqlite_mtime))
        }),
    decreases entries.len(),
{
    let is_database = |i: int|
        0 <= i < entries.len() && entries[i] is Some && database_id(text_view(entries[i]->0.name))
            == Some(id);
    if entries.len() > 0 {
        let rest = entries.drop_last();
        let was_database = |i: int|
            0 <= i < rest.len() && rest[i] is Some && database_id(text_view(rest[i]->0.name))
                == Some(id);
        law_database_mtime(data_dir, before, rest, history_mtime, id);
        lemma_database_files(data_dir, before, rest, history_mtime);
        let found = database_files(data_dir, before, rest, history_mtime);
        assert forall|i: int| #[trigger] was_database(i) implies is_database(i) by {
            assert(rest[i] == entries[i]);
        }
        assert forall|i: int| #[trigger] is_database(i) && i < rest.len() implies was_database(
            i,
        ) by {
            assert(rest[i] == entries[i]);
        }
        let last = entries.len() - 1;
        assert(entries[last] == entries.last());
        if let Some(entry) = entries.last() {
            if let Some(last_id) = database_id(text_view(entry.name)) {
                let file = ScannedView {
                    path: database_path(data_dir, text_view(entry.name)->0),
                    mtime: newer(
                        newer(entry.sqlite_mtime, history_mtime),
                        scanned_mtime(found.files, last_id),
                    ),
                };
                law_upsert(found.files, last_id, file, id);
                if last_id == id {
                    assert(is_database(last));
                }
            }
        }
        if exists|i: int| #[trigger] is_database(i) {
            let i = choose|i: int| #[trigger] is_database(i);
            if i < last {
                assert(was_database(i));
            }
        }
    }
}

/// A scan fails exactly if a directory that is there cannot be listed.
pub proof fn law_scan_fails_on_what_cannot_be_listed(
    data_dir: PathBuf,
    brain: Listing<BrainEntry>,
    databases: Listing<DatabaseEntry>,
    history_mtime: u64,
)
    ensures
        all_session_files(data_dir, brain, databases, history_mtime) is None <==> (brain
            is Unreadable || databases is Unreadable),
{
}

/// What databases take up is counted one by one; other files are not.
pub proof fn law_databases_are_counted(left: Seq<NamedStats>, right: Seq<NamedStats>)
    ensures
        database_stats(left + right) == database_stats(left) + database_stats(right),
        left.len() == 1 ==> database_stats(left) == if extension_of(left[0].name.text@) == Some(
            seq!['d', 'b'],
        ) {
            seq![left[0].stats]
        } else {
            seq![]
        },
    decreases right.len(),
{
    reveal_with_fuel(database_stats, 2);
    reveal_strlit("db");
    assert("db"@ =~= seq!['d', 'b']);
    let all = left + right;
    if right.len() == 0 {
        assert(all =~= left);
    } else {
        law_databases_are_counted(left, right.drop_last());
        assert(all.drop_last() =~= left + right.drop_last());
        assert(all.last() == right.last());
    }
    assert(database_stats(all) =~= database_stats(left) + database_stats(right));
    if left.len() == 1 {
        assert(database_stats(left) =~= if extension_of(left[0].name.text@) == Some("db"@) {
            seq![left[0].stats]
        } else {
            seq![]
        });
    }
}

/// A database lies under its name among the conversations.
pub proof fn law_place_of_a_database(data_dir: PathBuf, name: Seq<char>)
    requires
        database_id(Some(name)) is Some,
    ensures
        database_path(data_dir, name).base == data_dir,
        database_path(data_dir, name).names == seq![
            seq!['c', 'o', 'n', 'v', 'e', 'r', 's', 'a', 't', 'i', 'o', 'n', 's'],
            name,
        ],
{
    reveal_strlit("conversations");
    reveal_strlit(".");
    law_database_name(database_id(Some(name))->0, name);
    assert("conversations"@ =~= seq![
        'c', 'o', 'n', 'v', 'e', 'r', 's', 'a', 't', 'i', 'o', 'n', 's',
    ]);
    assert(name.len() > 1);
}

/// A file that is not there makes nothing newer, and one that is there makes what it
/// belongs to no older than itself.
pub proof fn law_missing_file_is_old(facts: Option<FileFacts>, mtime: u64)
    ensures
        newer(mtime_of_file(None), mtime) == mtime,
        facts is Some ==> newer(mtime_of_file(facts), mtime) >= facts->0.mtime,
        facts is Some && facts->0.mtime > mtime ==> newer(mtime_of_file(facts), mtime)
            == facts->0.mtime,
{
}

} // verus!
