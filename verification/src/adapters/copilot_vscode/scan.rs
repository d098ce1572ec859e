//! Finding out which chats are new, changed or gone.

use vstd::prelude::*;

use crate::adapters::copilot_vscode::chat::{chat_requests, chat_session};
use crate::adapters::copilot_vscode::directory::{chat_directory_outcome, lemma_some_chat_directory};
use crate::adapters::copilot_vscode::files::{document_id, filename_id, VscodeSessionFile};
use crate::adapters::shared::{
    law_deleted_ids, needs_update, scan_report, session_views, stamped, FileNameView,
    IncrementalScan, KnownView, ScanView,
};
use crate::json::{optional_document, parsed_json, JsonTree};
use crate::model::SessionView;
use crate::paths::stem_of;
use crate::text::{bytes_view, texts};
use crate::time::Timestamp;

verus! {

/// A file of a chat and what was read: the bytes of the chat, unless they were not read
/// or could not be; the bytes of the description of its workspace, if it belongs to
/// one; when the file was written.
pub struct VscodeSource {
    pub file: VscodeSessionFile,
    pub contents: Option<Vec<u8>>,
    pub description: Option<Vec<u8>>,
    pub written: Timestamp,
    pub mtime: u64,
}

/// The document that a chat holds.
pub open spec fn source_data(source: VscodeSource) -> Option<JsonTree> {
    optional_document(bytes_view(source.contents))
}

/// Directories that a chat can belong to, if it has requests at all.
pub open spec fn source_directory_outcome(
    description: Option<Seq<u8>>,
    data: Option<JsonTree>,
    directory: Seq<char>,
) -> bool {
    match data {
        Some(d) => match chat_requests(d) {
            Some(requests) => chat_directory_outcome(description, requests, directory),
            None => true,
        },
        None => true,
    }
}

/// The session of a file that belongs to `directory`.
pub open spec fn source_session(source: VscodeSource, directory: Seq<char>) -> Option<SessionView> {
    match source_data(source) {
        Some(data) => chat_session(
            source.file.name@,
            data,
            directory,
            source.written,
            source.mtime,
        ),
        None => None,
    }
}

/// What a scan sees of a file: its name and modification time, the document that it
/// holds, and the session that the document makes.
#[verifier::ext_equal]
pub struct ChatInput {
    pub name: FileNameView,
    pub mtime: u64,
    pub data: Option<JsonTree>,
    pub session: Option<SessionView>,
}

/// What a scan sees of a file that belongs to `directory`.
pub open spec fn source_input(source: VscodeSource, directory: Seq<char>) -> ChatInput {
    ChatInput {
        name: source.file.name@,
        mtime: source.mtime,
        data: source_data(source),
        session: source_session(source, directory),
    }
}

/// Whether a file need not be read, because the session under its name is known and
/// not older.
pub open spec fn is_known_by_name(known: Seq<KnownView>, name: FileNameView, mtime: u64) -> bool {
    match filename_id(name) {
        Some(id) => !needs_update(known, "copilot-vscode"@, id, mtime),
        None => false,
    }
}

/// Whether a file had to be read and told no id.
pub open spec fn is_unreadable(known: Seq<KnownView>, input: ChatInput) -> bool {
    !is_known_by_name(known, input.name, input.mtime) && match input.data {
        Some(data) => document_id(input.name, data) is None,
        None => true,
    }
}

/// The session that a file reports as new or changed.
pub open spec fn reported_session(known: Seq<KnownView>, input: ChatInput) -> Option<SessionView> {
    if is_known_by_name(known, input.name, input.mtime) || is_unreadable(known, input) {
        None
    } else {
        let id = document_id(input.name, input.data->0)->0;
        if needs_update(known, "copilot-vscode"@, id, input.mtime) {
            match input.session {
                Some(session) => Some(stamped(session, input.mtime)),
                None => None,
            }
        } else {
            None
        }
    }
}

/// An optional session as a list.
pub open spec fn as_list(session: Option<SessionView>) -> Seq<SessionView> {
    match session {
        Some(s) => seq![s],
        None => seq![],
    }
}

/// What a file does to a scan. One that is known by its name is current unread; one
/// that cannot be read leaves the scan incomplete; one that changed is reported, or is
/// no longer current if it holds no session any more.
pub open spec fn chat_step(known: Seq<KnownView>, state: ScanView, input: ChatInput) -> ScanView {
    if is_known_by_name(known, input.name, input.mtime) {
        ScanView { current: state.current.insert(filename_id(input.name)->0), ..state }
    } else if is_unreadable(known, input) {
        ScanView { complete: false, ..state }
    } else {
        let id = document_id(input.name, input.data->0)->0;
        if !needs_update(known, "copilot-vscode"@, id, input.mtime) {
            ScanView { current: state.current.insert(id), ..state }
        } else {
            match input.session {
                Some(session) => ScanView {
                    current: state.current.insert(id),
                    sessions: state.sessions.push(stamped(session, input.mtime)),
                    ..state
                },
                None => ScanView { current: state.current.remove(id), ..state },
            }
        }
    }
}

/// The state of a scan after these files.
pub open spec fn chat_scan(
    known: Seq<KnownView>,
    complete: bool,
    inputs: Seq<ChatInput>,
) -> ScanView
    decreases inputs.len(),
{
    if inputs.len() == 0 {
        ScanView { current: Set::empty(), sessions: seq![], complete }
    } else {
        chat_step(known, chat_scan(known, complete, inputs.drop_last()), inputs.last())
    }
}

/// Directories that these files can belong to.
pub open spec fn source_directories(
    sources: Seq<VscodeSource>,
    directories: Seq<Seq<char>>,
) -> bool {
    &&& directories.len() == sources.len()
    &&& forall|i: int|
        0 <= i < sources.len() ==> source_directory_outcome(
            bytes_view((#[trigger] sources[i]).description),
            source_data(sources[i]),
            directories[i],
        )
}

/// What a scan sees of files that belong to these directories.
pub open spec fn source_inputs(
    sources: Seq<VscodeSource>,
    directories: Seq<Seq<char>>,
) -> Seq<ChatInput> {
    Seq::new(sources.len(), |i: int| source_input(sources[i], directories[i]))
}

/// The sessions of files that belong to these directories.
pub open spec fn source_sessions(
    sources: Seq<VscodeSource>,
    directories: Seq<Seq<char>>,
) -> Seq<SessionView>
    decreases sources.len(),
{
    if sources.len() == 0 {
        seq![]
    } else {
        let before = source_sessions(sources.drop_last(), directories.drop_last());
        match source_session(sources.last(), directories.last()) {
            Some(session) => before.push(session),
            None => before,
        }
    }
}

/// There is always a directory that a chat can belong to.
pub proof fn lemma_some_directory_is_possible(description: Option<Seq<u8>>, data: Option<JsonTree>)
    ensures
        exists|directory: Seq<char>| source_directory_outcome(description, data, directory),
{
    if let Some(d) = data {
        if let Some(requests) = chat_requests(d) {
            lemma_some_chat_directory(description, requests);
            let directory = choose|directory: Seq<char>|
                chat_directory_outcome(description, requests, directory);
            assert(source_directory_outcome(description, data, directory));
        } else {
            assert(source_directory_outcome(description, data, seq![]));
        }
    } else {
        assert(source_directory_outcome(description, data, seq![]));
    }
}

/// One more file with a directory that it can belong to.
pub proof fn lemma_one_more_directory(
    sources: Seq<VscodeSource>,
    directories: Seq<Seq<char>>,
    directory: Seq<char>,
    i: int,
)
    requires
        0 <= i < sources.len(),
        source_directories(sources.take(i), directories),
        source_directory_outcome(
            bytes_view(sources[i].description),
            source_data(sources[i]),
            directory,
        ),
    ensures
        source_directories(sources.take(i + 1), directories.push(directory)),
        sources.take(i + 1).drop_last() == sources.take(i),
        directories.push(directory).drop_last() == directories,
        source_inputs(sources.take(i + 1), directories.push(directory)).drop_last()
            == source_inputs(sources.take(i), directories),
        source_inputs(sources.take(i + 1), directories.push(directory)).last() == source_input(
            sources[i],
            directory,
        ),
{
    let more = directories.push(directory);
    assert forall|j: int| 0 <= j < sources.take(i + 1).len() implies source_directory_outcome(
        bytes_view((#[trigger] sources.take(i + 1)[j]).description),
        source_data(sources.take(i + 1)[j]),
        more[j],
    ) by {
        if j < i {
            assert(sources.take(i)[j] == sources.take(i + 1)[j]);
        }
    }
    assert(sources.take(i + 1).drop_last() =~= sources.take(i));
    assert(more.drop_last() =~= directories);
    assert(source_inputs(sources.take(i + 1), more).drop_last() =~= source_inputs(
        sources.take(i),
        directories,
    ));
}

/// The sessions that files report, each for itself.
pub open spec fn reported_sessions(known: Seq<KnownView>, inputs: Seq<ChatInput>) -> Seq<
    SessionView,
>
    decreases inputs.len(),
{
    if inputs.len() == 0 {
        seq![]
    } else {
        let before = reported_sessions(known, inputs.drop_last());
        match reported_session(known, inputs.last()) {
            Some(session) => before.push(session),
            None => before,
        }
    }
}

/// Each file reports for itself: one that cannot be read does not keep another from
/// being reported.
pub proof fn law_chats_report_for_themselves(
    known: Seq<KnownView>,
    complete: bool,
    inputs: Seq<ChatInput>,
)
    ensures
        chat_scan(known, complete, inputs).sessions == reported_sessions(known, inputs),
    decreases inputs.len(),
{
    if inputs.len() > 0 {
        law_chats_report_for_themselves(known, complete, inputs.drop_last());
    }
}

/// A session that is reported carries the modification time of its file, the name of the
/// agent and the id of its document.
pub proof fn law_reported_session_is_of_its_file(
    known: Seq<KnownView>,
    source: VscodeSource,
    directory: Seq<char>,
)
    ensures
        reported_session(known, source_input(source, directory)) matches Some(session) ==> {
            &&& session.mtime == source.mtime
            &&& session.agent == "copilot-vscode"@
            &&& source_data(source) matches Some(data) && document_id(source.file.name@, data)
                == Some(session.id)
        },
{
}

/// A scan with a file that cannot be read deletes nothing.
pub proof fn law_unreadable_chat_deletes_nothing(
    known: Seq<KnownView>,
    complete: bool,
    inputs: Seq<ChatInput>,
    i: int,
    scan: IncrementalScan,
)
    requires
        0 <= i < inputs.len(),
        is_unreadable(known, inputs[i]),
        scan_report(known, "copilot-vscode"@, chat_scan(known, complete, inputs), scan),
    ensures
        scan.deleted_ids@.len() == 0,
{
    lemma_chat_scan_complete(known, complete, inputs);
    assert(texts(scan.deleted_ids@).len() == 0);
}

proof fn lemma_chat_scan_complete(
    known: Seq<KnownView>,
    complete: bool,
    inputs: Seq<ChatInput>,
)
    ensures
        chat_scan(known, complete, inputs).complete <==> (complete && forall|i: int|
            0 <= i < inputs.len() ==> !is_unreadable(known, #[trigger] inputs[i])),
    decreases inputs.len(),
{
    if inputs.len() > 0 {
        let rest = inputs.drop_last();
        lemma_chat_scan_complete(known, complete, rest);
        assert forall|i: int| 0 <= i < rest.len() implies rest[i] == inputs[i] by {}
        if forall|i: int| 0 <= i < inputs.len() ==> !is_unreadable(known, #[trigger] inputs[i]) {
            assert forall|i: int| 0 <= i < rest.len() implies !is_unreadable(
                known,
                #[trigger] rest[i],
            ) by {
                assert(rest[i] == inputs[i]);
            }
            assert(!is_unreadable(known, inputs[inputs.len() - 1]));
        }
        if chat_scan(known, complete, inputs).complete {
            assert forall|i: int| 0 <= i < inputs.len() implies !is_unreadable(
                known,
                #[trigger] inputs[i],
            ) by {
                if i < rest.len() {
                    assert(!is_unreadable(known, rest[i]));
                }
            }
        }
    }
}

/// A file that is known by its name is not read: what it holds makes no difference.
pub proof fn law_known_name_is_not_read(
    known: Seq<KnownView>,
    state: ScanView,
    left: ChatInput,
    right: ChatInput,
)
    requires
        left.name == right.name,
        left.mtime == right.mtime,
        is_known_by_name(known, left.name, left.mtime),
    ensures
        chat_step(known, state, left) == chat_step(known, state, right),
{
}

/// The id that a file keeps current.
pub open spec fn kept_id(known: Seq<KnownView>, input: ChatInput) -> Option<Seq<char>> {
    if is_known_by_name(known, input.name, input.mtime) {
        filename_id(input.name)
    } else if is_unreadable(known, input) {
        None
    } else {
        let id = document_id(input.name, input.data->0);
        if needs_update(known, "copilot-vscode"@, id->0, input.mtime) && input.session is None {
            None
        } else {
            id
        }
    }
}

proof fn lemma_current_is_kept(
    known: Seq<KnownView>,
    complete: bool,
    inputs: Seq<ChatInput>,
    id: Seq<char>,
)
    requires
        chat_scan(known, complete, inputs).current.contains(id),
    ensures
        exists|i: int| 0 <= i < inputs.len() && kept_id(known, #[trigger] inputs[i]) == Some(id),
    decreases inputs.len(),
{
    if inputs.len() > 0 {
        let rest = inputs.drop_last();
        if kept_id(known, inputs.last()) == Some(id) {
            assert(kept_id(known, inputs[inputs.len() - 1]) == Some(id));
        } else {
            lemma_current_is_kept(known, complete, rest, id);
            let i = choose|i: int|
                0 <= i < rest.len() && kept_id(known, #[trigger] rest[i]) == Some(id);
            assert(kept_id(known, inputs[i]) == Some(id));
        }
    }
}

/// A known session that no file keeps current, because its file is gone or holds no
/// session any more, is deleted by a complete scan whose files could all be read.
pub proof fn law_vanished_chat_is_deleted(
    known: Seq<KnownView>,
    inputs: Seq<ChatInput>,
    k: int,
    scan: IncrementalScan,
)
    requires
        0 <= k < known.len(),
        known[k].agent == "copilot-vscode"@,
        forall|i: int| 0 <= i < inputs.len() ==> !is_unreadable(known, #[trigger] inputs[i]),
        forall|i: int|
            0 <= i < inputs.len() ==> kept_id(known, #[trigger] inputs[i]) != Some(known[k].id),
        scan_report(known, "copilot-vscode"@, chat_scan(known, true, inputs), scan),
    ensures
        texts(scan.deleted_ids@).contains(known[k].id),
{
    let id = known[k].id;
    let state = chat_scan(known, true, inputs);
    lemma_chat_scan_complete(known, true, inputs);
    if state.current.contains(id) {
        lemma_current_is_kept(known, true, inputs, id);
    }
    law_deleted_ids(known, "copilot-vscode"@, state.current, id);
}

/// A session without its directory.
pub open spec fn placeless(session: SessionView) -> SessionView {
    SessionView { directory: seq![], ..session }
}

pub open spec fn placeless_sessions(sessions: Seq<SessionView>) -> Seq<SessionView> {
    sessions.map_values(|session: SessionView| placeless(session))
}

proof fn lemma_directories_only_place_sessions(
    known: Seq<KnownView>,
    complete: bool,
    sources: Seq<VscodeSource>,
    left: Seq<Seq<char>>,
    right: Seq<Seq<char>>,
)
    requires
        left.len() == sources.len(),
        right.len() == sources.len(),
    ensures
        ({
            let one = chat_scan(known, complete, source_inputs(sources, left));
            let other = chat_scan(known, complete, source_inputs(sources, right));
            &&& one.current == other.current
            &&& one.complete == other.complete
            &&& placeless_sessions(one.sessions) == placeless_sessions(other.sessions)
        }),
    decreases sources.len(),
{
    if sources.len() > 0 {
        let rest = sources.drop_last();
        lemma_directories_only_place_sessions(
            known,
            complete,
            rest,
            left.drop_last(),
            right.drop_last(),
        );
        let lefts = source_inputs(sources, left);
        let rights = source_inputs(sources, right);
        assert(lefts.drop_last() =~= source_inputs(rest, left.drop_last()));
        assert(rights.drop_last() =~= source_inputs(rest, right.drop_last()));
        let one = chat_scan(known, complete, lefts);
        let other = chat_scan(known, complete, rights);
        let one_before = chat_scan(known, complete, lefts.drop_last());
        let other_before = chat_scan(known, complete, rights.drop_last());
        if one.sessions != one_before.sessions || other.sessions != other_before.sessions {
            let last = one.sessions.last();
            assert(placeless_sessions(one.sessions) =~= placeless_sessions(
                one_before.sessions,
            ).push(placeless(last)));
            assert(placeless_sessions(other.sessions) =~= placeless_sessions(
                other_before.sessions,
            ).push(placeless(other.sessions.last())));
        }
    }
}

/// Two scans of the same files agree, whoever is handed the sessions: they delete the
/// same sessions and report the same ones, but for directories that depend on the
/// system.
pub proof fn law_scans_of_the_same_files_agree(
    known: Seq<KnownView>,
    complete: bool,
    sources: Seq<VscodeSource>,
    left_directories: Seq<Seq<char>>,
    right_directories: Seq<Seq<char>>,
    left: IncrementalScan,
    right: IncrementalScan,
)
    requires
        source_directories(sources, left_directories),
        source_directories(sources, right_directories),
        scan_report(
            known,
            "copilot-vscode"@,
            chat_scan(known, complete, source_inputs(sources, left_directories)),
            left,
        ),
        scan_report(
            known,
            "copilot-vscode"@,
            chat_scan(known, complete, source_inputs(sources, right_directories)),
            right,
        ),
    ensures
        left.agent@ == right.agent@,
        texts(left.deleted_ids@) == texts(right.deleted_ids@),
        placeless_sessions(session_views(left.new_or_modified@)) == placeless_sessions(
            session_views(right.new_or_modified@),
        ),
{
    lemma_directories_only_place_sessions(
        known,
        complete,
        sources,
        left_directories,
        right_directories,
    );
}

/// A file need not be read exactly if its name gives an id that is known and not older.
pub proof fn law_known_by_name(known: Seq<KnownView>, name: FileNameView, mtime: u64)
    ensures
        is_known_by_name(known, name, mtime) <==> (name.exact && !needs_update(
            known,
            "copilot-vscode"@,
            stem_of(name.text),
            mtime,
        )),
{
}

/// A file that is known by its name is current, without being read.
pub proof fn law_known_file_is_current(known: Seq<KnownView>, state: ScanView, input: ChatInput)
    requires
        is_known_by_name(known, input.name, input.mtime),
    ensures
        ({
            let after = chat_step(known, state, input);
            &&& after.current == state.current.insert(stem_of(input.name.text))
            &&& after.sessions == state.sessions
            &&& after.complete == state.complete
        }),
{
}

/// A file that has to be read and is no document, or tells no id, leaves the scan
/// incomplete and changes nothing else.
pub proof fn law_unreadable_file_only_hinders(
    known: Seq<KnownView>,
    state: ScanView,
    input: ChatInput,
)
    requires
        !is_known_by_name(known, input.name, input.mtime),
        input.data is None || document_id(input.name, input.data->0) is None,
    ensures
        ({
            let after = chat_step(known, state, input);
            &&& !after.complete
            &&& after.current == state.current
            &&& after.sessions == state.sessions
        }),
{
}

/// A file that can be read goes by the id of its document: where that is known and not
/// older, it is current; where it changed, its session is reported with the modification
/// time of the file, and without a session it is no longer current.
pub proof fn law_read_file_goes_by_its_document(
    known: Seq<KnownView>,
    state: ScanView,
    input: ChatInput,
)
    requires
        !is_known_by_name(known, input.name, input.mtime),
        input.data is Some && document_id(input.name, input.data->0) is Some,
    ensures
        ({
            let id = document_id(input.name, input.data->0)->0;
            let changed = needs_update(known, "copilot-vscode"@, id, input.mtime);
            let after = chat_step(known, state, input);
            &&& after.complete == state.complete
            &&& changed && input.session is None ==> after.current == state.current.remove(id)
                && after.sessions == state.sessions
            &&& !changed ==> after.current == state.current.insert(id) && after.sessions
                == state.sessions
            &&& changed && input.session is Some ==> {
                &&& after.current == state.current.insert(id)
                &&& after.sessions.len() == state.sessions.len() + 1
                &&& after.sessions.drop_last() == state.sessions
                &&& after.sessions.last().mtime == input.mtime
                &&& after.sessions.last() == (SessionView {
                    mtime: input.mtime,
                    ..input.session->0
                })
            }
        }),
{
    if let Some(session) = input.session {
        assert(state.sessions.push(stamped(session, input.mtime)).drop_last() =~= state.sessions);
    }
}

/// A scan takes its files in order, from nothing.
pub proof fn law_scan_takes_files_in_order(
    known: Seq<KnownView>,
    complete: bool,
    inputs: Seq<ChatInput>,
    last: ChatInput,
)
    ensures
        chat_scan(known, complete, inputs.push(last)) == chat_step(
            known,
            chat_scan(known, complete, inputs),
            last,
        ),
        chat_scan(known, complete, seq![]).sessions.len() == 0,
        chat_scan(known, complete, seq![]).complete == complete,
        forall|id: Seq<char>| !#[trigger]
            chat_scan(known, complete, seq![]).current.contains(id),
{
    assert(inputs.push(last).drop_last() =~= inputs);
}

/// What a scan sees of a file is its name, when it was modified, the document that its
/// bytes spell and the session of that document.
pub proof fn law_what_a_scan_sees(source: VscodeSource, directory: Seq<char>)
    ensures
        ({
            let input = source_input(source, directory);
            let data = match source.contents {
                Some(bytes) => parsed_json(bytes@),
                None => None,
            };
            &&& input.name == source.file.name@ && input.mtime == source.mtime
            &&& input.data == data
            &&& data matches Some(document) ==> input.session == chat_session(
                source.file.name@,
                document,
                directory,
                source.written,
                source.mtime,
            )
            &&& data is None ==> input.session is None
        }),
{
}

/// The sessions of files are theirs one by one, in order.
pub proof fn law_sources_make_sessions_in_order(
    sources: Seq<VscodeSource>,
    directories: Seq<Seq<char>>,
    last: VscodeSource,
    directory: Seq<char>,
)
    ensures
        source_sessions(seq![], seq![]).len() == 0,
        ({
            let before = source_sessions(sources, directories);
            let after = source_sessions(sources.push(last), directories.push(directory));
            match source_session(last, directory) {
                Some(session) => after.len() == before.len() + 1 && after.last() == session
                    && after.drop_last() == before,
                None => after == before,
            }
        }),
{
    assert(sources.push(last).drop_last() =~= sources);
    assert(directories.push(directory).drop_last() =~= directories);
    let before = source_sessions(sources, directories);
    if let Some(session) = source_session(last, directory) {
        assert(before.push(session).drop_last() =~= before);
    }
}

/// A chat with requests belongs to a directory that its workspace or its references give.
pub proof fn law_source_directory(
    description: Option<Seq<u8>>,
    data: JsonTree,
    directory: Seq<char>,
)
    requires
        source_directory_outcome(description, Some(data), directory),
        chat_requests(data) is Some,
    ensures
        chat_directory_outcome(description, chat_requests(data)->0, directory),
{
}

} // verus!
