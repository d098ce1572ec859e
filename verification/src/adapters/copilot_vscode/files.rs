//! Which files hold the chats.

use std::path::PathBuf;

use vstd::prelude::*;

use crate::adapters::shared::{listed, FileName, FileNameView, Listing};
use crate::json::{string_field, text_field, Json, JsonTree};
use crate::paths::{extension_of, law_stem_and_extension, name_extension, name_stem, stem_of};
use crate::text::{last_index, lemma_last_index, same_text, text_view};

verus! {

/// An entry of a directory of chats.
#[derive(Debug)]
pub struct ChatEntry {
    pub path: PathBuf,
    pub name: FileName,
}

/// A workspace, with what its directory of chats holds.
pub struct WorkspaceEntry {
    pub dir: PathBuf,
    pub chats: Listing<ChatEntry>,
}

/// A file that holds a chat, and the workspace it belongs to.
#[derive(Debug)]
pub struct VscodeSessionFile {
    pub path: PathBuf,
    pub name: FileName,
    pub workspace_dir: Option<PathBuf>,
}

#[verifier::ext_equal]
pub struct VscodeFileView {
    pub path: PathBuf,
    pub name: FileNameView,
    pub workspace_dir: Option<PathBuf>,
}

impl View for VscodeSessionFile {
    type V = VscodeFileView;

    open spec fn view(&self) -> VscodeFileView {
        VscodeFileView { path: self.path, name: self.name@, workspace_dir: self.workspace_dir }
    }
}

pub open spec fn file_views(files: Seq<VscodeSessionFile>) -> Seq<VscodeFileView> {
    files.map_values(|file: VscodeSessionFile| file@)
}

/// The id that a file's name gives: the name without its extension, if that is text.
pub open spec fn filename_id(name: FileNameView) -> Option<Seq<char>> {
    if name.exact {
        Some(stem_of(name.text))
    } else {
        None
    }
}

/// The id of a session: the one in the document, or else that of the file's name.
pub open spec fn document_id(name: FileNameView, data: JsonTree) -> Option<Seq<char>> {
    let given = text_field(data, "sessionId"@);
    if given.len() > 0 {
        Some(given)
    } else {
        filename_id(name)
    }
}

impl VscodeSessionFile {
    /// The id of the session in this file.
    pub fn session_id(&self, data: &Json) -> (id: Option<String>)
        ensures
            text_view(id) == document_id(self.name@, data@),
    {
        let given = string_field(data, "sessionId");
        if !given.as_str().is_empty() {
            return Some(given);
        }
        self.fallback_session_id()
    }

    /// The id that the file's name gives.
    pub fn fallback_session_id(&self) -> (id: Option<String>)
        ensures
            text_view(id) == filename_id(self.name@),
    {
        if self.name.exact {
            Some(name_stem(self.name.text.as_str()))
        } else {
            None
        }
    }
}

/// Whether a file's name is that of a chat.
pub open spec fn is_chat(name: FileNameView) -> bool {
    extension_of(name.text) == Some("json"@)
}

/// The files of chats that were found, and whether they are all there are.
#[verifier::ext_equal]
pub struct FoundView {
    pub files: Seq<VscodeFileView>,
    pub complete: bool,
}

/// The files of chats that were found, and whether they are all there are.
pub struct FoundChats {
    pub files: Vec<VscodeSessionFile>,
    pub complete: bool,
}

impl View for FoundChats {
    type V = FoundView;

    open spec fn view(&self) -> FoundView {
        FoundView { files: file_views(self.files@), complete: self.complete }
    }
}

/// What was found after a directory of chats.
pub open spec fn with_chats(
    before: FoundView,
    entries: Seq<Option<ChatEntry>>,
    workspace_dir: Option<PathBuf>,
) -> FoundView
    decreases entries.len(),
{
    if entries.len() == 0 {
        before
    } else {
        let found = with_chats(before, entries.drop_last(), workspace_dir);
        match entries.last() {
            None => FoundView { complete: false, ..found },
            Some(entry) => if is_chat(entry.name@) {
                FoundView {
                    files: found.files.push(
                        VscodeFileView { path: entry.path, name: entry.name@, workspace_dir },
                    ),
                    ..found
                }
            } else {
                found
            },
        }
    }
}

/// What was found after a workspace: its chats, if it has a directory of them that can
/// be listed.
pub open spec fn with_workspace(before: FoundView, entry: Option<WorkspaceEntry>) -> FoundView {
    match entry {
        None => FoundView { complete: false, ..before },
        Some(workspace) => match workspace.chats {
            Listing::Missing => before,
            Listing::Unreadable => FoundView { complete: false, ..before },
            Listing::Entries(entries) => with_chats(before, entries@, Some(workspace.dir)),
        },
    }
}

/// What was found after these workspaces.
pub open spec fn with_workspaces(
    before: FoundView,
    entries: Seq<Option<WorkspaceEntry>>,
) -> FoundView
    decreases entries.len(),
{
    if entries.len() == 0 {
        before
    } else {
        with_workspace(with_workspaces(before, entries.drop_last()), entries.last())
    }
}

/// The files of all chats, unless a directory that is there cannot be listed.
pub open spec fn all_chats(
    chats: Listing<ChatEntry>,
    workspaces: Listing<WorkspaceEntry>,
) -> Option<FoundView> {
    if chats is Unreadable || workspaces is Unreadable {
        None
    } else {
        let nothing = FoundView { files: seq![], complete: true };
        Some(with_workspaces(with_chats(nothing, listed(chats), None), listed(workspaces)))
    }
}

pub open spec fn found_view(found: Option<FoundChats>) -> Option<FoundView> {
    match found {
        Some(f) => Some(f@),
        None => None,
    }
}

fn copy_dir(dir: &Option<PathBuf>) -> (copy: Option<PathBuf>)
    ensures
        copy == *dir,
{
    match dir {
        Some(dir) => Some(dir.clone()),
        None => None,
    }
}

impl FoundChats {
    pub(crate) fn add_chats(
        &mut self,
        entries: &Vec<Option<ChatEntry>>,
        workspace_dir: &Option<PathBuf>,
    )
        ensures
            final(self)@ == with_chats(old(self)@, entries@, *workspace_dir),
    {
        let ghost start = self@;
        let mut i: usize = 0;
        assert(entries@.take(0) =~= Seq::<Option<ChatEntry>>::empty());
        while i < entries.len()
            invariant
                i <= entries@.len(),
                self@ == with_chats(start, entries@.take(i as int), *workspace_dir),
            decreases entries@.len() - i,
        {
            let ghost before = self.files@;
            assert(entries@.take(i + 1).drop_last() =~= entries@.take(i as int));
            match &entries[i] {
                None => {
                    self.complete = false;
                },
                Some(entry) => {
                    if let Some(extension) = name_extension(entry.name.text.as_str()) {
                        if same_text(extension.as_str(), "json") {
                            let file = VscodeSessionFile {
                                path: entry.path.clone(),
                                name: FileName {
                                    text: entry.name.text.clone(),
                                    exact: entry.name.exact,
                                },
                                workspace_dir: copy_dir(workspace_dir),
                            };
                            self.files.push(file);
                            assert(file_views(self.files@) =~= file_views(before).push(file@));
                        }
                    }
                },
            }
            i += 1;
        }
        assert(entries@.take(i as int) =~= entries@);
    }

    pub(crate) fn add_workspaces(&mut self, entries: &Vec<Option<WorkspaceEntry>>)
        ensures
            final(self)@ == with_workspaces(old(self)@, entries@),
    {
        let ghost start = self@;
        let mut i: usize = 0;
        assert(entries@.take(0) =~= Seq::<Option<WorkspaceEntry>>::empty());
        while i < entries.len()
            invariant
                i <= entries@.len(),
                self@ == with_workspaces(start, entries@.take(i as int)),
            decreases entries@.len() - i,
        {
            assert(entries@.take(i + 1).drop_last() =~= entries@.take(i as int));
            match &entries[i] {
                None => {
                    self.complete = false;
                },
                Some(workspace) => match &workspace.chats {
                    Listing::Missing => {},
                    Listing::Unreadable => {
                        self.complete = false;
                    },
                    Listing::Entries(chats) => {
                        let dir = Some(workspace.dir.clone());
                        self.add_chats(chats, &dir);
                    },
                },
            }
            i += 1;
        }
        assert(entries@.take(i as int) =~= entries@);
    }
}

/// The id of a session is the one in its document, and only where there is none what
/// stands before the extension of the file's name, if that is text.
pub proof fn law_session_id(name: FileNameView, data: JsonTree)
    ensures
        text_field(data, "sessionId"@).len() > 0 ==> document_id(name, data) == Some(
            text_field(data, "sessionId"@),
        ),
        text_field(data, "sessionId"@).len() == 0 && name.exact ==> document_id(name, data) == Some(
            stem_of(name.text),
        ),
        text_field(data, "sessionId"@).len() == 0 && !name.exact ==> document_id(name, data)
            is None,
        name.exact ==> filename_id(name) == Some(stem_of(name.text)),
        !name.exact ==> filename_id(name) is None,
{
}

/// A file is a chat by its extension, behind a name.
pub proof fn law_chat_name(name: FileNameView)
    ensures
        is_chat(name) <==> (name.text.len() > 5 && name.text.skip(name.text.len() - 5) == seq![
            '.',
            'j',
            's',
            'o',
            'n',
        ]),
{
    reveal_strlit("json");
    reveal_strlit("..");
    let text = name.text;
    let end = seq!['.', 'j', 's', 'o', 'n'];
    law_stem_and_extension(text);
    lemma_last_index(text, '.', text.len() as int);
    if is_chat(name) {
        assert(text.skip(text.len() - 5) =~= end);
    }
    if text.len() > 5 && text.skip(text.len() - 5) == end {
        let dot = text.len() - 5;
        assert forall|i: int| 0 <= i < 5 implies text[dot + i] == end[i] by {
            assert(text.skip(dot)[i] == text[dot + i]);
        }
        assert(text[dot] == '.' && text[dot + 1] == 'j' && text[dot + 2] == 's');
        assert(text[dot + 3] == 'o' && text[dot + 4] == 'n');
        assert(last_index(text, '.', text.len() as int) == Some(dot));
        assert(text.last() == 'n');
        assert(text != ".."@);
        assert(text.skip(dot + 1) =~= "json"@);
    }
}

/// The chats of a directory are found in order, each with the workspace that it belongs
/// to; an entry that failed makes the list incomplete, and other files are passed over.
pub proof fn law_chats_are_found_in_order(
    before: FoundView,
    entries: Seq<Option<ChatEntry>>,
    last: Option<ChatEntry>,
    workspace_dir: Option<PathBuf>,
)
    ensures
        with_chats(before, seq![], workspace_dir) == before,
        ({
            let found = with_chats(before, entries, workspace_dir);
            let more = with_chats(before, entries.push(last), workspace_dir);
            match last {
                None => !more.complete && more.files == found.files,
                Some(entry) => {
                    &&& more.complete == found.complete
                    &&& !is_chat(entry.name@) ==> more.files == found.files
                    &&& is_chat(entry.name@) ==> {
                        &&& more.files.len() == found.files.len() + 1
                        &&& more.files.drop_last() == found.files
                        &&& more.files.last().path == entry.path
                        &&& more.files.last().name == entry.name@
                        &&& more.files.last().workspace_dir == workspace_dir
                    }
                },
            }
        }),
{
    assert(entries.push(last).drop_last() =~= entries);
    let found = with_chats(before, entries, workspace_dir);
    if let Some(entry) = last {
        let file = VscodeFileView { path: entry.path, name: entry.name@, workspace_dir };
        assert(found.files.push(file).drop_last() =~= found.files);
    }
}

/// The chats of workspaces are found one workspace after the other, each in its own; a
/// workspace without a directory of chats is passed over, and one whose directory cannot
/// be listed makes the list incomplete.
pub proof fn law_workspaces_are_searched_in_order(
    before: FoundView,
    entries: Seq<Option<WorkspaceEntry>>,
    last: Option<WorkspaceEntry>,
)
    ensures
        with_workspaces(before, seq![]) == before,
        ({
            let found = with_workspaces(before, entries);
            let more = with_workspaces(before, entries.push(last));
            match last {
                None => !more.complete && more.files == found.files,
                Some(workspace) => match workspace.chats {
                    Listing::Missing => more == found,
                    Listing::Unreadable => !more.complete && more.files == found.files,
                    Listing::Entries(chats) => more == with_chats(
                        found,
                        chats@,
                        Some(workspace.dir),
                    ),
                },
            }
        }),
{
    assert(entries.push(last).drop_last() =~= entries);
}

/// The search fails exactly if a directory that is there cannot be listed; otherwise the
/// chats without a workspace come before those of workspaces.
pub proof fn law_search_for_chats(
    chats: Listing<ChatEntry>,
    workspaces: Listing<WorkspaceEntry>,
)
    ensures
        all_chats(chats, workspaces) is None <==> (chats is Unreadable || workspaces is Unreadable),
        all_chats(chats, workspaces) matches Some(found) ==> {
            let own = with_chats(FoundView { files: seq![], complete: true }, listed(chats), None);
            found == with_workspaces(own, listed(workspaces))
        },
{
}

} // verus!
