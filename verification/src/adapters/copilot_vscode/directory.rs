//! Which directory a chat belongs to.

use vstd::prelude::*;

use crate::json::{
    list_of, member, optional_document, or_empty, parse_json, parsed_json, string_at, string_field,
    text_at, text_field, trees, Json, JsonTree,
};
use crate::paths::{lemma_plain_parent, parent_directory, parent_outcome, plain_parent};
use crate::text::{bytes_view, same_text, text_view, texts};
use crate::urls::{file_url_outcome, file_url_path, lemma_some_path, text_scheme, url_scheme};

verus! {

/// The folder that the description of a workspace names, if it is a document at all.
pub open spec fn described_folder(description: Option<Seq<u8>>) -> Option<Seq<char>> {
    match optional_document(description) {
        Some(data) => Some(text_field(data, "folder"@)),
        None => None,
    }
}

/// The directory of a folder, given its scheme and the path that it names as a URL:
/// only a file URL names a directory.
pub open spec fn folder_directory(scheme: Option<Seq<char>>, path: Option<Seq<char>>) -> Seq<char> {
    if scheme == Some("file"@) {
        or_empty(path)
    } else {
        seq![]
    }
}

/// The directory of a folder, given its scheme and the path that it names as a URL.
pub fn directory_of_folder(scheme: Option<String>, path: Option<String>) -> (directory: String)
    ensures
        directory@ == folder_directory(text_view(scheme), text_view(path)),
{
    match (scheme, path) {
        (Some(scheme), Some(path)) => if same_text(scheme.as_str(), "file") {
            path
        } else {
            String::new()
        },
        _ => String::new(),
    }
}

/// The directories that the description of a workspace can stand for: that of its
/// folder, for some path that the folder can name on the system.
pub open spec fn workspace_outcome(description: Option<Seq<u8>>, directory: Seq<char>) -> bool {
    match described_folder(description) {
        Some(folder) => exists|path: Option<Seq<char>>| #[trigger]
            file_url_outcome(folder, path) && directory == folder_directory(
                text_scheme(folder),
                path,
            ),
        None => directory == Seq::<char>::empty(),
    }
}

/// The directory of a workspace, from the bytes of its description: the path that its
/// folder names, where that is a file URL.
pub fn workspace_directory(description: &[u8]) -> (directory: String)
    ensures
        workspace_outcome(Some(description@), directory@),
{
    let data = match parse_json(description) {
        Some(data) => data,
        None => return String::new(),
    };
    let folder = string_field(&data, "folder");
    let scheme = url_scheme(folder.as_str());
    let is_file = match &scheme {
        Some(scheme) => same_text(scheme.as_str(), "file"),
        None => false,
    };
    if !is_file {
        proof {
            lemma_some_path(folder@);
        }
        return String::new();
    }
    let path = file_url_path(folder.as_str());
    assert(file_url_outcome(folder@, text_view(path)));
    directory_of_folder(scheme, path)
}

/// The first path that a list of references names.
pub open spec fn first_reference(references: Seq<JsonTree>) -> Option<Seq<char>>
    decreases references.len(),
{
    if references.len() == 0 {
        None
    } else {
        let path = text_at(references[0], seq!["reference"@, "uri"@, "fsPath"@]);
        if path.len() > 0 {
            Some(path)
        } else {
            first_reference(references.drop_first())
        }
    }
}

/// The first path that a request refers to.
pub open spec fn request_reference(request: JsonTree) -> Option<Seq<char>> {
    match list_of(member(request, "contentReferences"@)) {
        Some(references) => first_reference(references),
        None => None,
    }
}

/// The first path of each request that refers to any.
pub open spec fn referenced_paths(requests: Seq<JsonTree>) -> Seq<Seq<char>>
    decreases requests.len(),
{
    if requests.len() == 0 {
        seq![]
    } else {
        let before = referenced_paths(requests.drop_last());
        match request_reference(requests.last()) {
            Some(path) => before.push(path),
            None => before,
        }
    }
}

fn find_reference(references: &Vec<Json>) -> (path: Option<String>)
    ensures
        text_view(path) == first_reference(trees(references@)),
{
    let ghost all = trees(references@);
    let keys = ["reference", "uri", "fsPath"];
    assert(keys@.map_values(|key: &str| key@) =~= seq!["reference"@, "uri"@, "fsPath"@]);
    let mut i: usize = 0;
    assert(all.skip(0) =~= all);
    while i < references.len()
        invariant
            i <= references@.len(),
            all == trees(references@),
            keys@.map_values(|key: &str| key@) == seq!["reference"@, "uri"@, "fsPath"@],
            first_reference(all) == first_reference(all.skip(i as int)),
        decreases references@.len() - i,
    {
        assert(all.skip(i as int).drop_first() =~= all.skip(i + 1));
        let path = string_at(&references[i], &keys);
        if !path.as_str().is_empty() {
            return Some(path);
        }
        i += 1;
    }
    None
}

/// The first path that a request refers to.
pub fn find_request_reference(request: &Json) -> (path: Option<String>)
    ensures
        text_view(path) == request_reference(request@),
{
    match request.get("contentReferences") {
        Some(value) => match value.as_array() {
            Some(references) => find_reference(references),
            None => None,
        },
        None => None,
    }
}

/// The first path of each request that refers to any.
pub fn collect_references(requests: &Vec<Json>) -> (paths: Vec<String>)
    ensures
        texts(paths@) == referenced_paths(trees(requests@)),
{
    let mut paths: Vec<String> = Vec::new();
    let mut i: usize = 0;
    assert(texts(paths@) =~= Seq::<Seq<char>>::empty());
    while i < requests.len()
        invariant
            i <= requests@.len(),
            texts(paths@) == referenced_paths(trees(requests@).take(i as int)),
        decreases requests@.len() - i,
    {
        let ghost before = paths@;
        assert(trees(requests@).take(i + 1).drop_last() =~= trees(requests@).take(i as int));
        if let Some(path) = find_request_reference(&requests[i]) {
            paths.push(path);
            assert(texts(paths@) =~= texts(before).push(path@));
        }
        i += 1;
    }
    assert(trees(requests@).take(i as int) =~= trees(requests@));
    paths
}

/// The first of these texts that is not empty.
pub open spec fn first_nonempty(candidates: Seq<Seq<char>>) -> Seq<char>
    decreases candidates.len(),
{
    if candidates.len() == 0 {
        seq![]
    } else if candidates[0].len() > 0 {
        candidates[0]
    } else {
        first_nonempty(candidates.drop_first())
    }
}

/// The directory of a chat: the folder of its workspace, or else the first directory
/// above a path that it refers to. What is empty does not count.
pub open spec fn chosen_directory(folder: Seq<char>, parents: Seq<Seq<char>>) -> Seq<char> {
    if folder.len() > 0 {
        folder
    } else {
        first_nonempty(parents)
    }
}

/// The directory of a chat, given the folder of its workspace and the directories above
/// the paths that it refers to.
pub fn choose_directory(folder: String, parents: &Vec<String>) -> (directory: String)
    ensures
        directory@ == chosen_directory(folder@, texts(parents@)),
{
    if !folder.as_str().is_empty() {
        return folder;
    }
    let ghost all = texts(parents@);
    let mut i: usize = 0;
    assert(all.skip(0) =~= all);
    while i < parents.len()
        invariant
            i <= parents@.len(),
            folder@.len() == 0,
            all == texts(parents@),
            first_nonempty(all) == first_nonempty(all.skip(i as int)),
        decreases parents@.len() - i,
    {
        assert(all.skip(i as int).drop_first() =~= all.skip(i + 1));
        if !parents[i].as_str().is_empty() {
            return parents[i].clone();
        }
        i += 1;
    }
    String::new()
}

/// Whether a text can be the directory above a path; it is empty where there is none.
pub open spec fn above_outcome(path: Seq<char>, directory: Seq<char>) -> bool {
    exists|parent: Option<Seq<char>>| #[trigger]
        parent_outcome(path, parent) && directory == or_empty(parent)
}

/// Texts that can be the directories above these paths.
pub open spec fn parents_outcome(paths: Seq<Seq<char>>, parents: Seq<Seq<char>>) -> bool {
    &&& parents.len() == paths.len()
    &&& forall|i: int| 0 <= i < paths.len() ==> above_outcome(#[trigger] paths[i], parents[i])
}

fn collect_parents(paths: &Vec<String>) -> (parents: Vec<String>)
    ensures
        parents_outcome(texts(paths@), texts(parents@)),
{
    let mut parents: Vec<String> = Vec::new();
    let mut i: usize = 0;
    while i < paths.len()
        invariant
            i <= paths@.len(),
            parents@.len() == i,
            forall|j: int|
                0 <= j < i ==> above_outcome((#[trigger] paths@[j])@, parents@[j]@),
        decreases paths@.len() - i,
    {
        let found = parent_directory(paths[i].as_str());
        assert(parent_outcome(paths@[i as int]@, text_view(found)));
        let parent = match found {
            Some(parent) => parent,
            None => String::new(),
        };
        parents.push(parent);
        i += 1;
    }
    assert forall|j: int| 0 <= j < texts(paths@).len() implies above_outcome(
        #[trigger] texts(paths@)[j],
        texts(parents@)[j],
    ) by {
        assert(above_outcome(paths@[j]@, parents@[j]@));
    }
    parents
}

/// Directories that a chat can belong to, as far as they do not depend on the system.
pub open spec fn chat_directory_outcome(
    description: Option<Seq<u8>>,
    requests: Seq<JsonTree>,
    directory: Seq<char>,
) -> bool {
    exists|folder: Seq<char>, parents: Seq<Seq<char>>| #[trigger]
        workspace_outcome(description, folder) && #[trigger] parents_outcome(
            referenced_paths(requests),
            parents,
        ) && directory == chosen_directory(folder, parents)
}

/// The directory that a chat belongs to: the folder of its workspace, or else the
/// first directory above a path that a request refers to.
pub fn chat_directory(description: &Option<Vec<u8>>, requests: &Vec<Json>) -> (directory: String)
    ensures
        chat_directory_outcome(bytes_view(*description), trees(requests@), directory@),
{
    let folder = match description {
        Some(bytes) => workspace_directory(bytes.as_slice()),
        None => String::new(),
    };
    assert(workspace_outcome(bytes_view(*description), folder@));
    let paths = collect_references(requests);
    let parents = collect_parents(&paths);
    choose_directory(folder, &parents)
}

/// A chat without a workspace belongs to the directory above the first path that it
/// refers to, where that path is plain and stands in a directory.
pub proof fn law_chat_belongs_above_its_reference(requests: Seq<JsonTree>, directory: Seq<char>)
    requires
        chat_directory_outcome(None, requests, directory),
        referenced_paths(requests).len() > 0,
        plain_parent(referenced_paths(requests)[0]) matches Some(parent) && parent.len() > 0,
    ensures
        directory == plain_parent(referenced_paths(requests)[0])->0,
{
    let paths = referenced_paths(requests);
    let (folder, parents) = choose|folder: Seq<char>, parents: Seq<Seq<char>>| #[trigger]
        workspace_outcome(None, folder) && #[trigger] parents_outcome(paths, parents)
            && directory == chosen_directory(folder, parents);
    assert(above_outcome(paths[0], parents[0]));
}

/// There is always a directory that a chat can belong to.
pub proof fn lemma_some_chat_directory(description: Option<Seq<u8>>, requests: Seq<JsonTree>)
    ensures
        exists|directory: Seq<char>| chat_directory_outcome(description, requests, directory),
{
    let paths = referenced_paths(requests);
    let parents = paths.map_values(|path: Seq<char>| or_empty(plain_parent(path)));
    let folder = match described_folder(description) {
        Some(folder) => {
            lemma_some_path(folder);
            let path = choose|path: Option<Seq<char>>| file_url_outcome(folder, path);
            folder_directory(text_scheme(folder), path)
        },
        None => seq![],
    };
    assert(workspace_outcome(description, folder));
    assert forall|i: int| 0 <= i < paths.len() implies above_outcome(
        #[trigger] paths[i],
        parents[i],
    ) by {
        lemma_plain_parent(paths[i]);
        assert(parent_outcome(paths[i], plain_parent(paths[i])));
    }
    assert(parents_outcome(paths, parents));
    assert(chat_directory_outcome(description, requests, chosen_directory(folder, parents)));
}

/// Of several texts the first that is not empty counts, and an empty one where there is
/// none.
pub proof fn law_first_nonempty(candidates: Seq<Seq<char>>, k: int)
    requires
        0 <= k <= candidates.len(),
        k < candidates.len() ==> candidates[k].len() > 0,
        forall|i: int| 0 <= i < k ==> (#[trigger] candidates[i]).len() == 0,
    ensures
        k < candidates.len() ==> first_nonempty(candidates) == candidates[k],
        k == candidates.len() ==> first_nonempty(candidates).len() == 0,
    decreases candidates.len(),
{
    if candidates.len() > 0 && k > 0 {
        let rest = candidates.drop_first();
        assert(candidates[0].len() == 0);
        assert forall|i: int| 0 <= i < k - 1 implies (#[trigger] rest[i]).len() == 0 by {
            assert(rest[i] == candidates[i + 1]);
        }
        law_first_nonempty(rest, k - 1);
    }
}

/// The folder of its workspace counts before the directories of the paths that a chat
/// refers to.
pub proof fn law_folder_counts_first(folder: Seq<char>, parents: Seq<Seq<char>>)
    ensures
        folder.len() > 0 ==> chosen_directory(folder, parents) == folder,
        folder.len() == 0 ==> chosen_directory(folder, parents) == first_nonempty(parents),
{
}

/// Of the references of a request the first that names a path counts.
pub proof fn law_first_reference(references: Seq<JsonTree>, k: int)
    requires
        0 <= k <= references.len(),
        k < references.len() ==> text_at(
            references[k],
            seq!["reference"@, "uri"@, "fsPath"@],
        ).len() > 0,
        forall|i: int|
            0 <= i < k ==> text_at(
                #[trigger] references[i],
                seq!["reference"@, "uri"@, "fsPath"@],
            ).len() == 0,
    ensures
        first_reference(references) == if k < references.len() {
            Some(text_at(references[k], seq!["reference"@, "uri"@, "fsPath"@]))
        } else {
            None
        },
    decreases references.len(),
{
    if references.len() > 0 && k > 0 {
        let rest = references.drop_first();
        assert(text_at(references[0], seq!["reference"@, "uri"@, "fsPath"@]).len() == 0);
        assert forall|i: int| 0 <= i < k - 1 implies text_at(
            #[trigger] rest[i],
            seq!["reference"@, "uri"@, "fsPath"@],
        ).len() == 0 by {
            assert(rest[i] == references[i + 1]);
        }
        law_first_reference(rest, k - 1);
    }
}

/// Each request gives at most one path that it refers to, in order.
pub proof fn law_requests_refer_in_order(left: Seq<JsonTree>, right: Seq<JsonTree>)
    ensures
        referenced_paths(left + right) == referenced_paths(left) + referenced_paths(right),
        left.len() == 1 ==> match list_of(member(left[0], "contentReferences"@)) {
            Some(references) => match first_reference(references) {
                Some(path) => referenced_paths(left) == seq![path],
                None => referenced_paths(left).len() == 0,
            },
            None => referenced_paths(left).len() == 0,
        },
    decreases right.len(),
{
    reveal_with_fuel(referenced_paths, 2);
    let all = left + right;
    if right.len() == 0 {
        assert(all =~= left);
    } else {
        law_requests_refer_in_order(left, right.drop_last());
        assert(all.drop_last() =~= left + right.drop_last());
        assert(all.last() == right.last());
    }
    assert(referenced_paths(all) =~= referenced_paths(left) + referenced_paths(right));
    if left.len() == 1 {
        if let Some(path) = request_reference(left[0]) {
            assert(referenced_paths(left) =~= seq![path]);
        }
    }
}

/// Only a folder that is a file URL stands for a directory: the path that it names.
pub proof fn law_folder_directory(scheme: Option<Seq<char>>, path: Option<Seq<char>>)
    ensures
        folder_directory(scheme, path).len() > 0 ==> scheme == Some("file"@) && path == Some(
            folder_directory(scheme, path),
        ),
        scheme == Some("file"@) && path is Some ==> folder_directory(scheme, path) == path->0,
{
}

/// The folder of a workspace is the one that its description names, if that is a
/// document.
pub proof fn law_described_folder(description: Option<Seq<u8>>)
    ensures
        description matches Some(bytes) ==> (parsed_json(bytes) matches Some(data)
            ==> described_folder(description) == Some(text_field(data, "folder"@))) && (parsed_json(
            bytes,
        ) is None ==> described_folder(description) is None),
        description is None ==> described_folder(description) is None,
{
}

/// A chat of a workspace whose folder stands for a directory belongs there, whatever it
/// refers to.
pub proof fn law_chat_belongs_to_its_workspace(
    description: Option<Seq<u8>>,
    requests: Seq<JsonTree>,
    directory: Seq<char>,
)
    requires
        chat_directory_outcome(description, requests, directory),
        forall|folder: Seq<char>| #[trigger]
            workspace_outcome(description, folder) ==> folder.len() > 0,
    ensures
        workspace_outcome(description, directory),
{
}

} // verus!
