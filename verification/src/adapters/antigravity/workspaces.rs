//! Which workspace a conversation belongs to.

use vstd::prelude::*;

use crate::json::{
    member, member_or, string_field, text_field, text_of, tree_text, trees, Json, JsonTree,
};
use crate::string_map::{distinct_keys, law_upsert, lookup, upsert, StringMap};
use crate::text::{either_text, text_view};

verus! {

/// The id of the conversation that an entry of the cache names.
pub open spec fn cached_conversation(value: JsonTree) -> Option<Seq<char>> {
    either_text(
        tree_text(value),
        text_of(member_or(value, "conversationId"@, "conversation_id"@)),
    )
}

/// The workspaces that the cache tells of, by conversation. The last workspace of a
/// conversation counts.
pub open spec fn cached_workspaces(members: Seq<(Seq<char>, JsonTree)>) -> Seq<
    (Seq<char>, Seq<char>),
>
    decreases members.len(),
{
    if members.len() == 0 {
        seq![]
    } else {
        let before = cached_workspaces(members.drop_last());
        match cached_conversation(members.last().1) {
            Some(id) => upsert(before, id, members.last().0),
            None => before,
        }
    }
}

/// The workspaces that a document of the cache tells of.
pub open spec fn document_workspaces(document: Option<JsonTree>) -> Seq<(Seq<char>, Seq<char>)> {
    match document {
        Some(JsonTree::Members(members)) => cached_workspaces(members),
        _ => seq![],
    }
}

fn cached_id(value: &Json) -> (id: Option<String>)
    ensures
        text_view(id) == cached_conversation(value@),
{
    if let Some(id) = value.as_str() {
        return Some(id.clone());
    }
    match value.get_or("conversationId", "conversation_id") {
        Some(inner) => match inner.as_str() {
            Some(id) => Some(id.clone()),
            None => None,
        },
        None => None,
    }
}

/// The workspaces that a document of the cache tells of, by conversation.
pub fn workspaces_in_cache(document: Option<&Json>) -> (workspaces: StringMap<String>)
    ensures
        workspaces@ == document_workspaces(
            match document {
                Some(d) => Some(d@),
                None => None,
            },
        ),
{
    let mut workspaces: StringMap<String> = StringMap::new();
    if let Some(document) = document {
        proof {
            document.lemma_object_view();
        }
        if let Json::Object(members) = document {
            let ghost all = document@->Members_0;
            let mut i: usize = 0;
            while i < members.len()
                invariant
                    i <= members@.len(),
                    all == members@.map_values(|m: (String, Json)| (m.0@, m.1@)),
                    workspaces@ == cached_workspaces(all.take(i as int)),
                decreases members@.len() - i,
            {
                assert(all.take(i + 1).drop_last() =~= all.take(i as int));
                if let Some(id) = cached_id(&members[i].1) {
                    workspaces.insert(id, members[i].0.clone());
                }
                i += 1;
            }
            assert(all.take(i as int) =~= all);
        }
    }
    workspaces
}

/// The workspaces after the history: a later line takes precedence over an earlier
/// one, and both over what was known before.
pub open spec fn history_workspaces(
    before: Seq<(Seq<char>, Seq<char>)>,
    documents: Seq<JsonTree>,
) -> Seq<(Seq<char>, Seq<char>)>
    decreases documents.len(),
{
    if documents.len() == 0 {
        before
    } else {
        let map = history_workspaces(before, documents.drop_last());
        let id = text_field(documents.last(), "conversationId"@);
        let workspace = text_field(documents.last(), "workspace"@);
        if id.len() > 0 && workspace.len() > 0 {
            upsert(map, id, workspace)
        } else {
            map
        }
    }
}

/// Adds what the history tells of workspaces.
pub fn add_history(workspaces: StringMap<String>, documents: &Vec<Json>) -> (all: StringMap<
    String,
>)
    ensures
        all@ == history_workspaces(workspaces@, trees(documents@)),
{
    let ghost before = workspaces@;
    let mut all = workspaces;
    let mut i: usize = 0;
    assert(trees(documents@).take(0) =~= Seq::<JsonTree>::empty());
    while i < documents.len()
        invariant
            i <= documents@.len(),
            all@ == history_workspaces(before, trees(documents@).take(i as int)),
        decreases documents@.len() - i,
    {
        assert(trees(documents@).take(i + 1).drop_last() =~= trees(documents@).take(i as int));
        let id = string_field(&documents[i], "conversationId");
        let workspace = string_field(&documents[i], "workspace");
        if !id.as_str().is_empty() && !workspace.as_str().is_empty() {
            all.insert(id, workspace);
        }
        i += 1;
    }
    assert(trees(documents@).take(i as int) =~= trees(documents@));
    all
}

/// The last line of the history that names both a conversation and a workspace
/// decides where the conversation takes place, whatever was known before.
pub proof fn law_history_takes_precedence(
    before: Seq<(Seq<char>, Seq<char>)>,
    documents: Seq<JsonTree>,
    last: JsonTree,
)
    requires
        distinct_keys(before),
        text_field(last, "conversationId"@).len() > 0,
        text_field(last, "workspace"@).len() > 0,
    ensures
        lookup(
            history_workspaces(before, documents.push(last)),
            text_field(last, "conversationId"@),
        ) == Some(text_field(last, "workspace"@)),
{
    lemma_history_keys(before, documents);
    assert(documents.push(last).drop_last() =~= documents);
    let map = history_workspaces(before, documents);
    let id = text_field(last, "conversationId"@);
    law_upsert(map, id, text_field(last, "workspace"@), id);
}

proof fn lemma_history_keys(before: Seq<(Seq<char>, Seq<char>)>, documents: Seq<JsonTree>)
    requires
        distinct_keys(before),
    ensures
        distinct_keys(history_workspaces(before, documents)),
    decreases documents.len(),
{
    if documents.len() > 0 {
        lemma_history_keys(before, documents.drop_last());
        let map = history_workspaces(before, documents.drop_last());
        let id = text_field(documents.last(), "conversationId"@);
        law_upsert(map, id, text_field(documents.last(), "workspace"@), id);
    }
}

/// The last line of the history that names a conversation and a workspace decides where
/// it takes place; a conversation that no line names stays where it was.
pub proof fn law_last_mention_decides(
    before: Seq<(Seq<char>, Seq<char>)>,
    documents: Seq<JsonTree>,
    id: Seq<char>,
    k: int,
)
    requires
        distinct_keys(before),
        id.len() > 0,
        -1 <= k < documents.len(),
        k >= 0 ==> text_field(documents[k], "conversationId"@) == id && text_field(
            documents[k],
            "workspace"@,
        ).len() > 0,
        forall|i: int|
            k < i < documents.len() ==> text_field(#[trigger] documents[i], "conversationId"@)
                != id || text_field(documents[i], "workspace"@).len() == 0,
    ensures
        lookup(history_workspaces(before, documents), id) == if k >= 0 {
            Some(text_field(documents[k], "workspace"@))
        } else {
            lookup(before, id)
        },
    decreases documents.len(),
{
    if documents.len() > 0 {
        let rest = documents.drop_last();
        let last = documents.last();
        lemma_history_keys(before, rest);
        let map = history_workspaces(before, rest);
        law_upsert(
            map,
            text_field(last, "conversationId"@),
            text_field(last, "workspace"@),
            id,
        );
        if k < rest.len() {
            assert forall|i: int| k < i < rest.len() implies text_field(
                #[trigger] rest[i],
                "conversationId"@,
            ) != id || text_field(rest[i], "workspace"@).len() == 0 by {
                assert(rest[i] == documents[i]);
            }
            assert(documents[documents.len() - 1] == last);
            law_last_mention_decides(before, rest, id, k);
        }
    }
}

/// An entry of the cache names its conversation by a text, or by one of two members,
/// the second only where there is no first.
pub proof fn law_cached_conversation(value: JsonTree)
    ensures
        tree_text(value) is Some ==> cached_conversation(value) == tree_text(value),
        tree_text(value) is None && member(value, "conversationId"@) is Some
            ==> cached_conversation(value) == tree_text(member(value, "conversationId"@)->0),
        tree_text(value) is None && member(value, "conversationId"@) is None && member(
            value,
            "conversation_id"@,
        ) is Some ==> cached_conversation(value) == tree_text(
            member(value, "conversation_id"@)->0,
        ),
        tree_text(value) is None && member(value, "conversationId"@) is None && member(
            value,
            "conversation_id"@,
        ) is None ==> cached_conversation(value) is None,
{
}

/// The last entry of the cache that names a conversation decides where it takes place.
pub proof fn law_last_cached_entry_decides(
    members: Seq<(Seq<char>, JsonTree)>,
    id: Seq<char>,
    k: int,
)
    requires
        -1 <= k < members.len(),
        k >= 0 ==> cached_conversation(members[k].1) == Some(id),
        forall|i: int|
            k < i < members.len() ==> cached_conversation((#[trigger] members[i]).1) != Some(id),
    ensures
        lookup(document_workspaces(Some(JsonTree::Members(members))), id) == if k >= 0 {
            Some(members[k].0)
        } else {
            None
        },
        distinct_keys(document_workspaces(Some(JsonTree::Members(members)))),
    decreases members.len(),
{
    if members.len() > 0 {
        let rest = members.drop_last();
        let last = members.last();
        let j = if k < rest.len() {
            k
        } else {
            lemma_last_cached(rest, id)
        };
        assert forall|i: int| j < i < rest.len() implies cached_conversation(
            (#[trigger] rest[i]).1,
        ) != Some(id) by {
            assert(rest[i] == members[i]);
        }
        law_last_cached_entry_decides(rest, id, j);
        assert(members[members.len() - 1] == last);
        if let Some(last_id) = cached_conversation(last.1) {
            law_upsert(cached_workspaces(rest), last_id, last.0, id);
        }
    }
}

/// The last entry that names a conversation, or none.
proof fn lemma_last_cached(members: Seq<(Seq<char>, JsonTree)>, id: Seq<char>) -> (k: int)
    ensures
        -1 <= k < members.len(),
        k >= 0 ==> cached_conversation(members[k].1) == Some(id),
        forall|i: int|
            k < i < members.len() ==> cached_conversation((#[trigger] members[i]).1) != Some(id),
    decreases members.len(),
{
    if members.len() == 0 {
        -1
    } else if cached_conversation(members.last().1) == Some(id) {
        members.len() - 1
    } else {
        let k = lemma_last_cached(members.drop_last(), id);
        assert forall|i: int| k < i < members.len() implies cached_conversation(
            (#[trigger] members[i]).1,
        ) != Some(id) by {
            if i < members.len() - 1 {
                assert(members.drop_last()[i] == members[i]);
            }
        }
        k
    }
}

/// A cache that is not an object tells of no workspace.
pub proof fn law_other_documents_tell_nothing(document: Option<JsonTree>)
    ensures
        !(document matches Some(JsonTree::Members(_))) ==> document_workspaces(document).len() == 0,
{
}

} // verus!
