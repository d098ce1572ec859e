//! JSON documents as the adapters read them.

use vstd::prelude::*;

use crate::text::{bytes_view, same_text};

verus! {

/// A JSON document. A number is held by what can be read of it: its value where
/// it is an `i64`, and its value cut off to an `i64`.
pub enum Json {
    Null,
    Bool(bool),
    Number { integer: Option<i64>, truncated: Option<i64> },
    Text(String),
    Array(Vec<Json>),
    Object(Vec<(String, Json)>),
}

/// The mathematical value of a document. The members of an object stand in the
/// order in which they are walked.
#[verifier::ext_equal]
pub enum JsonTree {
    Null,
    Bool(bool),
    Number { integer: Option<i64>, truncated: Option<i64> },
    Text(Seq<char>),
    List(Seq<JsonTree>),
    Members(Seq<(Seq<char>, JsonTree)>),
}

impl View for Json {
    type V = JsonTree;

    open spec fn view(&self) -> JsonTree
        decreases self,
    {
        match self {
            Json::Null => JsonTree::Null,
            Json::Bool(value) => JsonTree::Bool(*value),
            Json::Number { integer, truncated } => JsonTree::Number {
                integer: *integer,
                truncated: *truncated,
            },
            Json::Text(text) => JsonTree::Text(text@),
            Json::Array(items) => JsonTree::List(
                Seq::new(
                    items@.len(),
                    |i: int|
                        if 0 <= i < items@.len() {
                            items@[i].view()
                        } else {
                            JsonTree::Null
                        },
                ),
            ),
            Json::Object(members) => JsonTree::Members(
                Seq::new(
                    members@.len(),
                    |i: int|
                        if 0 <= i < members@.len() {
                            (members@[i].0@, members@[i].1.view())
                        } else {
                            (seq![], JsonTree::Null)
                        },
                ),
            ),
        }
    }
}

/// The value of the first member `key` among `members[from..]`.
pub open spec fn member_from(
    members: Seq<(Seq<char>, JsonTree)>,
    key: Seq<char>,
    from: int,
) -> Option<JsonTree>
    decreases members.len() - from,
{
    if from < 0 || from >= members.len() {
        None
    } else if members[from].0 == key {
        Some(members[from].1)
    } else {
        member_from(members, key, from + 1)
    }
}

/// The member `key` of an object; nothing has members but an object.
pub open spec fn member(tree: JsonTree, key: Seq<char>) -> Option<JsonTree> {
    match tree {
        JsonTree::Members(members) => member_from(members, key, 0),
        _ => None,
    }
}

/// The member `first`, or `second` where there is no `first`.
pub open spec fn member_or(tree: JsonTree, first: Seq<char>, second: Seq<char>) -> Option<
    JsonTree,
> {
    match member(tree, first) {
        Some(value) => Some(value),
        None => member(tree, second),
    }
}

pub open spec fn tree_text(tree: JsonTree) -> Option<Seq<char>> {
    match tree {
        JsonTree::Text(text) => Some(text),
        _ => None,
    }
}

pub open spec fn tree_list(tree: JsonTree) -> Option<Seq<JsonTree>> {
    match tree {
        JsonTree::List(items) => Some(items),
        _ => None,
    }
}

pub open spec fn tree_i64(tree: JsonTree) -> Option<i64> {
    match tree {
        JsonTree::Number { integer, .. } => integer,
        _ => None,
    }
}

/// The text of an optional value, if it has one.
pub open spec fn text_of(value: Option<JsonTree>) -> Option<Seq<char>> {
    match value {
        Some(tree) => tree_text(tree),
        None => None,
    }
}

/// The items of an optional value, if it has any.
pub open spec fn list_of(value: Option<JsonTree>) -> Option<Seq<JsonTree>> {
    match value {
        Some(tree) => tree_list(tree),
        None => None,
    }
}

/// The text, or the empty text.
pub open spec fn or_empty(text: Option<Seq<char>>) -> Seq<char> {
    match text {
        Some(t) => t,
        None => seq![],
    }
}

/// The text at the end of the path `keys`, or the empty text.
pub open spec fn text_at(tree: JsonTree, keys: Seq<Seq<char>>) -> Seq<char>
    decreases keys.len(),
{
    if keys.len() == 0 {
        or_empty(tree_text(tree))
    } else {
        match member(tree, keys[0]) {
            Some(value) => text_at(value, keys.drop_first()),
            None => seq![],
        }
    }
}

/// The text of the member `key`, or the empty text.
pub open spec fn text_field(tree: JsonTree, key: Seq<char>) -> Seq<char> {
    or_empty(text_of(member(tree, key)))
}

/// The items of a list of documents.
pub open spec fn trees(items: Seq<Json>) -> Seq<JsonTree> {
    items.map_values(|item: Json| item@)
}

impl Json {
    /// The list that an array stands for.
    pub proof fn lemma_array_view(self)
        ensures
            self matches Json::Array(items) ==> self@ == JsonTree::List(trees(items@)),
    {
        reveal_with_fuel(<Json as View>::view, 2);
        if let Json::Array(items) = self {
            assert(self@->List_0 =~= trees(items@));
        }
    }

    /// The members that an object stands for.
    pub proof fn lemma_object_view(self)
        ensures
            self matches Json::Object(members) ==> self@ == JsonTree::Members(
                members@.map_values(|m: (String, Json)| (m.0@, m.1@)),
            ),
    {
        reveal_with_fuel(<Json as View>::view, 2);
        if let Json::Object(members) = self {
            assert(self@->Members_0 =~= members@.map_values(|m: (String, Json)| (m.0@, m.1@)));
        }
    }

    /// The value of the member `key`.
    pub fn get<'a>(&'a self, key: &str) -> (value: Option<&'a Json>)
        ensures
            match value {
                Some(v) => member(self@, key@) == Some(v@),
                None => member(self@, key@) is None,
            },
    {
        proof {
            self.lemma_object_view();
        }
        match self {
            Json::Object(members) => {
                let mut i: usize = 0;
                let ghost all = self@->Members_0;
                while i < members.len()
                    invariant
                        i <= members@.len(),
                        self@ == JsonTree::Members(all),
                        *self == Json::Object(*members),
                        all.len() == members@.len(),
                        forall|j: int|
                            0 <= j < all.len() ==> #[trigger] all[j] == (
                                members@[j].0@,
                                members@[j].1@,
                            ),
                        member_from(all, key@, 0) == member_from(all, key@, i as int),
                    decreases members@.len() - i,
                {
                    if same_text(members[i].0.as_str(), key) {
                        return Some(&members[i].1);
                    }
                    i += 1;
                }
                None
            },
            _ => None,
        }
    }

    /// The value of the member `first`, or of `second` where there is no `first`.
    pub fn get_or<'a>(&'a self, first: &str, second: &str) -> (value: Option<&'a Json>)
        ensures
            match value {
                Some(v) => member_or(self@, first@, second@) == Some(v@),
                None => member_or(self@, first@, second@) is None,
            },
    {
        match self.get(first) {
            Some(value) => Some(value),
            None => self.get(second),
        }
    }

    /// The text of a string.
    pub fn as_str<'a>(&'a self) -> (text: Option<&'a String>)
        ensures
            match text {
                Some(t) => tree_text(self@) == Some(t@),
                None => tree_text(self@) is None,
            },
    {
        match self {
            Json::Text(text) => Some(text),
            _ => None,
        }
    }

    /// The items of an array.
    pub fn as_array<'a>(&'a self) -> (items: Option<&'a Vec<Json>>)
        ensures
            match items {
                Some(v) => tree_list(self@) == Some(trees(v@)) && *self == Json::Array(*v),
                None => tree_list(self@) is None,
            },
    {
        proof {
            self.lemma_array_view();
        }
        match self {
            Json::Array(items) => Some(items),
            _ => None,
        }
    }

    /// The value of a number that is an `i64`.
    pub fn as_i64(&self) -> (number: Option<i64>)
        ensures
            number == tree_i64(self@),
    {
        match self {
            Json::Number { integer, .. } => *integer,
            _ => None,
        }
    }
}

/// The text at the end of the path `keys`, or the empty text.
pub fn string_at(value: &Json, keys: &[&str]) -> (text: String)
    ensures
        text@ == text_at(value@, keys@.map_values(|key: &str| key@)),
{
    let ghost path = keys@.map_values(|key: &str| key@);
    let mut current: &Json = value;
    let mut i: usize = 0;
    assert(path.skip(0) =~= path);
    while i < keys.len()
        invariant
            i <= keys@.len(),
            path == keys@.map_values(|key: &str| key@),
            text_at(value@, path) == text_at(current@, path.skip(i as int)),
        decreases keys@.len() - i,
    {
        assert(path.skip(i as int).drop_first() =~= path.skip(i + 1));
        match current.get(keys[i]) {
            Some(inner) => {
                current = inner;
            },
            None => return String::new(),
        }
        i += 1;
    }
    match current.as_str() {
        Some(text) => text.clone(),
        None => String::new(),
    }
}

/// The text of the member `key`, or the empty text.
pub fn string_field(value: &Json, key: &str) -> (text: String)
    ensures
        text@ == text_field(value@, key@),
{
    match value.get(key) {
        Some(inner) => match inner.as_str() {
            Some(text) => text.clone(),
            None => String::new(),
        },
        None => String::new(),
    }
}

/// A parsed value of the JSON parser.
#[verifier::external_type_specification]
#[verifier::external_body]
pub struct ExValue(serde_json::Value);

/// The document that a parsed value holds.
pub uninterp spec fn value_tree(value: serde_json::Value) -> JsonTree;

/// The document that a text spells, if it is JSON.
pub uninterp spec fn parsed_json(text: Seq<u8>) -> Option<JsonTree>;

/// The outermost layer of a parsed value.
pub enum ValueLayer {
    Null,
    Bool(bool),
    Number { integer: Option<i64>, truncated: Option<i64> },
    Text(String),
    List(Vec<serde_json::Value>),
    Members(Vec<(String, serde_json::Value)>),
}

/// The document that a layer holds, given what its parts hold.
pub open spec fn layer_tree(layer: ValueLayer) -> JsonTree {
    match layer {
        ValueLayer::Null => JsonTree::Null,
        ValueLayer::Bool(value) => JsonTree::Bool(value),
        ValueLayer::Number { integer, truncated } => JsonTree::Number { integer, truncated },
        ValueLayer::Text(text) => JsonTree::Text(text@),
        ValueLayer::List(items) => JsonTree::List(
            items@.map_values(|item: serde_json::Value| value_tree(item)),
        ),
        ValueLayer::Members(members) => JsonTree::Members(
            members@.map_values(|m: (String, serde_json::Value)| (m.0@, value_tree(m.1))),
        ),
    }
}

/// Calls `serde_json::from_slice`: whether the bytes are JSON, and what document
/// they spell, depends on the bytes alone.
#[verifier::external_body]
fn parse_value(text: &[u8]) -> (value: Option<serde_json::Value>)
    ensures
        match value {
            Some(v) => parsed_json(text@) == Some(value_tree(v)),
            None => parsed_json(text@) is None,
        },
{
    serde_json::from_slice(text).ok()
}

/// Takes a `serde_json::Value` apart, one layer deep: each variant with what it
/// holds, a number by `as_i64` and by `as_f64` cut off to an `i64`.
#[verifier::external_body]
fn value_layer(value: serde_json::Value) -> (layer: ValueLayer)
    ensures
        layer_tree(layer) == value_tree(value),
{
    match value {
        serde_json::Value::Null => ValueLayer::Null,
        serde_json::Value::Bool(value) => ValueLayer::Bool(value),
        serde_json::Value::Number(number) => ValueLayer::Number {
            integer: number.as_i64(),
            truncated: number.as_f64().map(|value| value as i64),
        },
        serde_json::Value::String(text) => ValueLayer::Text(text),
        serde_json::Value::Array(items) => ValueLayer::List(items),
        serde_json::Value::Object(members) => ValueLayer::Members(members.into_iter().collect()),
    }
}

/// The document that a parsed value holds.
fn json_of(value: serde_json::Value) -> (json: Json)
    ensures
        json@ == value_tree(value),
    decreases value_tree(value),
{
    let ghost tree = value_tree(value);
    match value_layer(value) {
        ValueLayer::Null => Json::Null,
        ValueLayer::Bool(value) => Json::Bool(value),
        ValueLayer::Number { integer, truncated } => Json::Number { integer, truncated },
        ValueLayer::Text(text) => Json::Text(text),
        ValueLayer::List(items) => {
            let mut items = items;
            let ghost all = items@;
            let mut reversed: Vec<Json> = Vec::new();
            while items.len() > 0
                invariant
                    tree == value_tree(value),
                    reversed@.len() + items@.len() == all.len(),
                    items@ == all.take(items@.len() as int),
                    tree == JsonTree::List(
                        all.map_values(|item: serde_json::Value| value_tree(item)),
                    ),
                    forall|i: int|
                        0 <= i < reversed@.len() ==> (#[trigger] reversed@[i])@ == value_tree(
                            all[all.len() - 1 - i],
                        ),
                decreases items@.len(),
            {
                let ghost last = items@.len() - 1;
                if let Some(item) = items.pop() {
                    assert(tree->List_0[last] == value_tree(item));
                    assert(decreases_to!(tree => tree->List_0[last]));
                    reversed.push(json_of(item));
                }
            }
            let result = Json::Array(reverse(reversed));
            proof {
                result.lemma_array_view();
                assert(result@->List_0 =~= tree->List_0);
            }
            result
        },
        ValueLayer::Members(members) => {
            let mut members = members;
            let ghost all = members@;
            let mut reversed: Vec<(String, Json)> = Vec::new();
            while members.len() > 0
                invariant
                    tree == value_tree(value),
                    reversed@.len() + members@.len() == all.len(),
                    members@ == all.take(members@.len() as int),
                    tree == JsonTree::Members(
                        all.map_values(
                            |m: (String, serde_json::Value)| (m.0@, value_tree(m.1)),
                        ),
                    ),
                    forall|i: int|
                        0 <= i < reversed@.len() ==> (#[trigger] reversed@[i]).0@ == all[all.len()
                            - 1 - i].0@ && reversed@[i].1@ == value_tree(all[all.len() - 1 - i].1),
                decreases members@.len(),
            {
                let ghost last = members@.len() - 1;
                if let Some((key, item)) = members.pop() {
                    assert(tree->Members_0[last].1 == value_tree(item));
                    assert(decreases_to!(tree => tree->Members_0[last].1));
                    reversed.push((key, json_of(item)));
                }
            }
            let result = Json::Object(reverse(reversed));
            proof {
                result.lemma_object_view();
                assert(result@->Members_0 =~= tree->Members_0);
            }
            result
        },
    }
}

fn reverse<T>(items: Vec<T>) -> (reversed: Vec<T>)
    ensures
        reversed@ == items@.reverse(),
{
    let mut items = items;
    let ghost all = items@;
    let mut reversed: Vec<T> = Vec::new();
    while items.len() > 0
        invariant
            items@ == all.take(items@.len() as int),
            reversed@.len() + items@.len() == all.len(),
            forall|i: int| 0 <= i < reversed@.len() ==> reversed@[i] == all[all.len() - 1 - i],
        decreases items@.len(),
    {
        if let Some(item) = items.pop() {
            reversed.push(item);
        }
    }
    assert(reversed@ =~= all.reverse());
    reversed
}

/// The document that optional bytes spell.
pub open spec fn optional_document(bytes: Option<Seq<u8>>) -> Option<JsonTree> {
    match bytes {
        Some(b) => parsed_json(b),
        None => None,
    }
}

/// The document that optional bytes spell.
pub fn parse_optional_json(text: &Option<Vec<u8>>) -> (json: Option<Json>)
    ensures
        match json {
            Some(j) => optional_document(bytes_view(*text)) == Some(j@),
            None => optional_document(bytes_view(*text)) is None,
        },
{
    match text {
        Some(bytes) => parse_json(bytes.as_slice()),
        None => None,
    }
}

/// The document that the bytes spell, if they are JSON.
pub fn parse_json(text: &[u8]) -> (json: Option<Json>)
    ensures
        match json {
            Some(j) => parsed_json(text@) == Some(j@),
            None => parsed_json(text@) is None,
        },
{
    match parse_value(text) {
        Some(value) => Some(json_of(value)),
        None => None,
    }
}

/// A key leads to the first member that it names, and a document without such a member
/// has none there.
pub proof fn law_first_member_is_found(members: Seq<(Seq<char>, JsonTree)>, key: Seq<char>, k: int)
    requires
        0 <= k <= members.len(),
        k < members.len() ==> members[k].0 == key,
        forall|i: int| 0 <= i < k ==> (#[trigger] members[i]).0 != key,
    ensures
        member(JsonTree::Members(members), key) == if k < members.len() {
            Some(members[k].1)
        } else {
            None
        },
{
    lemma_member_from(members, key, 0, k);
}

proof fn lemma_member_from(
    members: Seq<(Seq<char>, JsonTree)>,
    key: Seq<char>,
    from: int,
    k: int,
)
    requires
        0 <= from <= k <= members.len(),
        k < members.len() ==> members[k].0 == key,
        forall|i: int| from <= i < k ==> (#[trigger] members[i]).0 != key,
    ensures
        member_from(members, key, from) == if k < members.len() {
            Some(members[k].1)
        } else {
            None
        },
    decreases k - from,
{
    if from < k {
        assert(members[from].0 != key);
        lemma_member_from(members, key, from + 1, k);
    }
}

/// Only an object has members, only a string has text, only an array has items and only a
/// number is one.
pub proof fn law_kinds_of_documents(tree: JsonTree, key: Seq<char>)
    ensures
        member(tree, key) is Some ==> tree is Members,
        tree_text(tree) matches Some(text) ==> tree == JsonTree::Text(text),
        tree_list(tree) matches Some(items) ==> tree == JsonTree::List(items),
        tree_i64(tree) matches Some(number) ==> tree is Number,
        tree is Text ==> tree_text(tree) is Some,
        tree is List ==> tree_list(tree) is Some,
        tree is Number ==> tree_i64(tree) == tree->integer,
{
}

/// The second of two members counts only where there is no first, whatever the first
/// holds.
pub proof fn law_first_of_two_members(tree: JsonTree, first: Seq<char>, second: Seq<char>)
    ensures
        member(tree, first) is Some ==> member_or(tree, first, second) == member(tree, first),
        member(tree, first) is None ==> member_or(tree, first, second) == member(tree, second),
{
}

/// A text is read where a string stands, and is empty wherever else.
pub proof fn law_text_field(tree: JsonTree, key: Seq<char>)
    ensures
        member(tree, key) matches Some(JsonTree::Text(text)) ==> text_field(tree, key) == text,
        !(member(tree, key) matches Some(JsonTree::Text(_))) ==> text_field(tree, key).len() == 0,
{
}

/// A path leads from member to member, to the text at its end.
pub proof fn law_text_at_the_end_of_a_path(tree: JsonTree, key: Seq<char>, keys: Seq<Seq<char>>)
    ensures
        text_at(tree, seq![key]) == text_field(tree, key),
        member(tree, key) matches Some(value) ==> text_at(tree, seq![key] + keys) == text_at(
            value,
            keys,
        ),
        member(tree, key) is None ==> text_at(tree, seq![key] + keys).len() == 0,
{
    reveal_with_fuel(text_at, 2);
    assert((seq![key] + keys).drop_first() =~= keys);
    assert(seq![key].drop_first() =~= Seq::<Seq<char>>::empty());
}

} // verus!
