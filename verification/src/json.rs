//! JSON documents as plain trees, and the trusted entry point that reads them.

use vstd::prelude::*;
use crate::text::same_text;

verus! {

/// A JSON document held as a tree of plain values.
#[derive(Debug)]
pub enum Json {
    Null,
    Bool(bool),
    /// A number, as decimal text.
    Number(String),
    Text(String),
    Array(Vec<Json>),
    /// The members of an object, in the order in which they are kept.
    Object(Vec<Member>),
}

/// One member of a JSON object.
#[derive(Debug)]
pub struct Member {
    pub name: String,
    pub value: Json,
}

/// The mathematical model of a [`Json`] value.
pub ghost enum JsonView {
    Null,
    Bool(bool),
    Number(Seq<char>),
    Text(Seq<char>),
    Array(Seq<JsonView>),
    Object(Seq<MemberView>),
}

/// The mathematical model of a [`Member`].
pub ghost struct MemberView {
    pub name: Seq<char>,
    pub value: JsonView,
}

impl View for Json {
    type V = JsonView;

    open spec fn view(&self) -> JsonView
        decreases self,
    {
        match self {
            Json::Null => JsonView::Null,
            Json::Bool(b) => JsonView::Bool(*b),
            Json::Number(n) => JsonView::Number(n@),
            Json::Text(s) => JsonView::Text(s@),
            Json::Array(items) => JsonView::Array(
                Seq::new(
                    items@.len(),
                    |i: int|
                        if 0 <= i < items@.len() {
                            items@[i].view()
                        } else {
                            JsonView::Null
                        },
                ),
            ),
            Json::Object(members) => JsonView::Object(
                Seq::new(
                    members@.len(),
                    |i: int|
                        if 0 <= i < members@.len() {
                            MemberView { name: members@[i].name@, value: members@[i].value.view() }
                        } else {
                            MemberView { name: Seq::empty(), value: JsonView::Null }
                        },
                ),
            ),
        }
    }
}

/// The models of the elements of an array.
pub open spec fn item_views(items: Seq<Json>) -> Seq<JsonView> {
    Seq::new(items.len(), |i: int| items[i]@)
}

/// The models of the members of an object.
pub open spec fn member_views(members: Seq<Member>) -> Seq<MemberView> {
    Seq::new(members.len(), |i: int| MemberView { name: members[i].name@, value: members[i].value@ })
}

/// The value of the first member called `name`, if there is one.
pub open spec fn lookup(members: Seq<MemberView>, name: Seq<char>) -> Option<JsonView>
    decreases members.len(),
{
    if members.len() == 0 {
        None
    } else if members[0].name == name {
        Some(members[0].value)
    } else {
        lookup(members.drop_first(), name)
    }
}

/// The member `name` of an object; `None` for a missing member and for
/// anything that is not an object.
pub open spec fn member(doc: JsonView, name: Seq<char>) -> Option<JsonView> {
    match doc {
        JsonView::Object(members) => lookup(members, name),
        _ => None,
    }
}

/// The model of an array is the array of its elements' models.
pub proof fn lemma_view_of_array(items: Vec<Json>)
    ensures
        Json::Array(items)@ == JsonView::Array(item_views(items@)),
{
    assert(Json::Array(items)@->Array_0 =~= item_views(items@));
}

/// The model of an object is the list of its members' models.
pub proof fn lemma_view_of_object(members: Vec<Member>)
    ensures
        Json::Object(members)@ == JsonView::Object(member_views(members@)),
{
    assert(Json::Object(members)@->Object_0 =~= member_views(members@));
}

impl Json {
    /// Whether this is an object.
    pub fn is_object(&self) -> (object: bool)
        ensures
            object == (self@ is Object),
    {
        match self {
            Json::Object(_) => true,
            _ => false,
        }
    }

    /// The member `name` of an object.
    pub fn get(&self, name: &str) -> (found: Option<&Json>)
        ensures
            found matches Some(value) ==> member(self@, name@) == Some(value@),
            found is None ==> member(self@, name@) is None,
    {
        match self {
            Json::Object(members) => {
                let ghost all = member_views(members@);
                proof {
                    lemma_view_of_object(*members);
                    assert(all.skip(0) =~= all);
                }
                let mut i: usize = 0;
                while i < members.len()
                    invariant
                        i <= members.len(),
                        self@ == JsonView::Object(all),
                        all == member_views(members@),
                        lookup(all, name@) == lookup(all.skip(i as int), name@),
                    decreases members.len() - i,
                {
                    proof {
                        assert(all.skip(i as int).drop_first() =~= all.skip(i as int + 1));
                    }
                    if same_text(members[i].name.as_str(), name) {
                        return Some(&members[i].value);
                    }
                    i += 1;
                }
                None
            },
            _ => None,
        }
    }

    /// The characters of a string value.
    pub fn as_text(&self) -> (text: Option<&String>)
        ensures
            text matches Some(s) ==> self@ == JsonView::Text(s@),
            text is None ==> !(self@ is Text),
    {
        match self {
            Json::Text(s) => Some(s),
            _ => None,
        }
    }

    /// The elements of an array value.
    pub fn as_array(&self) -> (items: Option<&Vec<Json>>)
        ensures
            items matches Some(v) ==> self@ == JsonView::Array(item_views(v@)),
            items is None ==> !(self@ is Array),
    {
        match self {
            Json::Array(v) => {
                proof {
                    lemma_view_of_array(*v);
                }
                Some(v)
            },
            _ => None,
        }
    }

    /// Whether this is the value `null`.
    pub fn is_null(&self) -> (null: bool)
        ensures
            null == (self@ is Null),
    {
        match self {
            Json::Null => true,
            _ => false,
        }
    }
}

/// Trusted: `serde_json::Value`, a parsed document. Nothing is known of a
/// value but what [`value_model`] names.
#[verifier::external_type_specification]
#[verifier::external_body]
pub struct ExValue(serde_json::Value);

/// Trusted: `serde_json::Error`, the parser's report of what is wrong with
/// a text. It is carried along, never looked into.
#[verifier::external_type_specification]
#[verifier::external_body]
pub struct ExError(serde_json::Error);

/// The document that a text denotes, or `None` where the text is not JSON.
pub uninterp spec fn json_parse(text: Seq<char>) -> Option<JsonView>;

/// The document that a parsed value holds.
pub uninterp spec fn value_model(value: serde_json::Value) -> JsonView;

/// Trusted: `serde_json::from_str` at `serde_json::Value`. Whether it
/// succeeds, and the document it returns, depend on the text alone.
#[verifier::external_body]
fn value_from_str(text: &str) -> (parsed: Result<serde_json::Value, serde_json::Error>)
    ensures
        parsed matches Ok(value) ==> json_parse(text@) == Some(value_model(value)),
        parsed is Err ==> json_parse(text@) is None,
{
    serde_json::from_str::<serde_json::Value>(text)
}

/// One level of a parsed value: its kind, and what it holds directly.
enum Node<'a> {
    Null,
    Bool(bool),
    Number(String),
    Text(&'a str),
    Array(&'a Vec<serde_json::Value>),
    Object(Vec<Entry<'a>>),
}

/// One member of a parsed object.
struct Entry<'a> {
    name: &'a str,
    value: &'a serde_json::Value,
}

/// The document of which `node` is the top level.
spec fn node_model(node: Node) -> JsonView {
    match node {
        Node::Null => JsonView::Null,
        Node::Bool(b) => JsonView::Bool(b),
        Node::Number(n) => JsonView::Number(n@),
        Node::Text(s) => JsonView::Text(s@),
        Node::Array(items) => JsonView::Array(
            Seq::new(items@.len(), |i: int| value_model(items@[i])),
        ),
        Node::Object(entries) => JsonView::Object(
            Seq::new(
                entries@.len(),
                |i: int|
                    MemberView { name: entries@[i].name@, value: value_model(*entries@[i].value) },
            ),
        ),
    }
}

/// Trusted: the variants of `serde_json::Value`, told apart. Each variant
/// holds what the value holds: a number as the text that its `Display`
/// form gives, the elements of an array, the members of an object in the
/// order in which the map hands them out.
#[verifier::external_body]
fn unfold<'a>(value: &'a serde_json::Value) -> (node: Node<'a>)
    ensures
        node_model(node) == value_model(*value),
{
    match value {
        serde_json::Value::Null => Node::Null,
        serde_json::Value::Bool(b) => Node::Bool(*b),
        serde_json::Value::Number(n) => Node::Number(n.to_string()),
        serde_json::Value::String(s) => Node::Text(s.as_str()),
        serde_json::Value::Array(items) => Node::Array(items),
        serde_json::Value::Object(members) => Node::Object(
            members.iter().map(|(name, value)| Entry { name: name.as_str(), value }).collect(),
        ),
    }
}

/// The tree of plain values that a parsed value holds.
fn json_of_value(value: &serde_json::Value) -> (json: Json)
    ensures
        json@ == value_model(*value),
    decreases value_model(*value),
{
    match unfold(value) {
        Node::Null => Json::Null,
        Node::Bool(b) => Json::Bool(b),
        Node::Number(n) => Json::Number(n),
        Node::Text(s) => Json::Text(s.to_owned()),
        Node::Array(items) => {
            let ghost models = value_model(*value)->Array_0;
            let mut out: Vec<Json> = Vec::new();
            let mut i: usize = 0;
            while i < items.len()
                invariant
                    i <= items.len(),
                    value_model(*value) == JsonView::Array(models),
                    models.len() == items@.len(),
                    forall|k: int| 0 <= k < items@.len() ==> models[k] == value_model(items@[k]),
                    out@.len() == i,
                    forall|k: int| 0 <= k < i ==> out@[k]@ == models[k],
                decreases items.len() - i,
            {
                proof {
                    assert(models[i as int] == value_model(items@[i as int]));
                    assert(decreases_to!(value_model(*value) => value_model(*value)->Array_0));
                    assert(decreases_to!(models => models[i as int]));
                }
                let item = json_of_value(&items[i]);
                out.push(item);
                i += 1;
            }
            proof {
                lemma_view_of_array(out);
                assert(item_views(out@) =~= models);
            }
            Json::Array(out)
        },
        Node::Object(entries) => {
            let ghost models = value_model(*value)->Object_0;
            let mut out: Vec<Member> = Vec::new();
            let mut i: usize = 0;
            while i < entries.len()
                invariant
                    i <= entries.len(),
                    value_model(*value) == JsonView::Object(models),
                    models.len() == entries@.len(),
                    forall|k: int|
                        0 <= k < entries@.len() ==> models[k] == (MemberView {
                            name: entries@[k].name@,
                            value: value_model(*entries@[k].value),
                        }),
                    out@.len() == i,
                    forall|k: int|
                        0 <= k < i ==> out@[k].name@ == models[k].name && out@[k].value@
                            == models[k].value,
                decreases entries.len() - i,
            {
                proof {
                    assert(models[i as int].value == value_model(*entries@[i as int].value));
                    assert(decreases_to!(value_model(*value) => value_model(*value)->Object_0));
                    assert(decreases_to!(models => models[i as int]));
                    assert(decreases_to!(models[i as int] => models[i as int].value));
                }
                let member = Member {
                    name: entries[i].name.to_owned(),
                    value: json_of_value(entries[i].value),
                };
                out.push(member);
                i += 1;
            }
            proof {
                lemma_view_of_object(out);
                assert(member_views(out@) =~= models);
            }
            Json::Object(out)
        },
    }
}

/// Reads `text` as one JSON document.
pub fn parse(text: &str) -> (parsed: Result<Json, serde_json::Error>)
    ensures
        parsed matches Ok(json) ==> json_parse(text@) == Some(json@),
        parsed is Err ==> json_parse(text@) is None,
{
    match value_from_str(text) {
        Ok(value) => Ok(json_of_value(&value)),
        Err(error) => Err(error),
    }
}

} // verus!
