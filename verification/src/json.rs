//! JSON values as the application reads and redacts them.

use vstd::prelude::*;

use crate::text::{option_view, same_text};

verus! {

/// A JSON value. A number is kept as its text; the members of an object keep their order.
#[derive(Debug, PartialEq, Eq)]
pub enum JsonValue {
    Null,
    Bool(bool),
    Number(String),
    String(String),
    Array(Vec<JsonValue>),
    Object(Vec<(String, JsonValue)>),
}

/// The mathematical counterpart of `JsonValue`.
pub enum JsonView {
    Null,
    Bool(bool),
    Number(Seq<char>),
    String(Seq<char>),
    Array(Seq<JsonView>),
    Object(Seq<(Seq<char>, JsonView)>),
}

impl JsonValue {
    pub open spec fn model(self) -> JsonView
        decreases self,
    {
        match self {
            JsonValue::Null => JsonView::Null,
            JsonValue::Bool(value) => JsonView::Bool(value),
            JsonValue::Number(text) => JsonView::Number(text@),
            JsonValue::String(text) => JsonView::String(text@),
            JsonValue::Array(items) => JsonView::Array(
                Seq::new(
                    items@.len(),
                    |i: int|
                        if 0 <= i < items@.len() {
                            items@[i].model()
                        } else {
                            JsonView::Null
                        },
                ),
            ),
            JsonValue::Object(members) => JsonView::Object(
                Seq::new(
                    members@.len(),
                    |i: int|
                        if 0 <= i < members@.len() {
                            (members@[i].0@, members@[i].1.model())
                        } else {
                            (Seq::empty(), JsonView::Null)
                        },
                ),
            ),
        }
    }
}

impl View for JsonValue {
    type V = JsonView;

    open spec fn view(&self) -> JsonView {
        self.model()
    }
}

/// The models of an array's items.
pub open spec fn item_views(items: Seq<JsonValue>) -> Seq<JsonView> {
    Seq::new(items.len(), |i: int| items[i]@)
}

/// The models of an object's members.
pub open spec fn member_views(members: Seq<(String, JsonValue)>) -> Seq<(Seq<char>, JsonView)> {
    Seq::new(members.len(), |i: int| (members[i].0@, members[i].1@))
}

/// The view of an optional value.
pub open spec fn option_json_view(value: Option<JsonValue>) -> Option<JsonView> {
    match value {
        Some(value) => Some(value@),
        None => None,
    }
}

pub proof fn lemma_array_view(items: Vec<JsonValue>)
    ensures
        JsonValue::Array(items)@ == JsonView::Array(item_views(items@)),
{
    assert(JsonValue::Array(items)@->Array_0 =~= item_views(items@));
}

pub proof fn lemma_object_view(members: Vec<(String, JsonValue)>)
    ensures
        JsonValue::Object(members)@ == JsonView::Object(member_views(members@)),
{
    assert(JsonValue::Object(members)@->Object_0 =~= member_views(members@));
}

impl Clone for JsonValue {
    fn clone(&self) -> (copy: Self)
        ensures
            copy@ == self@,
        decreases self,
    {
        match self {
            JsonValue::Null => JsonValue::Null,
            JsonValue::Bool(value) => JsonValue::Bool(*value),
            JsonValue::Number(text) => JsonValue::Number(text.clone()),
            JsonValue::String(text) => JsonValue::String(text.clone()),
            JsonValue::Array(items) => {
                let mut copies: Vec<JsonValue> = Vec::new();
                let mut i: usize = 0;
                while i < items.len()
                    invariant
                        i <= items@.len(),
                        *self == JsonValue::Array(*items),
                        item_views(copies@) == item_views(items@).take(i as int),
                    decreases items@.len() - i,
                {
                    let ghost before = item_views(copies@);
                    let item = &items[i];
                    assert(decreases_to!(*self => self->Array_0));
                    assert(decreases_to!(*items => items@));
                    assert(decreases_to!(items@ => items@[i as int]));
                    copies.push(item.clone());
                    assert(item_views(copies@) =~= before.push(items@[i as int]@));
                    i += 1;
                }
                proof {
                    assert(item_views(copies@) =~= item_views(items@));
                    lemma_array_view(copies);
                    lemma_array_view(*items);
                }
                JsonValue::Array(copies)
            },
            JsonValue::Object(members) => {
                let mut copies: Vec<(String, JsonValue)> = Vec::new();
                let mut i: usize = 0;
                while i < members.len()
                    invariant
                        i <= members@.len(),
                        *self == JsonValue::Object(*members),
                        member_views(copies@) == member_views(members@).take(i as int),
                    decreases members@.len() - i,
                {
                    let ghost before = member_views(copies@);
                    let key = members[i].0.clone();
                    let value = &members[i].1;
                    assert(decreases_to!(*self => self->Object_0));
                    assert(decreases_to!(*members => members@));
                    assert(decreases_to!(members@ => members@[i as int]));
                    assert(decreases_to!(members@[i as int] => members@[i as int].1));
                    copies.push((key, value.clone()));
                    assert(member_views(copies@) =~= before.push(
                        (members@[i as int].0@, members@[i as int].1@),
                    ));
                    i += 1;
                }
                proof {
                    assert(member_views(copies@) =~= member_views(members@));
                    lemma_object_view(copies);
                    lemma_object_view(*members);
                }
                JsonValue::Object(copies)
            },
        }
    }
}

/// A JSON value of serde_json.
#[verifier::external_type_specification]
#[verifier::external_body]
pub struct ExSerdeValue(serde_json::Value);

/// The JSON value as one of serde_json, variant by variant. A number is parsed from its text, which
/// fails where the text is no JSON number. Of several members with one key the last one stands.
/// Nothing is promised of the result.
#[verifier::external_body]
fn serde_value(value: &JsonValue) -> (converted: Result<serde_json::Value, serde_json::Error>) {
    Ok(match value {
        JsonValue::Null => serde_json::Value::Null,
        JsonValue::Bool(flag) => serde_json::Value::Bool(*flag),
        JsonValue::Number(text) => serde_json::Value::Number(serde_json::from_str(text)?),
        JsonValue::String(text) => serde_json::Value::String(text.clone()),
        JsonValue::Array(items) => items.iter().map(serde_value).collect::<Result<_, _>>()?,
        JsonValue::Object(members) => members.iter().map(|(key, member)| {
            serde_value(member).map(|member| (key.clone(), member))
        }).collect::<Result<_, _>>()?,
    })
}

/// How serde_json pretty-prints the value, or `None` where it cannot be printed.
pub uninterp spec fn pretty_json(value: JsonView) -> Option<Seq<char>>;

/// `serde_json::to_string_pretty` pretty-prints the value, which depends on the value alone.
#[verifier::external_body]
pub(crate) fn render_json(value: &JsonValue) -> (text: Option<String>)
    ensures
        option_view(text) == pretty_json(value@),
{
    serde_json::to_string_pretty(&serde_value(value).ok()?).ok()
}

/// The value of the first member with the given key.
pub open spec fn member(value: JsonView, key: Seq<char>) -> Option<JsonView> {
    match value {
        JsonView::Object(members) => first_member(members, key),
        _ => None,
    }
}

/// The value of the first of these members with the given key.
pub open spec fn first_member(members: Seq<(Seq<char>, JsonView)>, key: Seq<char>) -> Option<
    JsonView,
>
    decreases members.len(),
{
    if members.len() == 0 {
        None
    } else if members[0].0 == key {
        Some(members[0].1)
    } else {
        first_member(members.skip(1), key)
    }
}

impl JsonValue {
    /// The value of the object member with the given key, if this is an object that has one.
    pub fn get(&self, key: &str) -> (found: Option<&JsonValue>)
        ensures
            member(self@, key@) == (match found {
                Some(value) => Some(value@),
                None => None,
            }),
    {
        match self {
            JsonValue::Object(members) => {
                proof {
                    lemma_object_view(*members);
                    assert(member_views(members@).skip(0) =~= member_views(members@));
                }
                let mut i: usize = 0;
                while i < members.len()
                    invariant
                        i <= members@.len(),
                        first_member(member_views(members@).skip(i as int), key@) == first_member(
                            member_views(members@),
                            key@,
                        ),
                        self@ == JsonView::Object(member_views(members@)),
                    decreases members@.len() - i,
                {
                    assert(member_views(members@).skip(i as int).skip(1) =~= member_views(
                        members@,
                    ).skip(i + 1));
                    if same_text(members[i].0.as_str(), key) {
                        return Some(&members[i].1);
                    }
                    i += 1;
                }
                None
            },
            _ => None,
        }
    }
}

proof fn lemma_first_member(members: Seq<(Seq<char>, JsonView)>, key: Seq<char>, i: int)
    requires
        0 <= i <= members.len(),
        forall|j: int| 0 <= j < i ==> (#[trigger] members[j]).0 != key,
        i < members.len() ==> members[i].0 == key,
    ensures
        i < members.len() ==> first_member(members, key) == Some(members[i].1),
        i == members.len() ==> first_member(members, key) is None,
    decreases i,
{
    if i > 0 {
        assert(members[0].0 != key);
        let rest = members.skip(1);
        assert forall|j: int| 0 <= j < i - 1 implies (#[trigger] rest[j]).0 != key by {
            assert(rest[j] == members[j + 1]);
        }
        assert(i < members.len() ==> rest[i - 1] == members[i]);
        lemma_first_member(rest, key, i - 1);
    }
}

/// A key finds the value of the first member that has it.
pub proof fn keys_find_their_first_member(
    members: Seq<(Seq<char>, JsonView)>,
    key: Seq<char>,
    i: int,
)
    requires
        0 <= i < members.len(),
        members[i].0 == key,
        forall|j: int| 0 <= j < i ==> (#[trigger] members[j]).0 != key,
    ensures
        member(JsonView::Object(members), key) == Some(members[i].1),
{
    lemma_first_member(members, key, i);
}

/// A key that no member has finds nothing, and nothing but an object has members.
pub proof fn unknown_keys_find_nothing(
    value: JsonView,
    members: Seq<(Seq<char>, JsonView)>,
    key: Seq<char>,
)
    requires
        forall|j: int| 0 <= j < members.len() ==> (#[trigger] members[j]).0 != key,
    ensures
        member(JsonView::Object(members), key) is None,
        !(value is Object) ==> member(value, key) is None,
{
    lemma_first_member(members, key, members.len() as int);
}

} // verus!
