use vstd::prelude::*;

verus! {

/// A number inside a JSON value, carried through unchanged.
#[verifier::external_type_specification]
#[verifier::external_body]
pub struct ExNumber(serde_json::Number);

/// `Clone::clone` of `serde_json::Number`. It is taken on trust that the copy
/// is the same number.
pub assume_specification[ <serde_json::Number as Clone>::clone ](n: &serde_json::Number) -> (r:
    serde_json::Number)
    ensures
        r == *n,
;

/// The JSON tree of serde_json.
#[verifier::external_type_specification]
#[verifier::external_body]
pub struct ExValue(serde_json::Value);

/// The error of serde_json.
#[verifier::external_type_specification]
#[verifier::external_body]
pub struct ExError(serde_json::Error);

/// A JSON tree held as plain data.
#[derive(Debug)]
pub enum JsonValue {
    Null,
    Bool(bool),
    Number(serde_json::Number),
    String(String),
    Array(Vec<JsonValue>),
    Object(Vec<Member>),
}

/// One member of a JSON object: a name and the value stored under it.
#[derive(Debug)]
pub struct Member {
    pub name: String,
    pub value: JsonValue,
}

/// The mathematical value of a [`JsonValue`].
pub enum JsonModel {
    Null,
    Bool(bool),
    Number(serde_json::Number),
    String(Seq<char>),
    Array(Seq<JsonModel>),
    Object(Seq<MemberModel>),
}

/// The mathematical value of a [`Member`].
pub struct MemberModel {
    pub name: Seq<char>,
    pub value: JsonModel,
}

/// The value stored under `key` among the members of an object. Where a name
/// occurs twice, the later member counts.
pub open spec fn lookup(entries: Seq<MemberModel>, key: Seq<char>) -> Option<JsonModel>
    decreases entries.len(),
{
    if entries.len() == 0 {
        None
    } else if entries.last().name == key {
        Some(entries.last().value)
    } else {
        lookup(entries.drop_last(), key)
    }
}

/// Whether no two of `entries` have the same name.
pub open spec fn names_distinct(entries: Seq<MemberModel>) -> bool {
    forall|i: int, j: int|
        0 <= i < j < entries.len() ==> (#[trigger] entries[i]).name != (#[trigger] entries[j]).name
}

impl JsonModel {
    /// Whether every object in the value, at any depth, has each name once.
    pub open spec fn unique_names(self) -> bool
        decreases self,
    {
        match self {
            JsonModel::Array(items) => forall|i: int|
                0 <= i < items.len() ==> (#[trigger] items[i]).unique_names(),
            JsonModel::Object(entries) => names_distinct(entries) && forall|i: int|
                0 <= i < entries.len() ==> (#[trigger] entries[i]).value.unique_names(),
            _ => true,
        }
    }

    /// The member `key` of an object; `None` for a missing member and for a value
    /// that is no object.
    pub open spec fn member(self, key: Seq<char>) -> Option<JsonModel> {
        match self {
            JsonModel::Object(entries) => lookup(entries, key),
            _ => None,
        }
    }

    /// The text of a string value.
    pub open spec fn as_text(self) -> Option<Seq<char>> {
        match self {
            JsonModel::String(s) => Some(s),
            _ => None,
        }
    }
}

impl View for JsonValue {
    type V = JsonModel;

    open spec fn view(&self) -> JsonModel
        decreases self,
    {
        match self {
            JsonValue::Null => JsonModel::Null,
            JsonValue::Bool(b) => JsonModel::Bool(*b),
            JsonValue::Number(n) => JsonModel::Number(*n),
            JsonValue::String(s) => JsonModel::String(s@),
            JsonValue::Array(items) => JsonModel::Array(
                Seq::new(
                    items@.len(),
                    |i: int| if 0 <= i < items@.len() { items@[i].view() } else { JsonModel::Null },
                ),
            ),
            JsonValue::Object(entries) => JsonModel::Object(
                Seq::new(
                    entries@.len(),
                    |i: int|
                        if 0 <= i < entries@.len() {
                            MemberModel {
                                name: entries@[i].name@,
                                value: entries@[i].value.view(),
                            }
                        } else {
                            MemberModel { name: Seq::empty(), value: JsonModel::Null }
                        },
                ),
            ),
        }
    }
}

/// What a JSON tree of serde_json holds. The members of an object stand in the
/// order in which its map hands them out.
pub uninterp spec fn json_content(v: serde_json::Value) -> JsonModel;

/// What `serde_json::from_str` makes of a text: the tree that it parses to, or
/// `None` where the text is not well-formed JSON.
pub uninterp spec fn json_text_value(text: Seq<char>) -> Option<JsonModel>;

/// `serde_json::from_str` at the type `serde_json::Value`: parses a text as
/// JSON. It is taken on trust that the outcome depends on the text alone: the
/// same text gives a tree with the same content, or fails, every time.
#[verifier::external_body]
pub(crate) fn read_json(text: &str) -> (r: Result<serde_json::Value, serde_json::Error>)
    ensures
        match r {
            Ok(v) => json_text_value(text@) == Some(json_content(v)),
            Err(_) => json_text_value(text@) is None,
        },
{
    serde_json::from_str::<serde_json::Value>(text)
}

/// Copies a `serde_json::Value` into a [`JsonValue`], variant by variant, and
/// the members of an object in the order in which `Map::iter` hands them out.
/// It is taken on trust that the copy holds what the tree holds, and that no
/// object in it has a name twice, since the objects of the tree are maps.
#[verifier::external_body]
pub(crate) fn lift_json(v: &serde_json::Value) -> (r: JsonValue)
    ensures
        r@ == json_content(*v),
        r@.unique_names(),
{
    match v {
        serde_json::Value::Null => JsonValue::Null,
        serde_json::Value::Bool(b) => JsonValue::Bool(*b),
        serde_json::Value::Number(n) => JsonValue::Number(n.clone()),
        serde_json::Value::String(s) => JsonValue::String(s.clone()),
        serde_json::Value::Array(items) => JsonValue::Array(items.iter().map(lift_json).collect()),
        serde_json::Value::Object(map) => JsonValue::Object(
            map.iter().map(|(k, v)| Member { name: k.clone(), value: lift_json(v) }).collect(),
        ),
    }
}

/// `Value::get` of serde_json with a name as index: whether the tree is an
/// object with a member of that name. It is taken on trust that the answer is
/// that of a lookup among the members that the tree holds.
#[verifier::external_body]
pub(crate) fn has_member(v: &serde_json::Value, key: &str) -> (b: bool)
    ensures
        b == json_content(*v).member(key@) is Some,
{
    v.get(key).is_some()
}

/// `to_string` of `serde_json::Error`: the message of the error. Nothing is
/// stated of the message.
#[verifier::external_body]
pub(crate) fn error_text(e: &serde_json::Error) -> (s: String) {
    e.to_string()
}

/// What a lookup finds is the value of one of the members.
pub proof fn lemma_lookup_found(entries: Seq<MemberModel>, key: Seq<char>)
    requires
        lookup(entries, key) is Some,
    ensures
        exists|i: int|
            0 <= i < entries.len() && (#[trigger] entries[i]).name == key && entries[i].value
                == lookup(entries, key).unwrap(),
    decreases entries.len(),
{
    if entries.last().name == key {
        assert(entries[entries.len() - 1].name == key);
    } else {
        let rest = entries.drop_last();
        lemma_lookup_found(rest, key);
        let i = choose|i: int|
            0 <= i < rest.len() && (#[trigger] rest[i]).name == key && rest[i].value == lookup(
                rest,
                key,
            ).unwrap();
        assert(entries[i] == rest[i]);
    }
}

/// The view of an object holds the views of its members, in their order.
pub proof fn lemma_object_view(entries: Vec<Member>)
    ensures
        JsonValue::Object(entries)@ is Object,
        JsonValue::Object(entries)@->Object_0.len() == entries@.len(),
        forall|j: int|
            0 <= j < entries@.len() ==> (#[trigger] JsonValue::Object(entries)@->Object_0[j])
                == (MemberModel { name: entries@[j].name@, value: entries@[j].value@ }),
{
}

/// The view of an array holds the views of its items, in their order.
pub proof fn lemma_array_view(items: Vec<JsonValue>)
    ensures
        JsonValue::Array(items)@ is Array,
        JsonValue::Array(items)@->Array_0.len() == items@.len(),
        forall|j: int|
            0 <= j < items@.len() ==> (#[trigger] JsonValue::Array(items)@->Array_0[j])
                == items@[j]@,
{
}

impl JsonValue {
    /// The member `key` of an object.
    pub fn get(&self, key: &str) -> (r: Option<&JsonValue>)
        ensures
            match r {
                Some(v) => self@.member(key@) == Some(v@),
                None => self@.member(key@) is None,
            },
    {
        match self {
            JsonValue::Object(entries) => {
                let name = String::from_str(key);
                let ghost all = self@->Object_0;
                let mut i = entries.len();
                proof {
                    lemma_object_view(*entries);
                }
                assert(all.take(i as int) =~= all);
                while i > 0
                    invariant
                        i <= entries.len(),
                        name@ == key@,
                        self@ == JsonModel::Object(all),
                        all.len() == entries@.len(),
                        forall|j: int|
                            0 <= j < all.len() ==> all[j] == (MemberModel {
                                name: entries@[j].name@,
                                value: entries@[j].value@,
                            }),
                        lookup(all, key@) == lookup(all.take(i as int), key@),
                    decreases i,
                {
                    i = i - 1;
                    proof {
                        assert(all.take(i + 1).drop_last() =~= all.take(i as int));
                        assert(all.take(i + 1).last() == all[i as int]);
                    }
                    if entries[i].name == name {
                        return Some(&entries[i].value);
                    }
                }
                None
            },
            _ => None,
        }
    }

    /// The text of a string value.
    pub fn as_str(&self) -> (r: Option<&String>)
        ensures
            match r {
                Some(s) => self@.as_text() == Some(s@),
                None => self@.as_text() is None,
            },
    {
        match self {
            JsonValue::String(s) => Some(s),
            _ => None,
        }
    }
}

impl Clone for JsonValue {
    fn clone(&self) -> (r: Self)
        ensures
            r@ == self@,
        decreases self,
    {
        match self {
            JsonValue::Null => JsonValue::Null,
            JsonValue::Bool(b) => JsonValue::Bool(*b),
            JsonValue::Number(n) => JsonValue::Number(n.clone()),
            JsonValue::String(s) => JsonValue::String(s.clone()),
            JsonValue::Array(items) => {
                let mut copy: Vec<JsonValue> = Vec::new();
                let mut i: usize = 0;
                while i < items.len()
                    invariant
                        i <= items.len(),
                        decreases_to!(self => items),
                        copy@.len() == i,
                        forall|j: int| 0 <= j < i ==> copy@[j]@ == items@[j]@,
                    decreases items.len() - i,
                {
                    let item = &items[i];
                    assert(decreases_to!(items => items[i as int]));
                    copy.push(item.clone());
                    i = i + 1;
                }
                let r = JsonValue::Array(copy);
                assert(r@ =~= self@) by {
                    assert(r@->Array_0 =~= self@->Array_0);
                }
                r
            },
            JsonValue::Object(entries) => {
                let mut copy: Vec<Member> = Vec::new();
                let mut i: usize = 0;
                while i < entries.len()
                    invariant
                        i <= entries.len(),
                        decreases_to!(self => entries),
                        copy@.len() == i,
                        forall|j: int|
                            0 <= j < i ==> copy@[j].name@ == entries@[j].name@ && copy@[j].value@
                                == entries@[j].value@,
                    decreases entries.len() - i,
                {
                    let value = &entries[i].value;
                    assert(decreases_to!(entries => entries[i as int]));
                    assert(decreases_to!(entries[i as int] => entries[i as int].value));
                    copy.push(Member { name: entries[i].name.clone(), value: value.clone() });
                    i = i + 1;
                }
                let r = JsonValue::Object(copy);
                assert(r@ =~= self@) by {
                    assert(r@->Object_0 =~= self@->Object_0);
                }
                r
            },
        }
    }
}

} // verus!
