//! JSON documents and the setting of a value at a dotted key path.
//!
//! Reading and writing JSON text is `serde_json`'s work. What the engine
//! decides, which objects a key path walks through and what it creates on
//! the way, is decided on [`JsonValue`], a document held as plain data.

use crate::text::{from_chars, same_text, texts, to_chars, trim_chars, trimmed};
use vstd::prelude::*;

verus! {

/// `serde_json::Number`, a JSON number. It is carried through as it is:
/// nothing is said of what it holds.
#[verifier::external_type_specification]
#[verifier::external_body]
pub struct ExNumber(serde_json::Number);

/// `serde_json::Value`, a JSON value as `serde_json` holds it. It passes
/// between reading, converting and printing and is not looked into.
#[verifier::external_type_specification]
#[verifier::external_body]
pub struct ExValue(serde_json::Value);

/// `serde_json::Error`, what `serde_json` reports when it cannot read or
/// print. It is carried to the caller as it is.
#[verifier::external_type_specification]
#[verifier::external_body]
pub struct ExJsonError(serde_json::Error);

/// `Clone` on `serde_json::Number` is derived: the copy is the number
/// itself.
pub assume_specification[ <serde_json::Number as Clone>::clone ](n: &serde_json::Number) -> (r:
    serde_json::Number)
    ensures
        r == *n,
;

/// A JSON document. An object keeps its members in a list; a key is
/// looked up from the front, so the first member of a name is the one
/// that counts.
#[derive(Debug, PartialEq)]
pub enum JsonValue {
    Null,
    Bool(bool),
    Number(serde_json::Number),
    Text(String),
    Array(Vec<JsonValue>),
    Object(Vec<(String, JsonValue)>),
}

/// The mathematical form of a [`JsonValue`].
pub enum JsonModel {
    Null,
    Bool(bool),
    Number(serde_json::Number),
    Text(Seq<char>),
    Array(Seq<JsonModel>),
    Object(Seq<(Seq<char>, JsonModel)>),
}

/// The mathematical form of a document.
pub open spec fn model_of(value: JsonValue) -> JsonModel
    decreases value,
{
    match value {
        JsonValue::Null => JsonModel::Null,
        JsonValue::Bool(b) => JsonModel::Bool(b),
        JsonValue::Number(n) => JsonModel::Number(n),
        JsonValue::Text(s) => JsonModel::Text(s@),
        JsonValue::Array(items) => JsonModel::Array(
            Seq::new(
                items@.len(),
                |i: int|
                    if 0 <= i < items@.len() {
                        model_of(items@[i])
                    } else {
                        JsonModel::Null
                    },
            ),
        ),
        JsonValue::Object(members) => JsonModel::Object(
            Seq::new(
                members@.len(),
                |i: int|
                    if 0 <= i < members@.len() {
                        (members@[i].0@, model_of(members@[i].1))
                    } else {
                        (Seq::empty(), JsonModel::Null)
                    },
            ),
        ),
    }
}

impl View for JsonValue {
    type V = JsonModel;

    open spec fn view(&self) -> JsonModel {
        model_of(*self)
    }
}

/// The views of an object's members.
pub open spec fn member_models(members: Seq<(String, JsonValue)>) -> Seq<(Seq<char>, JsonModel)> {
    Seq::new(members.len(), |i: int| (members[i].0@, members[i].1@))
}

/// The view of an object is the object of its members' views.
pub proof fn lemma_object_view(members: Vec<(String, JsonValue)>)
    ensures
        JsonValue::Object(members)@ == JsonModel::Object(member_models(members@)),
{
    let direct = JsonValue::Object(members)@;
    assert(direct->Object_0 =~= member_models(members@));
}

/// Whether no two members share a name.
pub open spec fn names_distinct<V>(members: Seq<(Seq<char>, V)>) -> bool {
    forall|i: int, j: int|
        0 <= i < j < members.len() ==> (#[trigger] members[i]).0 != (#[trigger] members[j]).0
}

impl JsonModel {
    /// Whether the document is well formed: in every object, at every
    /// depth, no two members share a name.
    pub open spec fn wf(self) -> bool
        decreases self,
    {
        match self {
            JsonModel::Array(items) => forall|i: int|
                0 <= i < items.len() ==> (#[trigger] items[i]).wf(),
            JsonModel::Object(members) => {
                &&& names_distinct(members)
                &&& forall|i: int| 0 <= i < members.len() ==> (#[trigger] members[i]).1.wf()
            },
            _ => true,
        }
    }
}

/// The index of the first member, at or after `from`, named `key`.
pub open spec fn member_index<V>(members: Seq<(Seq<char>, V)>, key: Seq<char>, from: int)
    -> Option<int>
    decreases members.len() - from,
{
    if from < 0 || from >= members.len() {
        None
    } else if members[from].0 == key {
        Some(from)
    } else {
        member_index(members, key, from + 1)
    }
}

/// The members with `key` set to `value`: in place where the object has
/// the key, at the end where it has not.
pub open spec fn with_member<V>(members: Seq<(Seq<char>, V)>, key: Seq<char>, value: V) -> Seq<
    (Seq<char>, V),
> {
    match member_index(members, key, 0) {
        Some(i) => members.update(i, (key, value)),
        None => members.push((key, value)),
    }
}

/// The member named `key`, or an empty object where there is none.
pub open spec fn member_or_empty(members: Seq<(Seq<char>, JsonModel)>, key: Seq<char>)
    -> JsonModel {
    match member_index(members, key, 0) {
        Some(i) => members[i].1,
        None => JsonModel::Object(Seq::empty()),
    }
}

/// The document with `value` set at the key path `parts[from..]`.
///
/// Every value on the way must be an object; a missing one is created
/// empty. `Err(i)` says that the value reached before segment `i` is not
/// an object. With no segment left the document stands as it is.
pub open spec fn set_path_from(
    doc: JsonModel,
    parts: Seq<Seq<char>>,
    from: int,
    value: JsonModel,
) -> Result<JsonModel, int>
    decreases parts.len() - from,
{
    if from < 0 || from >= parts.len() {
        Ok(doc)
    } else {
        match doc {
            JsonModel::Object(members) => {
                if from == parts.len() - 1 {
                    Ok(JsonModel::Object(with_member(members, parts[from], value)))
                } else {
                    match set_path_from(
                        member_or_empty(members, parts[from]),
                        parts,
                        from + 1,
                        value,
                    ) {
                        Ok(child) => Ok(
                            JsonModel::Object(with_member(members, parts[from], child)),
                        ),
                        Err(at) => Err(at),
                    }
                }
            },
            _ => Err(from),
        }
    }
}

/// The document with `value` set at the key path `parts`.
pub open spec fn set_path_spec(doc: JsonModel, parts: Seq<Seq<char>>, value: JsonModel) -> Result<
    JsonModel,
    int,
> {
    set_path_from(doc, parts, 0, value)
}

/// `member_index` answers with the first index that holds the key.
pub proof fn lemma_member_index<V>(members: Seq<(Seq<char>, V)>, key: Seq<char>, from: int)
    requires
        0 <= from,
    ensures
        match member_index(members, key, from) {
            Some(i) => {
                &&& from <= i < members.len()
                &&& members[i].0 == key
                &&& forall|j: int| from <= j < i ==> members[j].0 != key
            },
            None => forall|j: int| from <= j < members.len() ==> members[j].0 != key,
        },
    decreases members.len() - from,
{
    if from < members.len() && members[from].0 != key {
        lemma_member_index(members, key, from + 1);
    }
}

/// The index that holds the first member named `key` is what
/// `member_index` answers.
pub proof fn lemma_member_index_is<V>(
    members: Seq<(Seq<char>, V)>,
    key: Seq<char>,
    from: int,
    at: int,
)
    requires
        0 <= from <= at < members.len(),
        members[at].0 == key,
        forall|j: int| from <= j < at ==> members[j].0 != key,
    ensures
        member_index(members, key, from) == Some(at),
    decreases at - from,
{
    if from < at {
        lemma_member_index_is(members, key, from + 1, at);
    }
}

/// After a key is set it is found, with the value it was set to, and
/// setting it again to the same value changes nothing.
pub proof fn lemma_with_member_twice(
    members: Seq<(Seq<char>, JsonModel)>,
    key: Seq<char>,
    value: JsonModel,
)
    ensures
        member_or_empty(with_member(members, key, value), key) == value,
        with_member(with_member(members, key, value), key, value) == with_member(
            members,
            key,
            value,
        ),
{
    let once = with_member(members, key, value);
    lemma_member_index(members, key, 0);
    match member_index(members, key, 0) {
        Some(i) => {
            lemma_member_index_is(once, key, 0, i);
        },
        None => {
            lemma_member_index_is(once, key, 0, members.len() as int);
        },
    }
}

/// Setting a key keeps the names distinct.
pub proof fn lemma_with_member_distinct<V>(members: Seq<(Seq<char>, V)>, key: Seq<char>, value: V)
    requires
        names_distinct(members),
    ensures
        names_distinct(with_member(members, key, value)),
{
    lemma_member_index(members, key, 0);
}

/// Whether the document holds `value` at the key path `parts[from..]`:
/// every segment names a member of the object reached so far, and the
/// member that the last segment names is `value`.
pub open spec fn holds_at(doc: JsonModel, parts: Seq<Seq<char>>, from: int, value: JsonModel)
    -> bool
    decreases parts.len() - from,
{
    if from < 0 || from >= parts.len() {
        false
    } else {
        match doc {
            JsonModel::Object(members) => match member_index(members, parts[from], 0) {
                Some(i) => if from == parts.len() - 1 {
                    members[i].1 == value
                } else {
                    holds_at(members[i].1, parts, from + 1, value)
                },
                None => false,
            },
            _ => false,
        }
    }
}

/// Setting a value where the document already holds it changes nothing.
pub proof fn lemma_set_where_held(
    doc: JsonModel,
    parts: Seq<Seq<char>>,
    from: int,
    value: JsonModel,
)
    requires
        holds_at(doc, parts, from, value),
    ensures
        set_path_from(doc, parts, from, value) == Ok::<JsonModel, int>(doc),
    decreases parts.len() - from,
{
    let members = doc->Object_0;
    let key = parts[from];
    lemma_member_index(members, key, 0);
    let i = member_index(members, key, 0)->Some_0;
    if from < parts.len() - 1 {
        lemma_set_where_held(members[i].1, parts, from + 1, value);
    }
    assert(members.update(i, (key, members[i].1)) == members);
}

/// After a value has been set, the document holds it at the key path.
pub proof fn lemma_set_then_held(
    doc: JsonModel,
    parts: Seq<Seq<char>>,
    from: int,
    value: JsonModel,
)
    requires
        0 <= from < parts.len(),
    ensures
        set_path_from(doc, parts, from, value) matches Ok(after) ==> holds_at(
            after,
            parts,
            from,
            value,
        ),
    decreases parts.len() - from,
{
    match doc {
        JsonModel::Object(members) => {
            let key = parts[from];
            if from == parts.len() - 1 {
                lemma_with_member_twice(members, key, value);
                lemma_member_found(members, key, value);
            } else {
                let child = member_or_empty(members, key);
                lemma_set_then_held(child, parts, from + 1, value);
                match set_path_from(child, parts, from + 1, value) {
                    Ok(new_child) => {
                        lemma_member_found(members, key, new_child);
                    },
                    Err(_) => {},
                }
            }
        },
        _ => {},
    }
}

/// After a key is set, the first member of that name holds the value.
pub proof fn lemma_member_found<V>(members: Seq<(Seq<char>, V)>, key: Seq<char>, value: V)
    ensures
        member_index(with_member(members, key, value), key, 0) matches Some(i) && with_member(
            members,
            key,
            value,
        )[i].1 == value,
{
    let once = with_member(members, key, value);
    lemma_member_index(members, key, 0);
    match member_index(members, key, 0) {
        Some(i) => {
            lemma_member_index_is(once, key, 0, i);
        },
        None => {
            lemma_member_index_is(once, key, 0, members.len() as int);
        },
    }
}

/// A failed setting names a segment of the path.
pub proof fn lemma_set_error_bounds(
    doc: JsonModel,
    parts: Seq<Seq<char>>,
    from: int,
    value: JsonModel,
)
    requires
        0 <= from,
    ensures
        set_path_from(doc, parts, from, value) matches Err(at) ==> from <= at < parts.len(),
    decreases parts.len() - from,
{
    if from < parts.len() {
        match doc {
            JsonModel::Object(members) => {
                if from < parts.len() - 1 {
                    lemma_set_error_bounds(
                        member_or_empty(members, parts[from]),
                        parts,
                        from + 1,
                        value,
                    );
                }
            },
            _ => {},
        }
    }
}

/// Setting a key keeps the names distinct and the members well formed.
pub proof fn lemma_with_member_wf(
    members: Seq<(Seq<char>, JsonModel)>,
    key: Seq<char>,
    value: JsonModel,
)
    requires
        JsonModel::Object(members).wf(),
        value.wf(),
    ensures
        JsonModel::Object(with_member(members, key, value)).wf(),
{
    lemma_member_index(members, key, 0);
    let after = with_member(members, key, value);
    assert forall|i: int, j: int| 0 <= i < j < after.len() implies (#[trigger] after[i]).0 != (
    #[trigger] after[j]).0 by {}
    assert forall|i: int| 0 <= i < after.len() implies (#[trigger] after[i]).1.wf() by {}
}

/// The member a walk descends into is well formed.
pub proof fn lemma_member_or_empty_wf(members: Seq<(Seq<char>, JsonModel)>, key: Seq<char>)
    requires
        JsonModel::Object(members).wf(),
    ensures
        member_or_empty(members, key).wf(),
{
    lemma_member_index(members, key, 0);
}

/// Setting a value at a key path keeps a well-formed document well formed.
pub proof fn lemma_set_path_wf(doc: JsonModel, parts: Seq<Seq<char>>, from: int, value: JsonModel)
    requires
        doc.wf(),
        value.wf(),
    ensures
        set_path_from(doc, parts, from, value) matches Ok(after) ==> after.wf(),
    decreases parts.len() - from,
{
    if 0 <= from < parts.len() {
        match doc {
            JsonModel::Object(members) => {
                if from == parts.len() - 1 {
                    lemma_with_member_wf(members, parts[from], value);
                } else {
                    let child = member_or_empty(members, parts[from]);
                    lemma_member_or_empty_wf(members, parts[from]);
                    lemma_set_path_wf(child, parts, from + 1, value);
                    match set_path_from(child, parts, from + 1, value) {
                        Ok(new_child) => {
                            lemma_with_member_wf(members, parts[from], new_child);
                        },
                        Err(_) => {},
                    }
                }
            },
            _ => {},
        }
    }
}

/// Setting the same value at the same key path twice gives the document
/// that setting it once gives.
pub proof fn lemma_set_json_idempotent(doc: JsonModel, parts: Seq<Seq<char>>, value: JsonModel)
    ensures
        set_path_spec(doc, parts, value) matches Ok(once) ==> set_path_spec(once, parts, value)
            == Ok::<JsonModel, int>(once),
{
    lemma_set_path_idempotent(doc, parts, 0, value);
}

/// Setting a value at a path of two keys in an empty object gives an
/// object whose one member, under the first key, is an object whose one
/// member, under the second key, is the value.
pub proof fn lemma_set_in_empty_object(first: Seq<char>, second: Seq<char>, value: JsonModel)
    ensures
        set_path_spec(JsonModel::Object(Seq::empty()), seq![first, second], value) == Ok::<
            JsonModel,
            int,
        >(
            JsonModel::Object(
                seq![(first, JsonModel::Object(seq![(second, value)]))],
            ),
        ),
{
    let empty = Seq::<(Seq<char>, JsonModel)>::empty();
    let parts = seq![first, second];
    let inner = JsonModel::Object(seq![(second, value)]);
    assert(set_path_from(JsonModel::Object(empty), parts, 1, value) == Ok::<JsonModel, int>(
        inner,
    ));
}

/// A document that already holds the value at the key path, wherever the
/// document comes from, is left as it is by setting the value there.
pub proof fn lemma_set_json_unchanged(doc: JsonModel, parts: Seq<Seq<char>>, value: JsonModel)
    requires
        holds_at(doc, parts, 0, value),
    ensures
        set_path_spec(doc, parts, value) == Ok::<JsonModel, int>(doc),
{
    lemma_set_where_held(doc, parts, 0, value);
}

/// Setting a value at a key path of at least one segment gives a
/// document that holds the value there.
pub proof fn lemma_set_json_holds(doc: JsonModel, parts: Seq<Seq<char>>, value: JsonModel)
    requires
        parts.len() > 0,
    ensures
        set_path_spec(doc, parts, value) matches Ok(after) ==> holds_at(after, parts, 0, value),
{
    lemma_set_then_held(doc, parts, 0, value);
}

/// Setting a value from segment `from` on a second time leaves the
/// document as the first setting made it.
pub proof fn lemma_set_path_idempotent(
    doc: JsonModel,
    parts: Seq<Seq<char>>,
    from: int,
    value: JsonModel,
)
    ensures
        set_path_from(doc, parts, from, value) matches Ok(once) ==> set_path_from(
            once,
            parts,
            from,
            value,
        ) == Ok::<JsonModel, int>(once),
    decreases parts.len() - from,
{
    if 0 <= from < parts.len() {
        match doc {
            JsonModel::Object(members) => {
                let key = parts[from];
                if from == parts.len() - 1 {
                    lemma_with_member_twice(members, key, value);
                } else {
                    let child = member_or_empty(members, key);
                    lemma_set_path_idempotent(child, parts, from + 1, value);
                    match set_path_from(child, parts, from + 1, value) {
                        Ok(new_child) => {
                            lemma_with_member_twice(members, key, new_child);
                        },
                        Err(_) => {},
                    }
                }
            },
            _ => {},
        }
    }
}

/// What `serde_json` reads from a text: the document, or nothing where
/// the text is not one JSON value.
pub uninterp spec fn parsed_json(text: Seq<char>) -> Option<JsonModel>;

/// What a `serde_json::Value` holds: the document it stands for, the
/// members of each object in the order of its map.
pub uninterp spec fn json_model(value: serde_json::Value) -> JsonModel;

/// A document as `serde_json` holds it once its members have gone into
/// maps.
pub uninterp spec fn stored_json(model: JsonModel) -> JsonModel;

/// The text that `serde_json` prints, indented, for a value that holds
/// `model`; nothing where it reports an error.
pub uninterp spec fn printed_json(model: JsonModel) -> Option<Seq<char>>;

/// The indented text of a document.
pub open spec fn pretty_json(model: JsonModel) -> Option<Seq<char>> {
    printed_json(stored_json(model))
}

/// `serde_json::from_str`, asked for a `Value`: whether it succeeds, and
/// with which value, depends on the text alone.
#[verifier::external_body]
pub(crate) fn parse_value(text: &str) -> (r: Result<serde_json::Value, serde_json::Error>)
    ensures
        match r {
            Ok(value) => parsed_json(text@) == Some(json_model(value)),
            Err(_) => parsed_json(text@) is None,
        },
{
    serde_json::from_str::<serde_json::Value>(text)
}

/// Takes a `serde_json::Value` apart, variant by variant. The members of
/// an object come out of a map, so no name stands twice.
#[verifier::external_body]
pub(crate) fn from_serde(value: serde_json::Value) -> (r: JsonValue)
    ensures
        r@ == json_model(value),
        r@.wf(),
{
    match value {
        serde_json::Value::Null => JsonValue::Null,
        serde_json::Value::Bool(b) => JsonValue::Bool(b),
        serde_json::Value::Number(n) => JsonValue::Number(n),
        serde_json::Value::String(s) => JsonValue::Text(s),
        serde_json::Value::Array(a) => JsonValue::Array(a.into_iter().map(from_serde).collect()),
        serde_json::Value::Object(m) => JsonValue::Object(
            m.into_iter().map(|(k, v)| (k, from_serde(v))).collect(),
        ),
    }
}

/// Builds the `serde_json::Value` of a document, variant by variant; what
/// the value holds depends on what the document holds and on nothing
/// else.
#[verifier::external_body]
pub(crate) fn to_serde(value: &JsonValue) -> (r: serde_json::Value)
    ensures
        json_model(r) == stored_json(value@),
{
    match value {
        JsonValue::Null => serde_json::Value::Null,
        JsonValue::Bool(b) => serde_json::Value::Bool(*b),
        JsonValue::Number(n) => serde_json::Value::Number(n.clone()),
        JsonValue::Text(s) => serde_json::Value::String(s.clone()),
        JsonValue::Array(a) => serde_json::Value::Array(a.iter().map(to_serde).collect()),
        JsonValue::Object(m) => serde_json::Value::Object(
            m.iter().map(|(k, v)| (k.clone(), to_serde(v))).collect(),
        ),
    }
}

/// `serde_json::to_string_pretty`: whether it succeeds, and with which
/// text, depends on what the value holds and on nothing else.
#[verifier::external_body]
pub(crate) fn print_pretty(value: &serde_json::Value) -> (r: Result<String, serde_json::Error>)
    ensures
        match r {
            Ok(text) => printed_json(json_model(*value)) == Some(text@),
            Err(_) => printed_json(json_model(*value)) is None,
        },
{
    serde_json::to_string_pretty(value)
}

/// Reads a JSON text. A document that was read is well formed.
pub fn parse_json(text: &str) -> (r: Result<JsonValue, serde_json::Error>)
    ensures
        match r {
            Ok(doc) => parsed_json(text@) == Some(doc@) && doc@.wf(),
            Err(_) => parsed_json(text@) is None,
        },
{
    match parse_value(text) {
        Ok(value) => Ok(from_serde(value)),
        Err(e) => Err(e),
    }
}

/// Writes a document as indented JSON text.
pub fn to_pretty_json(doc: &JsonValue) -> (r: Result<String, serde_json::Error>)
    ensures
        match r {
            Ok(text) => pretty_json(doc@) == Some(text@),
            Err(_) => pretty_json(doc@) is None,
        },
{
    let value = to_serde(doc);
    print_pretty(&value)
}

impl JsonValue {
    /// A copy of the document.
    pub fn duplicate(&self) -> (copy: JsonValue)
        ensures
            copy@ == self@,
        decreases self,
    {
        match self {
            JsonValue::Null => JsonValue::Null,
            JsonValue::Bool(b) => JsonValue::Bool(*b),
            JsonValue::Number(n) => JsonValue::Number(n.clone()),
            JsonValue::Text(s) => JsonValue::Text(s.clone()),
            JsonValue::Array(items) => {
                let mut copies: Vec<JsonValue> = Vec::new();
                let mut i: usize = 0;
                while i < items.len()
                    invariant
                        i <= items.len(),
                        copies@.len() == i,
                        forall|j: int| 0 <= j < i ==> copies@[j]@ == items@[j]@,
                        *self == JsonValue::Array(*items),
                    decreases items.len() - i,
                {
                    let item = &items[i];
                    assert(decreases_to!(self->Array_0@ => self->Array_0@[i as int]));
                    let copy = item.duplicate();
                    copies.push(copy);
                    i += 1;
                }
                assert(JsonValue::Array(copies)@->Array_0 =~= self@->Array_0);
                JsonValue::Array(copies)
            },
            JsonValue::Object(members) => {
                let mut copies: Vec<(String, JsonValue)> = Vec::new();
                let mut i: usize = 0;
                while i < members.len()
                    invariant
                        i <= members.len(),
                        copies@.len() == i,
                        forall|j: int|
                            0 <= j < i ==> copies@[j].0@ == members@[j].0@ && copies@[j].1@
                                == members@[j].1@,
                        *self == JsonValue::Object(*members),
                    decreases members.len() - i,
                {
                    let member = &members[i];
                    assert(decreases_to!(self->Object_0@[i as int] => self->Object_0@[i as int].1));
                    let copy = member.1.duplicate();
                    copies.push((members[i].0.clone(), copy));
                    i += 1;
                }
                assert(JsonValue::Object(copies)@->Object_0 =~= self@->Object_0);
                JsonValue::Object(copies)
            },
        }
    }
}

impl Clone for JsonValue {
    fn clone(&self) -> (copy: JsonValue)
        ensures
            copy@ == self@,
    {
        self.duplicate()
    }
}

/// Why a key path is not one.
#[derive(Debug, Clone, Copy, PartialEq, Eq, Structural)]
pub enum KeyPathError {
    /// The path is empty or blank.
    Empty,
    /// A segment is empty: the path starts or ends with a separator, or
    /// two separators stand side by side.
    EmptySegment,
    /// The path ends with a backslash that escapes nothing.
    TrailingEscape,
}

impl KeyPathError {
    /// The error in words.
    pub fn message(&self) -> (text: String)
        ensures
            text@ == match *self {
                KeyPathError::Empty => "Key path cannot be empty"@,
                KeyPathError::EmptySegment => "Key path contains an empty segment"@,
                KeyPathError::TrailingEscape => "Key path ends with an escape character"@,
            },
    {
        match self {
            KeyPathError::Empty => "Key path cannot be empty".to_owned(),
            KeyPathError::EmptySegment => "Key path contains an empty segment".to_owned(),
            KeyPathError::TrailingEscape => "Key path ends with an escape character".to_owned(),
        }
    }
}

/// `rest` with `parts` put in front of it.
pub open spec fn prepend(parts: Seq<Seq<char>>, rest: Result<Seq<Seq<char>>, KeyPathError>)
    -> Result<Seq<Seq<char>>, KeyPathError> {
    match rest {
        Ok(more) => Ok(parts + more),
        Err(e) => Err(e),
    }
}

/// The segments of `chars[from..]`, where `current` holds what has been
/// read of the segment under way. A dot ends a segment; a backslash takes
/// the character after it into the segment as it is.
pub open spec fn split_from(chars: Seq<char>, from: int, current: Seq<char>) -> Result<
    Seq<Seq<char>>,
    KeyPathError,
>
    decreases chars.len() - from,
{
    if from < 0 || from >= chars.len() {
        if current.len() == 0 {
            Err(KeyPathError::EmptySegment)
        } else {
            Ok(seq![current])
        }
    } else if chars[from] == '\\' {
        if from + 1 >= chars.len() {
            Err(KeyPathError::TrailingEscape)
        } else {
            split_from(chars, from + 2, current.push(chars[from + 1]))
        }
    } else if chars[from] == '.' {
        if current.len() == 0 {
            Err(KeyPathError::EmptySegment)
        } else {
            prepend(seq![current], split_from(chars, from + 1, Seq::empty()))
        }
    } else {
        split_from(chars, from + 1, current.push(chars[from]))
    }
}

/// The segments of a key path, taken as it stands.
pub open spec fn segments_spec(path: Seq<char>) -> Result<Seq<Seq<char>>, KeyPathError> {
    split_from(path, 0, Seq::empty())
}

/// The segments of a key path: surrounding whitespace is dropped, and
/// what remains must not be empty.
pub open spec fn split_spec(key_path: Seq<char>) -> Result<Seq<Seq<char>>, KeyPathError> {
    if trimmed(key_path).len() == 0 {
        Err(KeyPathError::Empty)
    } else {
        segments_spec(trimmed(key_path))
    }
}

/// A key path that splits has at least one segment, and no segment is
/// empty.
pub proof fn lemma_segments_not_empty(chars: Seq<char>, from: int, current: Seq<char>)
    ensures
        split_from(chars, from, current) matches Ok(parts) ==> {
            &&& parts.len() > 0
            &&& forall|i: int| 0 <= i < parts.len() ==> (#[trigger] parts[i]).len() > 0
        },
    decreases chars.len() - from,
{
    if from < 0 || from >= chars.len() {
    } else if chars[from] == '\\' {
        if from + 1 < chars.len() {
            lemma_segments_not_empty(chars, from + 2, current.push(chars[from + 1]));
        }
    } else if chars[from] == '.' {
        if current.len() > 0 {
            lemma_segments_not_empty(chars, from + 1, Seq::empty());
        }
    } else {
        lemma_segments_not_empty(chars, from + 1, current.push(chars[from]));
    }
}

/// Splits a key path, taken as it stands, into its segments.
pub fn split_segments(path: &str) -> (r: Result<Vec<String>, KeyPathError>)
    ensures
        match r {
            Ok(parts) => segments_spec(path@) == Ok::<Seq<Seq<char>>, KeyPathError>(
                texts(parts@),
            ) && parts@.len() > 0,
            Err(e) => segments_spec(path@) == Err::<Seq<Seq<char>>, KeyPathError>(e),
        },
{
    let chars = to_chars(path);
    let n = chars.len();
    let mut parts: Vec<String> = Vec::new();
    let mut current: Vec<char> = Vec::new();
    let mut i: usize = 0;
    while i < n
        invariant
            i <= n,
            n == chars.len(),
            chars@ == path@,
            segments_spec(path@) == prepend(texts(parts@), split_from(chars@, i as int, current@)),
        decreases n - i,
    {
        let ch = chars[i];
        if ch == '\\' {
            if i + 1 >= n {
                return Err(KeyPathError::TrailingEscape);
            }
            current.push(chars[i + 1]);
            i += 2;
        } else if ch == '.' {
            if current.len() == 0 {
                return Err(KeyPathError::EmptySegment);
            }
            let ghost before = texts(parts@);
            let ghost rest = split_from(chars@, i + 1, Seq::empty());
            let segment = from_chars(&current);
            parts.push(segment);
            assert(texts(parts@) == before.push(current@));
            assert(prepend(before, prepend(seq![current@], rest)) == prepend(
                before.push(current@),
                rest,
            )) by {
                match rest {
                    Ok(more) => {
                        assert(before + (seq![current@] + more) == before.push(current@) + more);
                    },
                    Err(_) => {},
                }
            }
            current = Vec::new();
            i += 1;
        } else {
            current.push(ch);
            i += 1;
        }
    }
    if current.len() == 0 {
        return Err(KeyPathError::EmptySegment);
    }
    let ghost before = texts(parts@);
    let segment = from_chars(&current);
    parts.push(segment);
    assert(texts(parts@) == before + seq![current@]);
    Ok(parts)
}

/// Splits a dotted key path into its segments. Whitespace around the path
/// is dropped. A dot separates two segments; `\.` is a dot inside a
/// segment, and a backslash before any other character stands for that
/// character. The path is refused if it is blank, if a segment is empty,
/// or if it ends in a backslash.
pub fn split_key_path(key_path: &str) -> (r: Result<Vec<String>, KeyPathError>)
    ensures
        match r {
            Ok(parts) => split_spec(key_path@) == Ok::<Seq<Seq<char>>, KeyPathError>(
                texts(parts@),
            ) && parts@.len() > 0,
            Err(e) => split_spec(key_path@) == Err::<Seq<Seq<char>>, KeyPathError>(e),
        },
{
    let chars = to_chars(key_path);
    let kept = trim_chars(&chars);
    if kept.len() == 0 {
        return Err(KeyPathError::Empty);
    }
    let text = from_chars(&kept);
    split_segments(text.as_str())
}

/// The index of the first member named `key`.
pub fn find_key<V>(members: &Vec<(String, V)>, key: &str) -> (r: Option<usize>)
    ensures
        match r {
            Some(i) => {
                &&& i < members.len()
                &&& members@[i as int].0@ == key@
                &&& forall|j: int| 0 <= j < i ==> (#[trigger] members@[j]).0@ != key@
            },
            None => forall|j: int| 0 <= j < members.len() ==> (#[trigger] members@[j]).0@ != key@,
        },
{
    let mut i: usize = 0;
    while i < members.len()
        invariant
            i <= members.len(),
            forall|j: int| 0 <= j < i ==> (#[trigger] members@[j]).0@ != key@,
        decreases members.len() - i,
    {
        if same_text(members[i].0.as_str(), key) {
            return Some(i);
        }
        i += 1;
    }
    None
}

fn find_member(members: &Vec<(String, JsonValue)>, key: &str) -> (r: Option<usize>)
    ensures
        match r {
            Some(i) => member_index(member_models(members@), key@, 0) == Some(i as int) && i
                < members.len(),
            None => member_index(member_models(members@), key@, 0) is None,
        },
{
    let found = find_key(members, key);
    proof {
        let models = member_models(members@);
        lemma_member_index(models, key@, 0);
        if let Some(i) = found {
            lemma_member_index_is(models, key@, 0, i as int);
        }
    }
    found
}

fn set_from(doc: JsonValue, parts: &Vec<String>, from: usize, value: JsonValue) -> (r: Result<
    JsonValue,
    usize,
>)
    ensures
        match r {
            Ok(after) => set_path_from(doc@, texts(parts@), from as int, value@) == Ok::<
                JsonModel,
                int,
            >(after@),
            Err(at) => set_path_from(doc@, texts(parts@), from as int, value@) == Err::<
                JsonModel,
                int,
            >(at as int) && at < parts.len(),
        },
    decreases parts.len() - from,
{
    proof {
        lemma_set_error_bounds(doc@, texts(parts@), from as int, value@);
    }
    if from >= parts.len() {
        return Ok(doc);
    }
    match doc {
        JsonValue::Object(mut members) => {
            proof {
                lemma_object_view(members);
            }
            let ghost before = member_models(members@);
            let key = &parts[from];
            let found = find_member(&members, key.as_str());
            proof {
                lemma_member_index(before, key@, 0);
            }
            if from == parts.len() - 1 {
                match found {
                    Some(i) => {
                        members.set(i, (key.clone(), value));
                    },
                    None => {
                        members.push((key.clone(), value));
                    },
                }
                proof {
                    lemma_object_view(members);
                    assert(member_models(members@) =~= with_member(before, key@, value@));
                }
                Ok(JsonValue::Object(members))
            } else {
                match found {
                    Some(i) => {
                        let (name, child) = members.remove(i);
                        match set_from(child, parts, from + 1, value) {
                            Ok(new_child) => {
                                members.insert(i, (name, new_child));
                                proof {
                                    lemma_object_view(members);
                                    assert(member_models(members@) =~= with_member(
                                        before,
                                        key@,
                                        new_child@,
                                    ));
                                }
                                Ok(JsonValue::Object(members))
                            },
                            Err(at) => Err(at),
                        }
                    },
                    None => {
                        let empty: Vec<(String, JsonValue)> = Vec::new();
                        proof {
                            lemma_object_view(empty);
                            assert(member_models(empty@) =~= Seq::<
                                (Seq<char>, JsonModel),
                            >::empty());
                        }
                        match set_from(JsonValue::Object(empty), parts, from + 1, value) {
                            Ok(new_child) => {
                                members.push((key.clone(), new_child));
                                proof {
                                    lemma_object_view(members);
                                    assert(member_models(members@) =~= with_member(
                                        before,
                                        key@,
                                        new_child@,
                                    ));
                                }
                                Ok(JsonValue::Object(members))
                            },
                            Err(at) => Err(at),
                        }
                    },
                }
            }
        },
        _ => Err(from),
    }
}

/// Why a value could not be set in a JSON document.
#[derive(Debug)]
pub enum JsonSetError {
    /// The text is not a JSON document.
    Parse(serde_json::Error),
    /// The key path is not one.
    KeyPath(KeyPathError),
    /// The value reached before the segment with this index is not an
    /// object. `at_target` tells the last segment, where the value was to
    /// be put, from a segment on the way there.
    NotAnObject { segment: usize, at_target: bool },
    /// The document could not be written.
    Print(serde_json::Error),
}

/// What went wrong, without the details that only `serde_json` knows.
pub enum SetFailure {
    Parse,
    KeyPath(KeyPathError),
    NotAnObject { segment: int, at_target: bool },
    Print,
}

impl JsonSetError {
    /// The kind of the error.
    pub open spec fn kind(&self) -> SetFailure {
        match self {
            JsonSetError::Parse(_) => SetFailure::Parse,
            JsonSetError::KeyPath(e) => SetFailure::KeyPath(*e),
            JsonSetError::NotAnObject { segment, at_target } => SetFailure::NotAnObject {
                segment: *segment as int,
                at_target: *at_target,
            },
            JsonSetError::Print(_) => SetFailure::Print,
        }
    }
}

/// Sets `value` at the key path `parts` of a document. Every value that
/// the path passes through must be an object; where an object lacks the
/// next key, an empty object is put there. The last key is overwritten
/// where the object has it and added where it has not. A well-formed
/// document stays well formed.
pub fn set_json_path(doc: JsonValue, parts: &Vec<String>, value: JsonValue) -> (r: Result<
    JsonValue,
    JsonSetError,
>)
    ensures
        match r {
            Ok(after) => set_path_spec(doc@, texts(parts@), value@) == Ok::<JsonModel, int>(
                after@,
            ),
            Err(e) => e matches JsonSetError::NotAnObject { segment, at_target } && set_path_spec(
                doc@,
                texts(parts@),
                value@,
            ) == Err::<JsonModel, int>(segment as int) && at_target == (segment + 1
                == parts@.len()),
        },
        doc@.wf() && value@.wf() ==> (r matches Ok(after) ==> after@.wf()),
{
    proof {
        if doc@.wf() && value@.wf() {
            lemma_set_path_wf(doc@, texts(parts@), 0, value@);
        }
    }
    match set_from(doc, parts, 0, value) {
        Ok(after) => Ok(after),
        Err(segment) => Err(
            JsonSetError::NotAnObject { segment, at_target: segment == parts.len() - 1 },
        ),
    }
}

/// What setting a value in a JSON text gives: the text is read, or an
/// empty object is taken where there is no text; the key path is split;
/// the value is set; the document is written out indented.
pub open spec fn set_json_spec(content: Option<Seq<char>>, key_path: Seq<char>, value: JsonModel)
    -> Result<Seq<char>, SetFailure> {
    let start = match content {
        Some(text) => parsed_json(text),
        None => Some(JsonModel::Object(Seq::empty())),
    };
    match start {
        None => Err(SetFailure::Parse),
        Some(doc) => match split_spec(key_path) {
            Err(e) => Err(SetFailure::KeyPath(e)),
            Ok(parts) => match set_path_spec(doc, parts, value) {
                Err(at) => Err(
                    SetFailure::NotAnObject { segment: at, at_target: at + 1 == parts.len() },
                ),
                Ok(after) => match pretty_json(after) {
                    None => Err(SetFailure::Print),
                    Some(text) => Ok(text),
                },
            },
        },
    }
}

/// Sets a value inside a JSON file's content and returns the new content.
/// `content` is what the file holds, or `None` where there is no file
/// yet, in which case the document starts as an empty object.
pub fn set_json_value(content: Option<&str>, key_path: &str, value: JsonValue) -> (r: Result<
    String,
    JsonSetError,
>)
    ensures
        match r {
            Ok(text) => set_json_spec(
                match content {
                    Some(c) => Some(c@),
                    None => None,
                },
                key_path@,
                value@,
            ) == Ok::<Seq<char>, SetFailure>(text@),
            Err(e) => set_json_spec(
                match content {
                    Some(c) => Some(c@),
                    None => None,
                },
                key_path@,
                value@,
            ) == Err::<Seq<char>, SetFailure>(e.kind()),
        },
{
    let doc = match content {
        Some(text) => match parse_json(text) {
            Ok(doc) => doc,
            Err(e) => {
                return Err(JsonSetError::Parse(e));
            },
        },
        None => {
            let empty: Vec<(String, JsonValue)> = Vec::new();
            proof {
                lemma_object_view(empty);
                assert(member_models(empty@) =~= Seq::<(Seq<char>, JsonModel)>::empty());
            }
            JsonValue::Object(empty)
        },
    };
    let parts = match split_key_path(key_path) {
        Ok(parts) => parts,
        Err(e) => {
            return Err(JsonSetError::KeyPath(e));
        },
    };
    let after = match set_json_path(doc, &parts, value) {
        Ok(after) => after,
        Err(e) => {
            return Err(e);
        },
    };
    match to_pretty_json(&after) {
        Ok(text) => Ok(text),
        Err(e) => Err(JsonSetError::Print(e)),
    }
}

} // verus!
