//! JSON documents, read by `serde_json` and held as plain values.

use vstd::prelude::*;

use crate::text;

verus! {

/// What a JSON document holds, as a value of specifications.
pub enum JsonTree {
    Null,
    Bool(bool),
    /// A number, where it is a whole one of 64 bits without a sign.
    Number(Option<u64>),
    Text(Seq<char>),
    Array(Seq<JsonTree>),
    /// The fields, by name.
    Object(Seq<(Seq<char>, JsonTree)>),
}

/// A JSON document.
#[derive(Debug)]
pub enum Json {
    Null,
    Bool(bool),
    /// A number, where it is a whole one of 64 bits without a sign.
    Number(Option<u64>),
    Text(String),
    Array(Vec<Json>),
    /// The fields, by name.
    Object(Vec<(String, Json)>),
}

impl Json {
    pub open spec fn tree(self) -> JsonTree
        decreases self,
    {
        match self {
            Json::Null => JsonTree::Null,
            Json::Bool(b) => JsonTree::Bool(b),
            Json::Number(n) => JsonTree::Number(n),
            Json::Text(s) => JsonTree::Text(s@),
            Json::Array(items) => JsonTree::Array(
                Seq::new(
                    items@.len(),
                    |i: int|
                        if 0 <= i < items@.len() {
                            items@[i].tree()
                        } else {
                            JsonTree::Null
                        },
                ),
            ),
            Json::Object(fields) => JsonTree::Object(
                Seq::new(
                    fields@.len(),
                    |i: int|
                        if 0 <= i < fields@.len() {
                            (fields@[i].0@, fields@[i].1.tree())
                        } else {
                            (Seq::empty(), JsonTree::Null)
                        },
                ),
            ),
        }
    }
}

/// `serde_json`'s own document.
#[verifier::external_type_specification]
#[verifier::external_body]
pub struct ExJsonValue(serde_json::Value);

/// Why `serde_json` did not read a text.
#[verifier::external_type_specification]
#[verifier::external_body]
pub struct ExJsonError(serde_json::Error);

/// The document that a text spells, where it is JSON.
pub uninterp spec fn json_document(text: Seq<char>) -> Option<JsonTree>;

/// What a document of `serde_json` holds.
pub uninterp spec fn json_tree(v: serde_json::Value) -> JsonTree;

/// The outermost layer of a document of `serde_json`.
enum Node {
    Null,
    Bool(bool),
    Number(Option<u64>),
    Text(String),
    Array(Vec<serde_json::Value>),
    Object(Vec<(String, serde_json::Value)>),
}

impl Node {
    /// This is the outermost layer of `t`.
    spec fn tops(self, t: JsonTree) -> bool {
        match self {
            Node::Null => t == JsonTree::Null,
            Node::Bool(b) => t == JsonTree::Bool(b),
            Node::Number(n) => t == JsonTree::Number(n),
            Node::Text(s) => t == JsonTree::Text(s@),
            Node::Array(items) => {
                &&& t matches JsonTree::Array(parts)
                &&& parts.len() == items@.len()
                &&& forall|i: int| 0 <= i < parts.len() ==> #[trigger] parts[i] == json_tree(items@[i])
            },
            Node::Object(fields) => {
                &&& t matches JsonTree::Object(parts)
                &&& parts.len() == fields@.len()
                &&& forall|i: int|
                    0 <= i < parts.len() ==> #[trigger] parts[i] == (fields@[i].0@, json_tree(fields@[i].1))
            },
        }
    }
}

/// `serde_json::from_str`, asked for a `serde_json::Value`: the text is JSON
/// exactly where a document comes back, which is then the one it spells.
#[verifier::external_body]
fn read_value(text: &str) -> (r: Result<serde_json::Value, serde_json::Error>)
    ensures
        r is Ok <==> json_document(text@) is Some,
        r is Ok ==> json_tree(r->Ok_0) == json_document(text@)->0,
{
    serde_json::from_str::<serde_json::Value>(text)
}

/// The variants of `serde_json::Value` told apart. A number is taken by
/// `Number::as_u64`, which gives whole numbers of 64 bits without a sign; the
/// fields of an object are taken as its map hands them out. That a map holds no
/// name twice is left unsaid: nothing here rests on it.
#[verifier::external_body]
fn open_value(v: serde_json::Value) -> (n: Node)
    ensures
        n.tops(json_tree(v)),
{
    match v {
        serde_json::Value::Null => Node::Null,
        serde_json::Value::Bool(b) => Node::Bool(b),
        serde_json::Value::Number(n) => Node::Number(n.as_u64()),
        serde_json::Value::String(s) => Node::Text(s),
        serde_json::Value::Array(items) => Node::Array(items),
        serde_json::Value::Object(fields) => Node::Object(fields.into_iter().collect()),
    }
}

/// Takes a document of `serde_json` apart, down to its leaves.
fn import(v: serde_json::Value) -> (j: Json)
    ensures
        j.tree() == json_tree(v),
    decreases json_tree(v),
{
    let ghost t = json_tree(v);
    match open_value(v) {
        Node::Null => Json::Null,
        Node::Bool(b) => Json::Bool(b),
        Node::Number(n) => Json::Number(n),
        Node::Text(s) => Json::Text(s),
        Node::Array(items) => {
            let ghost parts = t->Array_0;
            let ghost given = items@;
            let mut rest: Vec<serde_json::Value> = items;
            let mut back: Vec<Json> = Vec::new();
            while rest.len() > 0
                invariant
                    t == JsonTree::Array(parts),
                    t == json_tree(v),
                    parts.len() == given.len(),
                    forall|i: int| 0 <= i < parts.len() ==> #[trigger] parts[i] == json_tree(given[i]),
                    rest@ == given.take(rest@.len() as int),
                    rest@.len() + back@.len() == given.len(),
                    forall|i: int|
                        0 <= i < back@.len() ==> (#[trigger] back@[i]).tree() == parts[given.len() - 1 - i],
                decreases rest@.len(),
            {
                let ghost n = rest@.len();
                let last = rest.pop().unwrap();
                proof {
                    assert(last == given[n - 1]);
                    assert(parts[n - 1] == json_tree(given[n - 1]));
                    assert(decreases_to!(t => t->Array_0));
                    assert(decreases_to!(parts => parts[n - 1]));
                }
                let part: Json = import(last);
                back.push(part);
                assert(rest@ =~= given.take(rest@.len() as int));
            }
            let mut out: Vec<Json> = Vec::new();
            while back.len() > 0
                invariant
                    parts.len() == given.len(),
                    out@.len() + back@.len() == parts.len(),
                    forall|i: int|
                        0 <= i < back@.len() ==> (#[trigger] back@[i]).tree() == parts[parts.len() - 1 - i],
                    forall|i: int| 0 <= i < out@.len() ==> (#[trigger] out@[i]).tree() == parts[i],
                decreases back@.len(),
            {
                let next: Json = back.pop().unwrap();
                out.push(next);
            }
            let j: Json = Json::Array(out);
            assert(j.tree()->Array_0 =~= parts);
            j
        },
        Node::Object(fields) => {
            let ghost parts = t->Object_0;
            let ghost given = fields@;
            let mut rest: Vec<(String, serde_json::Value)> = fields;
            let mut back: Vec<(String, Json)> = Vec::new();
            while rest.len() > 0
                invariant
                    t == JsonTree::Object(parts),
                    t == json_tree(v),
                    parts.len() == given.len(),
                    forall|i: int|
                        0 <= i < parts.len() ==> #[trigger] parts[i] == (given[i].0@, json_tree(given[i].1)),
                    rest@ == given.take(rest@.len() as int),
                    rest@.len() + back@.len() == given.len(),
                    forall|i: int|
                        0 <= i < back@.len() ==> ((#[trigger] back@[i]).0@, back@[i].1.tree())
                            == parts[given.len() - 1 - i],
                decreases rest@.len(),
            {
                let ghost n = rest@.len();
                let last = rest.pop().unwrap();
                proof {
                    assert(last == given[n - 1]);
                    assert(parts[n - 1] == (given[n - 1].0@, json_tree(given[n - 1].1)));
                    assert(decreases_to!(t => t->Object_0));
                    assert(decreases_to!(parts => parts[n - 1]));
                    assert(decreases_to!(parts[n - 1] => parts[n - 1].1));
                }
                let part: Json = import(last.1);
                back.push((last.0, part));
                assert(rest@ =~= given.take(rest@.len() as int));
            }
            let mut out: Vec<(String, Json)> = Vec::new();
            while back.len() > 0
                invariant
                    parts.len() == given.len(),
                    out@.len() + back@.len() == parts.len(),
                    forall|i: int|
                        0 <= i < back@.len() ==> ((#[trigger] back@[i]).0@, back@[i].1.tree())
                            == parts[parts.len() - 1 - i],
                    forall|i: int|
                        0 <= i < out@.len() ==> ((#[trigger] out@[i]).0@, out@[i].1.tree()) == parts[i],
                decreases back@.len(),
            {
                let next: (String, Json) = back.pop().unwrap();
                out.push(next);
            }
            let j: Json = Json::Object(out);
            assert(j.tree()->Object_0 =~= parts);
            j
        },
    }
}

/// Reads a text as JSON.
pub fn parse(text: &str) -> (r: Option<Json>)
    ensures
        r is Some <==> json_document(text@) is Some,
        r is Some ==> r->0.tree() == json_document(text@)->0,
{
    match read_value(text) {
        Ok(v) => Some(import(v)),
        Err(_) => None,
    }
}

/// The first of the fields that is named `key`.
pub open spec fn field_named(fields: Seq<(Seq<char>, JsonTree)>, key: Seq<char>) -> Option<JsonTree>
    decreases fields.len(),
{
    if fields.len() == 0 {
        None
    } else if fields[0].0 == key {
        Some(fields[0].1)
    } else {
        field_named(fields.drop_first(), key)
    }
}

impl JsonTree {
    /// The field `key` of an object.
    pub open spec fn field(self, key: Seq<char>) -> Option<JsonTree> {
        match self {
            JsonTree::Object(fields) => field_named(fields, key),
            _ => None,
        }
    }

    /// The text of field `key`, where it is text.
    pub open spec fn text_field(self, key: Seq<char>) -> Option<Seq<char>> {
        match self.field(key) {
            Some(JsonTree::Text(s)) => Some(s),
            _ => None,
        }
    }

    /// The number of field `key`, where it is a whole one without a sign.
    pub open spec fn number_field(self, key: Seq<char>) -> Option<u64> {
        match self.field(key) {
            Some(JsonTree::Number(n)) => n,
            _ => None,
        }
    }
}

impl Json {
    /// The field `key` of an object.
    pub fn get(&self, key: &str) -> (r: Option<&Json>)
        ensures
            r is Some <==> self.tree().field(key@) is Some,
            r is Some ==> Some(r->0.tree()) == self.tree().field(key@),
    {
        match self {
            Json::Object(fields) => {
                let ghost parts = self.tree()->Object_0;
                let mut i: usize = 0;
                assert(parts.skip(0) =~= parts);
                while i < fields.len()
                    invariant
                        i <= fields@.len(),
                        parts.len() == fields@.len(),
                        forall|k: int|
                            0 <= k < parts.len() ==> #[trigger] parts[k] == (fields@[k].0@, fields@[k].1.tree()),
                        self.tree() == JsonTree::Object(parts),
                        field_named(parts.skip(i as int), key@) == field_named(parts, key@),
                    decreases fields.len() - i,
                {
                    proof {
                        assert(parts.skip(i as int)[0] == parts[i as int]);
                        assert(parts.skip(i as int).drop_first() =~= parts.skip(i + 1));
                    }
                    if text::same(fields[i].0.as_str(), key) {
                        return Some(&fields[i].1);
                    }
                    i = i + 1;
                }
                None
            },
            _ => None,
        }
    }

    /// The text of field `key`, where it is text.
    pub fn get_text(&self, key: &str) -> (r: Option<String>)
        ensures
            r is Some <==> self.tree().text_field(key@) is Some,
            r is Some ==> Some(r->0@) == self.tree().text_field(key@),
    {
        match self.get(key) {
            Some(Json::Text(s)) => Some(s.clone()),
            _ => None,
        }
    }

    /// The number of field `key`, where it is a whole one without a sign.
    pub fn get_number(&self, key: &str) -> (r: Option<u64>)
        ensures
            r == self.tree().number_field(key@),
    {
        match self.get(key) {
            Some(Json::Number(n)) => *n,
            _ => None,
        }
    }
}

} // verus!
