//! JSON texts as plain data.
use vstd::prelude::*;

use crate::text::same;

verus! {

/// One JSON value.
#[derive(Debug)]
pub enum Json {
    Text(String),
    /// A number, as the bit pattern of the double that is nearest to it.
    Number(u64),
    List(Vec<Json>),
    Object(Vec<(String, Json)>),
    /// Null or a truth value.
    Other,
}

/// What a `Json` says.
pub enum JsonModel {
    Text(Seq<char>),
    Number(u64),
    List(Seq<JsonModel>),
    Object(Seq<(Seq<char>, JsonModel)>),
    Other,
}

impl View for Json {
    type V = JsonModel;

    open spec fn view(&self) -> JsonModel
        decreases self,
    {
        match self {
            Json::Text(s) => JsonModel::Text(s@),
            Json::Number(bits) => JsonModel::Number(*bits),
            Json::List(v) => JsonModel::List(
                Seq::new(
                    v@.len(),
                    |i: int|
                        if 0 <= i < v@.len() {
                            v@[i].view()
                        } else {
                            JsonModel::Other
                        },
                ),
            ),
            Json::Object(v) => JsonModel::Object(
                Seq::new(
                    v@.len(),
                    |i: int|
                        if 0 <= i < v@.len() {
                            (v@[i].0@, v@[i].1.view())
                        } else {
                            (Seq::empty(), JsonModel::Other)
                        },
                ),
            ),
            Json::Other => JsonModel::Other,
        }
    }
}

/// `serde_json::Value`, one JSON value.
#[verifier::external_type_specification]
#[verifier::external_body]
pub struct ExValue(serde_json::Value);

/// A JSON value with its outermost layer taken off.
pub enum JsonLayer {
    Text(String),
    Number(u64),
    List(Vec<serde_json::Value>),
    Object(Vec<(String, serde_json::Value)>),
    Other,
}

/// What a JSON value holds. An object holds its entries in the order of their keys, a number the
/// bit pattern of the double nearest to it.
pub uninterp spec fn json_contents(value: serde_json::Value) -> JsonModel;

/// What reading a text as JSON gives: its value, or what is wrong with it.
pub uninterp spec fn json_document(text: Seq<char>) -> Result<JsonModel, Seq<char>>;

/// What a value holds whose outermost layer was taken off.
pub open spec fn json_layer_contents(layer: JsonLayer) -> JsonModel {
    match layer {
        JsonLayer::Text(s) => JsonModel::Text(s@),
        JsonLayer::Number(bits) => JsonModel::Number(bits),
        JsonLayer::List(v) => JsonModel::List(Seq::new(v@.len(), |i: int| json_contents(v@[i]))),
        JsonLayer::Object(v) => JsonModel::Object(
            Seq::new(v@.len(), |i: int| (v@[i].0@, json_contents(v@[i].1))),
        ),
        JsonLayer::Other => JsonModel::Other,
    }
}

/// `serde_json::from_str` into a `serde_json::Value`. Claims that the value, or the message of
/// the error, depends on the text alone.
#[verifier::external_body]
fn parse_json(text: &str) -> (r: Result<serde_json::Value, String>)
    ensures
        match r {
            Ok(value) => json_document(text@) == Ok::<JsonModel, Seq<char>>(json_contents(value)),
            Err(e) => json_document(text@) == Err::<JsonModel, Seq<char>>(e@),
        },
{
    match serde_json::from_str::<serde_json::Value>(text) {
        Ok(value) => Ok(value),
        Err(e) => Err(e.to_string()),
    }
}

/// The variants of `serde_json::Value`, told apart; a number by `serde_json::Number::as_f64`.
/// Claims that they hold what the value holds. A number that no double stands for, which this
/// build of the crate does not make, counts as no number.
#[verifier::external_body]
fn json_layer_of(value: serde_json::Value) -> (r: JsonLayer)
    ensures
        json_layer_contents(r) == json_contents(value),
{
    match value {
        serde_json::Value::String(s) => JsonLayer::Text(s),
        serde_json::Value::Number(n) => match n.as_f64() {
            Some(x) => JsonLayer::Number(x.to_bits()),
            None => JsonLayer::Other,
        },
        serde_json::Value::Array(v) => JsonLayer::List(v),
        serde_json::Value::Object(m) => JsonLayer::Object(m.into_iter().collect()),
        serde_json::Value::Bool(_) => JsonLayer::Other,
        serde_json::Value::Null => JsonLayer::Other,
    }
}

fn json_of(value: serde_json::Value) -> (r: Json)
    ensures
        r@ == json_contents(value),
    decreases json_contents(value),
{
    let ghost whole = json_contents(value);
    match json_layer_of(value) {
        JsonLayer::Text(s) => Json::Text(s),
        JsonLayer::Number(bits) => Json::Number(bits),
        JsonLayer::List(values) => {
            let ghost parts = Seq::new(values@.len(), |i: int| json_contents(values@[i]));
            let mut out: Vec<Json> = Vec::new();
            for entry in it: values
                invariant
                    whole == json_contents(value),
                    whole == JsonModel::List(parts),
                    parts.len() == it.seq().len(),
                    forall|k: int|
                        0 <= k < parts.len() ==> #[trigger] parts[k] == json_contents(it.seq()[k]),
                    out@.len() == it.index(),
                    forall|k: int| 0 <= k < out@.len() ==> (#[trigger] out@[k])@ == parts[k],
            {
                proof {
                    let part = parts[it.index() as int];
                    assert(json_contents(entry) == part);
                    assert(decreases_to!(whole => whole->List_0));
                    assert(decreases_to!(parts => part));
                }
                out.push(json_of(entry));
            }
            let r = Json::List(out);
            assert(r@->List_0 =~= parts);
            r
        },
        JsonLayer::Object(entries) => {
            let ghost parts = Seq::new(
                entries@.len(),
                |i: int| (entries@[i].0@, json_contents(entries@[i].1)),
            );
            let mut out: Vec<(String, Json)> = Vec::new();
            for entry in it: entries
                invariant
                    whole == json_contents(value),
                    whole == JsonModel::Object(parts),
                    parts.len() == it.seq().len(),
                    forall|k: int|
                        0 <= k < parts.len() ==> #[trigger] parts[k] == (
                            it.seq()[k].0@,
                            json_contents(it.seq()[k].1),
                        ),
                    out@.len() == it.index(),
                    forall|k: int|
                        0 <= k < out@.len() ==> ((#[trigger] out@[k]).0@, out@[k].1@) == parts[k],
            {
                let (key, held) = entry;
                proof {
                    let part = parts[it.index() as int];
                    assert((key@, json_contents(held)) == part);
                    assert(decreases_to!(whole => whole->Object_0));
                    assert(decreases_to!(parts => part));
                    assert(decreases_to!(part => part.1));
                }
                out.push((key, json_of(held)));
            }
            let r = Json::Object(out);
            assert(r@->Object_0 =~= parts);
            r
        },
        JsonLayer::Other => Json::Other,
    }
}

/// Reads a text as JSON.
pub fn read_json(text: &str) -> (r: Result<Json, String>)
    ensures
        match json_document(text@) {
            Ok(model) => r is Ok && r->Ok_0@ == model,
            Err(e) => r is Err && r->Err_0@ == e,
        },
{
    match parse_json(text) {
        Ok(value) => Ok(json_of(value)),
        Err(e) => Err(e),
    }
}

/// The first entry under `key`, from entry `from` on.
pub open spec fn key_from(entries: Seq<(Seq<char>, JsonModel)>, key: Seq<char>, from: int) -> Option<
    JsonModel,
>
    decreases entries.len() - from,
{
    if from < 0 || from >= entries.len() {
        None
    } else if entries[from].0 == key {
        Some(entries[from].1)
    } else {
        key_from(entries, key, from + 1)
    }
}

/// What an object holds under `key`; nothing where the value is no object.
pub open spec fn under_key(value: JsonModel, key: Seq<char>) -> Option<JsonModel> {
    match value {
        JsonModel::Object(entries) => key_from(entries, key, 0),
        _ => None,
    }
}

/// The entries that an object is seen to hold.
pub open spec fn object_entries(entries: Seq<(String, Json)>) -> Seq<(Seq<char>, JsonModel)> {
    Seq::new(entries.len(), |i: int| (entries[i].0@, entries[i].1@))
}

proof fn lemma_object_view(value: Json, entries: Vec<(String, Json)>)
    requires
        value == Json::Object(entries),
    ensures
        value@ == JsonModel::Object(object_entries(entries@)),
{
    reveal_with_fuel(<Json as View>::view, 2);
    assert(value@->Object_0 =~= object_entries(entries@));
}

impl Json {
    /// What an object holds under `key`.
    pub fn get(&self, key: &str) -> (r: Option<&Json>)
        ensures
            match r {
                Some(value) => under_key(self@, key@) == Some(value@),
                None => under_key(self@, key@) is None,
            },
    {
        match self {
            Json::Object(entries) => {
                proof {
                    lemma_object_view(*self, *entries);
                }
                let ghost model = object_entries(entries@);
                let mut i: usize = 0;
                while i < entries.len()
                    invariant
                        i <= entries@.len(),
                        self@ == JsonModel::Object(model),
                        model == object_entries(entries@),
                        key_from(model, key@, 0) == key_from(model, key@, i as int),
                    decreases entries@.len() - i,
                {
                    if same(&entries[i].0, key) {
                        return Some(&entries[i].1);
                    }
                    i += 1;
                }
                None
            },
            _ => None,
        }
    }
}

} // verus!
