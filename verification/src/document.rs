//! TOML documents as plain data, and the reading of records out of them.
use vstd::prelude::*;
use vstd::string::*;

use crate::text::{opt_view, same, views};

verus! {

/// One value of a TOML document.
#[derive(Debug)]
pub enum Item {
    Text(String),
    List(Vec<Item>),
    Table(Vec<(String, Item)>),
    /// A number, a truth value or a date.
    Other,
}

/// What an `Item` says.
pub enum ItemModel {
    Text(Seq<char>),
    List(Seq<ItemModel>),
    Table(Seq<(Seq<char>, ItemModel)>),
    Other,
}

impl View for Item {
    type V = ItemModel;

    open spec fn view(&self) -> ItemModel
        decreases self,
    {
        match self {
            Item::Text(s) => ItemModel::Text(s@),
            Item::List(v) => ItemModel::List(
                Seq::new(
                    v@.len(),
                    |i: int|
                        if 0 <= i < v@.len() {
                            v@[i].view()
                        } else {
                            ItemModel::Other
                        },
                ),
            ),
            Item::Table(v) => ItemModel::Table(
                Seq::new(
                    v@.len(),
                    |i: int|
                        if 0 <= i < v@.len() {
                            (v@[i].0@, v@[i].1.view())
                        } else {
                            (Seq::empty(), ItemModel::Other)
                        },
                ),
            ),
            Item::Other => ItemModel::Other,
        }
    }
}

/// `toml::Value`, one value of a TOML document.
#[verifier::external_type_specification]
#[verifier::external_body]
pub struct ExValue(toml::Value);

/// A TOML value with its outermost layer taken off.
pub enum Layer {
    Text(String),
    List(Vec<toml::Value>),
    Table(Vec<(String, toml::Value)>),
    Other,
}

/// What a TOML value holds. A table holds its entries in the order of their keys.
pub uninterp spec fn toml_contents(value: toml::Value) -> ItemModel;

/// What reading a text as a TOML document gives: its table, or what is wrong with it.
pub uninterp spec fn toml_document(text: Seq<char>) -> Result<ItemModel, Seq<char>>;

/// What a value holds whose outermost layer was taken off.
pub open spec fn layer_contents(layer: Layer) -> ItemModel {
    match layer {
        Layer::Text(s) => ItemModel::Text(s@),
        Layer::List(v) => ItemModel::List(Seq::new(v@.len(), |i: int| toml_contents(v@[i]))),
        Layer::Table(v) => ItemModel::Table(
            Seq::new(v@.len(), |i: int| (v@[i].0@, toml_contents(v@[i].1))),
        ),
        Layer::Other => ItemModel::Other,
    }
}

/// `str::parse` into a `toml::Table`. Claims that the table, or the message of the error, depends
/// on the text alone.
#[verifier::external_body]
fn parse_toml(text: &str) -> (r: Result<toml::Value, String>)
    ensures
        match r {
            Ok(value) => toml_document(text@) == Ok::<ItemModel, Seq<char>>(toml_contents(value)),
            Err(e) => toml_document(text@) == Err::<ItemModel, Seq<char>>(e@),
        },
{
    match text.parse::<toml::Table>() {
        Ok(table) => Ok(toml::Value::Table(table)),
        Err(e) => Err(e.to_string()),
    }
}

/// The variants of `toml::Value`, told apart. Claims that they hold what the value holds.
#[verifier::external_body]
fn layer_of(value: toml::Value) -> (r: Layer)
    ensures
        layer_contents(r) == toml_contents(value),
{
    match value {
        toml::Value::String(s) => Layer::Text(s),
        toml::Value::Array(v) => Layer::List(v),
        toml::Value::Table(t) => Layer::Table(t.into_iter().collect()),
        toml::Value::Integer(_) => Layer::Other,
        toml::Value::Float(_) => Layer::Other,
        toml::Value::Boolean(_) => Layer::Other,
        toml::Value::Datetime(_) => Layer::Other,
    }
}

fn item_of(value: toml::Value) -> (r: Item)
    ensures
        r@ == toml_contents(value),
    decreases toml_contents(value),
{
    let ghost whole = toml_contents(value);
    match layer_of(value) {
        Layer::Text(s) => Item::Text(s),
        Layer::List(values) => {
            let ghost parts = Seq::new(values@.len(), |i: int| toml_contents(values@[i]));
            let mut out: Vec<Item> = Vec::new();
            for entry in it: values
                invariant
                    whole == toml_contents(value),
                    whole == ItemModel::List(parts),
                    parts.len() == it.seq().len(),
                    forall|k: int|
                        0 <= k < parts.len() ==> #[trigger] parts[k] == toml_contents(it.seq()[k]),
                    out@.len() == it.index(),
                    forall|k: int| 0 <= k < out@.len() ==> (#[trigger] out@[k])@ == parts[k],
            {
                proof {
                    let part = parts[it.index() as int];
                    assert(toml_contents(entry) == part);
                    assert(decreases_to!(whole => whole->List_0));
                    assert(decreases_to!(parts => part));
                }
                out.push(item_of(entry));
            }
            let r = Item::List(out);
            assert(r@->List_0 =~= parts);
            r
        },
        Layer::Table(entries) => {
            let ghost parts = Seq::new(
                entries@.len(),
                |i: int| (entries@[i].0@, toml_contents(entries@[i].1)),
            );
            let mut out: Vec<(String, Item)> = Vec::new();
            for entry in it: entries
                invariant
                    whole == toml_contents(value),
                    whole == ItemModel::Table(parts),
                    parts.len() == it.seq().len(),
                    forall|k: int|
                        0 <= k < parts.len() ==> #[trigger] parts[k] == (
                            it.seq()[k].0@,
                            toml_contents(it.seq()[k].1),
                        ),
                    out@.len() == it.index(),
                    forall|k: int|
                        0 <= k < out@.len() ==> ((#[trigger] out@[k]).0@, out@[k].1@) == parts[k],
            {
                let (key, held) = entry;
                proof {
                    let part = parts[it.index() as int];
                    assert((key@, toml_contents(held)) == part);
                    assert(decreases_to!(whole => whole->Table_0));
                    assert(decreases_to!(parts => part));
                    assert(decreases_to!(part => part.1));
                }
                out.push((key, item_of(held)));
            }
            let r = Item::Table(out);
            assert(r@->Table_0 =~= parts);
            r
        },
        Layer::Other => Item::Other,
    }
}

/// Reads a text as a TOML document.
pub fn read_toml(text: &str) -> (r: Result<Item, String>)
    ensures
        match toml_document(text@) {
            Ok(model) => r is Ok && r->Ok_0@ == model,
            Err(e) => r is Err && r->Err_0@ == e,
        },
{
    match parse_toml(text) {
        Ok(value) => Ok(item_of(value)),
        Err(e) => Err(e),
    }
}

/// The message for a member of the wrong type.
pub open spec fn wrong_type(name: Seq<char>, wanted: Seq<char>) -> Seq<char> {
    "invalid type for `"@ + name + "`, expected "@ + wanted
}

/// The message for a member that a record does not have.
pub open spec fn unknown_field(name: Seq<char>) -> Seq<char> {
    "unknown field `"@ + name + "`"@
}

/// The first entry under `key`, from entry `from` on.
pub open spec fn entry_from(entries: Seq<(Seq<char>, ItemModel)>, key: Seq<char>, from: int) -> Option<
    ItemModel,
>
    decreases entries.len() - from,
{
    if from < 0 || from >= entries.len() {
        None
    } else if entries[from].0 == key {
        Some(entries[from].1)
    } else {
        entry_from(entries, key, from + 1)
    }
}

/// Member `i` of a record with the members `names`. A record stands in a document as a table, or
/// as the list of its members in their order.
pub open spec fn member(record: ItemModel, names: Seq<&'static str>, i: int) -> Option<ItemModel> {
    match record {
        ItemModel::Table(entries) => entry_from(entries, names[i]@, 0),
        ItemModel::List(values) => if i < values.len() {
            Some(values[i])
        } else {
            None
        },
        _ => None,
    }
}

/// Whether an item can be a record with the members `names`: a list must hold all of them.
pub open spec fn is_record(record: ItemModel, names: Seq<&'static str>) -> bool {
    match record {
        ItemModel::Table(_) => true,
        ItemModel::List(values) => values.len() >= names.len(),
        _ => false,
    }
}

/// An optional text.
pub open spec fn text_member(item: Option<ItemModel>, name: Seq<char>) -> Result<
    Option<Seq<char>>,
    Seq<char>,
> {
    match item {
        None => Ok(None),
        Some(ItemModel::Text(s)) => Ok(Some(s)),
        Some(_) => Err(wrong_type(name, "a string"@)),
    }
}

/// Items that are all texts.
pub open spec fn all_texts(items: Seq<ItemModel>) -> bool {
    forall|i: int| 0 <= i < items.len() ==> (#[trigger] items[i]) is Text
}

/// The texts of such items.
pub open spec fn texts_of(items: Seq<ItemModel>) -> Seq<Seq<char>> {
    Seq::new(items.len(), |i: int| items[i]->Text_0)
}

/// An optional list of texts.
pub open spec fn list_member(item: Option<ItemModel>, name: Seq<char>) -> Result<
    Option<Seq<Seq<char>>>,
    Seq<char>,
> {
    match item {
        None => Ok(None),
        Some(ItemModel::List(values)) => if all_texts(values) {
            Ok(Some(texts_of(values)))
        } else {
            Err(wrong_type(name, "a list of strings"@))
        },
        Some(_) => Err(wrong_type(name, "a list of strings"@)),
    }
}

/// The message for a member of the wrong type.
pub fn wrong_type_text(name: &str, wanted: &str) -> (r: String)
    ensures
        r@ == wrong_type(name@, wanted@),
{
    let mut out = "invalid type for `".to_owned();
    out.append(name);
    out.append("`, expected ");
    out.append(wanted);
    out
}

/// The message for a member that a record does not have.
pub fn unknown_field_text(name: &str) -> (r: String)
    ensures
        r@ == unknown_field(name@),
{
    let mut out = "unknown field `".to_owned();
    out.append(name);
    out.append("`");
    out
}

/// The entries that a table is seen to hold.
pub open spec fn table_entries(entries: Seq<(String, Item)>) -> Seq<(Seq<char>, ItemModel)> {
    Seq::new(entries.len(), |i: int| (entries[i].0@, entries[i].1@))
}

/// A table is seen to hold its entries.
pub proof fn lemma_table_view(item: Item, entries: Vec<(String, Item)>)
    requires
        item == Item::Table(entries),
    ensures
        item@ == ItemModel::Table(table_entries(entries@)),
{
    let held = item@->Table_0;
    reveal_with_fuel(<Item as View>::view, 2);
    assert(held =~= table_entries(entries@));
}

/// The first entry of a table under `key`.
fn find_entry<'a>(entries: &'a Vec<(String, Item)>, key: &str) -> (r: Option<&'a Item>)
    ensures
        match r {
            Some(item) => entry_from(table_entries(entries@), key@, 0) == Some(item@),
            None => entry_from(table_entries(entries@), key@, 0) is None,
        },
{
    let ghost model = table_entries(entries@);
    let mut i: usize = 0;
    while i < entries.len()
        invariant
            i <= entries@.len(),
            model == table_entries(entries@),
            entry_from(model, key@, 0) == entry_from(model, key@, i as int),
        decreases entries@.len() - i,
    {
        if same(&entries[i].0, key) {
            return Some(&entries[i].1);
        }
        i += 1;
    }
    None
}

impl Item {
    /// Member `i` of a record with the members `names`.
    pub fn member(&self, names: &[&'static str], i: usize) -> (r: Option<&Item>)
        requires
            i < names@.len(),
        ensures
            match r {
                Some(item) => member(self@, names@, i as int) == Some(item@),
                None => member(self@, names@, i as int) is None,
            },
    {
        match self {
            Item::Table(entries) => {
                proof {
                    lemma_table_view(*self, *entries);
                }
                find_entry(entries, names[i])
            },
            Item::List(values) => {
                assert(self@->List_0.len() == values@.len());
                if i < values.len() {
                    assert(self@->List_0[i as int] == values@[i as int]@);
                    Some(&values[i])
                } else {
                    None
                }
            },
            _ => None,
        }
    }

    /// Whether this can be a record with the members `names`.
    pub fn is_record(&self, names: &[&'static str]) -> (r: bool)
        ensures
            r == is_record(self@, names@),
    {
        match self {
            Item::Table(_) => true,
            Item::List(values) => {
                assert(self@->List_0.len() == values@.len());
                values.len() >= names.len()
            },
            _ => false,
        }
    }
}

/// The view of an optional list of texts.
pub open spec fn opt_views(o: Option<Vec<String>>) -> Option<Seq<Seq<char>>> {
    match o {
        Some(v) => Some(views(v@)),
        None => None,
    }
}

/// The view of an optional item.
pub open spec fn opt_item(o: Option<&Item>) -> Option<ItemModel> {
    match o {
        Some(item) => Some(item@),
        None => None,
    }
}

/// Reads an optional text.
pub fn read_text(item: Option<&Item>, name: &str) -> (r: Result<Option<String>, String>)
    ensures
        match text_member(opt_item(item), name@) {
            Ok(s) => r is Ok && opt_view(r->Ok_0) == s,
            Err(e) => r is Err && r->Err_0@ == e,
        },
{
    match item {
        None => Ok(None),
        Some(Item::Text(s)) => Ok(Some(s.clone())),
        Some(_) => Err(wrong_type_text(name, "a string")),
    }
}

/// Reads an optional list of texts.
pub fn read_list(item: Option<&Item>, name: &str) -> (r: Result<Option<Vec<String>>, String>)
    ensures
        match list_member(opt_item(item), name@) {
            Ok(v) => r is Ok && opt_views(r->Ok_0) == v,
            Err(e) => r is Err && r->Err_0@ == e,
        },
{
    match item {
        None => Ok(None),
        Some(Item::List(values)) => {
            let ghost model = item->0@->List_0;
            assert(model.len() == values@.len());
            let mut out: Vec<String> = Vec::new();
            let mut i: usize = 0;
            while i < values.len()
                invariant
                    i <= values@.len(),
                    model.len() == values@.len(),
                    opt_item(item) == Some(ItemModel::List(model)),
                    forall|k: int| 0 <= k < model.len() ==> #[trigger] model[k] == values@[k]@,
                    out@.len() == i,
                    forall|k: int|
                        0 <= k < i ==> (#[trigger] model[k]) is Text && out@[k]@
                            == model[k]->Text_0,
                decreases values@.len() - i,
            {
                match &values[i] {
                    Item::Text(s) => {
                        assert(model[i as int] == ItemModel::Text(s@));
                        out.push(s.clone());
                    },
                    _ => {
                        assert(!(model[i as int] is Text));
                        return Err(wrong_type_text(name, "a list of strings"));
                    },
                }
                i += 1;
            }
            assert(views(out@) =~= texts_of(model));
            Ok(Some(out))
        },
        Some(_) => Err(wrong_type_text(name, "a list of strings")),
    }
}

} // verus!
