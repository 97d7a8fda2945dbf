//! JSON documents: a tree of plain values, read from text or from a parsed
//! `serde_json::Value`.
use vstd::prelude::*;
use vstd::string::*;

use crate::text::{opt_str, opt_text, same, texts};

verus! {

/// A JSON document. An object holds its entries in the order in which they
/// are iterated.
#[derive(Debug, PartialEq, Eq)]
pub enum Json {
    Null,
    Bool(bool),
    /// A number, as a signed 64-bit integer where it is one.
    Number(Option<i64>),
    Text(String),
    Array(Vec<Json>),
    Object(Vec<(String, Json)>),
}

/// The view of a `Json`.
pub enum JsonView {
    Null,
    Bool(bool),
    Number(Option<i64>),
    Text(Seq<char>),
    Array(Seq<JsonView>),
    Object(Seq<(Seq<char>, JsonView)>),
}

impl Json {
    /// The tree of plain values that the document is.
    pub open spec fn tree(&self) -> JsonView
        decreases self,
    {
        match self {
            Json::Null => JsonView::Null,
            Json::Bool(b) => JsonView::Bool(*b),
            Json::Number(n) => JsonView::Number(*n),
            Json::Text(s) => JsonView::Text(s@),
            Json::Array(items) => JsonView::Array(
                Seq::new(
                    items@.len(),
                    |i: int|
                        if 0 <= i < items@.len() {
                            items@[i].tree()
                        } else {
                            JsonView::Null
                        },
                ),
            ),
            Json::Object(entries) => JsonView::Object(
                Seq::new(
                    entries@.len(),
                    |i: int|
                        if 0 <= i < entries@.len() {
                            (entries@[i].0@, entries@[i].1.tree())
                        } else {
                            (Seq::empty(), JsonView::Null)
                        },
                ),
            ),
        }
    }
}

impl View for Json {
    type V = JsonView;

    open spec fn view(&self) -> JsonView {
        self.tree()
    }
}

/// The view of a document that may be missing.
pub open spec fn opt_tree(j: Option<&Json>) -> Option<JsonView> {
    match j {
        Some(d) => Some(d@),
        None => None,
    }
}

/// The views of a list of documents.
pub open spec fn trees(v: Seq<Json>) -> Seq<JsonView> {
    v.map_values(|j: Json| j@)
}

// ---------------------------------------------------------------------------
// From `serde_json`
// ---------------------------------------------------------------------------

/// A parsed JSON document of `serde_json`.
#[verifier::external_type_specification]
#[verifier::external_body]
pub struct ExValue(serde_json::Value);

/// The document that a `serde_json::Value` holds: its variant and what the
/// variant carries, all the way down.
pub uninterp spec fn value_tree(v: serde_json::Value) -> JsonView;

/// The outermost level of a `serde_json::Value`.
pub enum Node {
    Null,
    Bool(bool),
    Number(Option<i64>),
    Text(String),
    Array(Vec<serde_json::Value>),
    Object(Vec<(String, serde_json::Value)>),
}

/// The document whose outermost level is `n`.
pub open spec fn node_tree(n: Node) -> JsonView {
    match n {
        Node::Null => JsonView::Null,
        Node::Bool(b) => JsonView::Bool(b),
        Node::Number(i) => JsonView::Number(i),
        Node::Text(s) => JsonView::Text(s@),
        Node::Array(items) => JsonView::Array(
            items@.map_values(|v: serde_json::Value| value_tree(v)),
        ),
        Node::Object(entries) => JsonView::Object(
            entries@.map_values(|e: (String, serde_json::Value)| (e.0@, value_tree(e.1))),
        ),
    }
}

/// Tells the variants of `serde_json::Value` apart and moves out what each
/// carries: an array's items in their order, and an object's entries in the
/// order of the map's `into_iter`, in which no key occurs twice. A number is
/// read with `Number::as_i64`, which gives nothing for one that is no integer
/// or does not fit.
#[verifier::external_body]
fn open_value(v: serde_json::Value) -> (r: Node)
    ensures
        node_tree(r) == value_tree(v),
        r matches Node::Object(entries) ==> entries@.map_values(
            |e: (String, serde_json::Value)| e.0@,
        ).no_duplicates(),
{
    match v {
        serde_json::Value::Null => Node::Null,
        serde_json::Value::Bool(b) => Node::Bool(b),
        serde_json::Value::Number(n) => Node::Number(n.as_i64()),
        serde_json::Value::String(s) => Node::Text(s),
        serde_json::Value::Array(items) => Node::Array(items),
        serde_json::Value::Object(map) => Node::Object(map.into_iter().collect()),
    }
}

/// No object in the document has a key twice.
pub open spec fn keys_distinct(j: JsonView) -> bool
    decreases j,
{
    match j {
        JsonView::Array(items) => forall|i: int|
            0 <= i < items.len() ==> #[trigger] keys_distinct(items[i]),
        JsonView::Object(entries) => {
            &&& forall|i: int, k: int|
                0 <= i < k < entries.len() ==> (#[trigger] entries[i]).0 != (
                #[trigger] entries[k]).0
            &&& forall|i: int| 0 <= i < entries.len() ==> keys_distinct(#[trigger] entries[i].1)
        },
        _ => true,
    }
}

/// The document that a `serde_json::Value` holds.
pub fn from_value(v: serde_json::Value) -> (r: Json)
    ensures
        r@ == value_tree(v),
        keys_distinct(r@),
    decreases value_tree(v),
{
    let node = open_value(v);
    let ghost whole = node_tree(node);
    match node {
        Node::Null => Json::Null,
        Node::Bool(b) => Json::Bool(b),
        Node::Number(n) => Json::Number(n),
        Node::Text(s) => Json::Text(s),
        Node::Array(items) => {
            let ghost all = items@;
            let mut out: Vec<Json> = Vec::new();
            for x in it: items
                invariant
                    it.seq() == all,
                    whole == value_tree(v),
                    whole == JsonView::Array(
                        all.map_values(|u: serde_json::Value| value_tree(u)),
                    ),
                    out@.len() == it.index(),
                    forall|i: int|
                        0 <= i < it.index() ==> (#[trigger] out@[i])@ == value_tree(all[i])
                            && keys_distinct(out@[i]@),
            {
                assert(x == all[it.index() as int]);
                assert(decreases_to!(whole => whole->Array_0[it.index() as int]));
                out.push(from_value(x));
            }
            let r = Json::Array(out);
            assert(r@->Array_0 =~= whole->Array_0);
            r
        },
        Node::Object(entries) => {
            let ghost all = entries@;
            let mut out: Vec<(String, Json)> = Vec::new();
            for e in it: entries
                invariant
                    it.seq() == all,
                    whole == value_tree(v),
                    whole == JsonView::Object(
                        all.map_values(|u: (String, serde_json::Value)| (u.0@, value_tree(u.1))),
                    ),
                    out@.len() == it.index(),
                    forall|i: int|
                        0 <= i < it.index() ==> (#[trigger] out@[i]).0@ == all[i].0@
                            && out@[i].1@ == value_tree(all[i].1) && keys_distinct(out@[i].1@),
            {
                assert(e == all[it.index() as int]);
                assert(decreases_to!(whole => whole->Object_0[it.index() as int].1));
                let (key, value) = e;
                out.push((key, from_value(value)));
            }
            let r = Json::Object(out);
            assert(r@->Object_0 =~= whole->Object_0);
            let ghost keys = all.map_values(|u: (String, serde_json::Value)| u.0@);
            assert forall|i: int, k: int| 0 <= i < k < r@->Object_0.len() implies (
            #[trigger] r@->Object_0[i]).0 != (#[trigger] r@->Object_0[k]).0 by {
                assert(keys[i] != keys[k]);
            }
            r
        },
    }
}

/// What `serde_json` reads a text as: the document, or the error's message.
pub uninterp spec fn parse_of(text: Seq<char>) -> Result<JsonView, Seq<char>>;

/// `serde_json::from_str`, at `serde_json::Value`. Which texts are documents,
/// and which document each one is, is left to `serde_json`; the result depends
/// on the text alone. The error is handed out as its message.
#[verifier::external_body]
fn parse_value(text: &str) -> (r: Result<serde_json::Value, String>)
    ensures
        match r {
            Ok(v) => parse_of(text@) == Ok::<JsonView, Seq<char>>(value_tree(v)),
            Err(m) => parse_of(text@) == Err::<JsonView, Seq<char>>(m@),
        },
{
    match serde_json::from_str::<serde_json::Value>(text) {
        Ok(v) => Ok(v),
        Err(e) => Err(e.to_string()),
    }
}

/// The view of the result of `parse`.
pub open spec fn parse_view(r: Result<Json, String>) -> Result<JsonView, Seq<char>> {
    match r {
        Ok(j) => Ok(j@),
        Err(m) => Err(m@),
    }
}

/// The document that a text is, or why it is none.
pub fn parse(text: &str) -> (r: Result<Json, String>)
    ensures
        parse_view(r) == parse_of(text@),
        r matches Ok(j) ==> keys_distinct(j@),
{
    match parse_value(text) {
        Ok(v) => Ok(from_value(v)),
        Err(m) => Err(m),
    }
}

/// A `serde_json::Map` that is made with `Map::new` and given one entry with
/// `Map::insert`: an object with that entry alone.
#[verifier::external_body]
pub(crate) fn single_entry(key: String, value: String) -> (r: serde_json::Value)
    ensures
        value_tree(r) == JsonView::Object(seq![(key@, JsonView::Text(value@))]),
{
    let mut obj = serde_json::Map::new();
    obj.insert(key, serde_json::Value::String(value));
    serde_json::Value::Object(obj)
}

// ---------------------------------------------------------------------------
// Reading a document
// ---------------------------------------------------------------------------

/// The value of the first entry with the key.
pub open spec fn entry_of(entries: Seq<(Seq<char>, JsonView)>, key: Seq<char>) -> Option<JsonView>
    decreases entries.len(),
{
    if entries.len() == 0 {
        None
    } else if entries[0].0 == key {
        Some(entries[0].1)
    } else {
        entry_of(entries.drop_first(), key)
    }
}

/// The value of an object's entry; nothing for what is no object.
pub open spec fn field(j: JsonView, key: Seq<char>) -> Option<JsonView> {
    match j {
        JsonView::Object(entries) => entry_of(entries, key),
        _ => None,
    }
}

/// `field`, of a document that may be missing.
pub open spec fn at(j: Option<JsonView>, key: Seq<char>) -> Option<JsonView> {
    match j {
        Some(d) => field(d, key),
        None => None,
    }
}

/// The text, if the document is there and is one.
pub open spec fn text_at(j: Option<JsonView>) -> Option<Seq<char>> {
    match j {
        Some(JsonView::Text(s)) => Some(s),
        _ => None,
    }
}

/// The items, if the document is there and is an array; none otherwise.
pub open spec fn items_at(j: Option<JsonView>) -> Seq<JsonView> {
    match j {
        Some(JsonView::Array(items)) => items,
        _ => Seq::empty(),
    }
}

/// The entries, if the document is there and is an object; none otherwise.
pub open spec fn entries_at(j: Option<JsonView>) -> Seq<(Seq<char>, JsonView)> {
    match j {
        Some(JsonView::Object(entries)) => entries,
        _ => Seq::empty(),
    }
}

/// The integer, if the document is there and is one.
pub open spec fn integer_at(j: Option<JsonView>) -> Option<i64> {
    match j {
        Some(JsonView::Number(n)) => n,
        _ => None,
    }
}

impl Json {
    /// A copy.
    pub fn copy(&self) -> (r: Json)
        ensures
            r@ == self@,
        decreases self@,
    {
        match self {
            Json::Null => Json::Null,
            Json::Bool(b) => Json::Bool(*b),
            Json::Number(n) => Json::Number(*n),
            Json::Text(s) => Json::Text(s.clone()),
            Json::Array(items) => {
                let mut out: Vec<Json> = Vec::new();
                let mut i: usize = 0;
                while i < items.len()
                    invariant
                        *self == Json::Array(*items),
                        i <= items@.len(),
                        out@.len() == i,
                        forall|j: int| 0 <= j < i ==> (#[trigger] out@[j])@ == items@[j]@,
                    decreases items@.len() - i,
                {
                    assert(decreases_to!(self@ => self@->Array_0[i as int]));
                    out.push(items[i].copy());
                    i = i + 1;
                }
                let r = Json::Array(out);
                assert(r@->Array_0 =~= self@->Array_0);
                r
            },
            Json::Object(entries) => {
                let mut out: Vec<(String, Json)> = Vec::new();
                let mut i: usize = 0;
                while i < entries.len()
                    invariant
                        *self == Json::Object(*entries),
                        i <= entries@.len(),
                        out@.len() == i,
                        forall|j: int|
                            0 <= j < i ==> (#[trigger] out@[j]).0@ == entries@[j].0@ && out@[j].1@
                                == entries@[j].1@,
                    decreases entries@.len() - i,
                {
                    assert(decreases_to!(self@ => self@->Object_0[i as int].1));
                    out.push((entries[i].0.clone(), entries[i].1.copy()));
                    i = i + 1;
                }
                let r = Json::Object(out);
                assert(r@->Object_0 =~= self@->Object_0);
                r
            },
        }
    }

    /// The value of an object's entry.
    pub fn get<'a>(&'a self, key: &str) -> (r: Option<&'a Json>)
        ensures
            opt_tree(r) == field(self@, key@),
    {
        match self {
            Json::Object(entries) => {
                let ghost all = self@->Object_0;
                let mut i: usize = 0;
                assert(all.skip(0) =~= all);
                while i < entries.len()
                    invariant
                        self@ == JsonView::Object(all),
                        *self == Json::Object(*entries),
                        i <= entries@.len(),
                        entry_of(all, key@) == entry_of(all.skip(i as int), key@),
                    decreases entries@.len() - i,
                {
                    assert(all.skip(i as int).drop_first() =~= all.skip(i + 1));
                    assert(all[i as int] == (entries@[i as int].0@, entries@[i as int].1@));
                    if same(entries[i].0.as_str(), key) {
                        return Some(&entries[i].1);
                    }
                    i = i + 1;
                }
                None
            },
            _ => None,
        }
    }
}

/// The value of an object's entry, of a document that may be missing.
pub fn dig<'a>(j: Option<&'a Json>, key: &str) -> (r: Option<&'a Json>)
    ensures
        opt_tree(r) == at(opt_tree(j), key@),
{
    match j {
        Some(d) => d.get(key),
        None => None,
    }
}

/// A copy of the text, if the document is there and is one.
pub fn text_copy(j: Option<&Json>) -> (r: Option<String>)
    ensures
        opt_text(r) == text_at(opt_tree(j)),
{
    match j {
        Some(Json::Text(s)) => Some(s.clone()),
        _ => None,
    }
}

/// The text, if the document is there and is one.
pub fn text_ref<'a>(j: Option<&'a Json>) -> (r: Option<&'a str>)
    ensures
        opt_str(r) == text_at(opt_tree(j)),
{
    match j {
        Some(Json::Text(s)) => Some(s.as_str()),
        _ => None,
    }
}

/// The integer, if the document is there and is one.
pub fn integer(j: Option<&Json>) -> (r: Option<i64>)
    ensures
        r == integer_at(opt_tree(j)),
{
    match j {
        Some(Json::Number(n)) => *n,
        _ => None,
    }
}

/// How many items there are.
pub fn item_count(j: Option<&Json>) -> (r: usize)
    ensures
        r == items_at(opt_tree(j)).len(),
{
    match j {
        Some(Json::Array(v)) => v.len(),
        _ => 0,
    }
}

/// The item at an index.
pub fn item<'a>(j: Option<&'a Json>, i: usize) -> (r: &'a Json)
    requires
        i < items_at(opt_tree(j)).len(),
    ensures
        r@ == items_at(opt_tree(j))[i as int],
{
    match j {
        Some(Json::Array(v)) => &v[i],
        _ => vstd::pervasive::unreached(),
    }
}

/// How many entries there are.
pub fn entry_count(j: Option<&Json>) -> (r: usize)
    ensures
        r == entries_at(opt_tree(j)).len(),
{
    match j {
        Some(Json::Object(v)) => v.len(),
        _ => 0,
    }
}

/// The entry at an index.
pub fn entry<'a>(j: Option<&'a Json>, i: usize) -> (r: (&'a str, &'a Json))
    requires
        i < entries_at(opt_tree(j)).len(),
    ensures
        (r.0@, r.1@) == entries_at(opt_tree(j))[i as int],
{
    match j {
        Some(Json::Object(v)) => (v[i].0.as_str(), &v[i].1),
        _ => vstd::pervasive::unreached(),
    }
}

/// The texts among the items.
pub open spec fn text_items(items: Seq<JsonView>) -> Seq<Seq<char>> {
    items.filter_map(|v: JsonView| text_at(Some(v)))
}

/// Copies of the texts among the items.
pub fn text_list(j: Option<&Json>) -> (r: Vec<String>)
    ensures
        texts(r@) == text_items(items_at(opt_tree(j))),
{
    let ghost all = items_at(opt_tree(j));
    let ghost f = |v: JsonView| text_at(Some(v));
    let mut out: Vec<String> = Vec::new();
    let n: usize = item_count(j);
    let mut i: usize = 0;
    assert(texts(out@) =~= all.take(0).filter_map(f));
    while i < n
        invariant
            all == items_at(opt_tree(j)),
            n == all.len(),
            f == (|v: JsonView| text_at(Some(v))),
            i <= n,
            texts(out@) == all.take(i as int).filter_map(f),
        decreases n - i,
    {
        proof {
            all.lemma_filter_map_take_succ(f, i as int);
        }
        let ghost before = texts(out@);
        if let Some(s) = text_copy(Some(item(j, i))) {
            out.push(s);
            assert(texts(out@) =~= before + seq![s@]);
        } else {
            assert(texts(out@) =~= before + Seq::<Seq<char>>::empty());
        }
        i = i + 1;
    }
    assert(all.take(n as int) =~= all);
    out
}

} // verus!
