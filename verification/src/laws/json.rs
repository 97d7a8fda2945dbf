//! Reading a JSON document.
use vstd::prelude::*;
use vstd::string::*;

use crate::db::k8s_tekton::{
    condition_of, condition_reason, condition_reason_of, condition_status, condition_status_of,
    first_condition, json_get, json_str, path_of,
};
use crate::json::{
    at, dig, entries_at, entry, entry_count, entry_of, field, from_value, integer, integer_at, item,
    item_count, items_at, opt_tree, parse, parse_of, text_at, text_copy, text_items, text_list,
    text_ref, value_tree, Json, JsonView,
};
use crate::laws::lists::lemma_pick;
use crate::text::{opt_text, texts};

verus! {

/// `value` is the value of the first entry with the key.
pub open spec fn is_entry(j: JsonView, key: Seq<char>, value: JsonView, i: int) -> bool {
    j matches JsonView::Object(entries) && 0 <= i < entries.len() && entries[i] == (key, value) && (
    forall|k: int| 0 <= k < i ==> (#[trigger] entries[k]).0 != key)
}

/// The document is no object, or none of its entries has the key.
pub open spec fn lacks(j: JsonView, key: Seq<char>) -> bool {
    j matches JsonView::Object(entries) ==> forall|k: int|
        0 <= k < entries.len() ==> (#[trigger] entries[k]).0 != key
}

proof fn lemma_entry(entries: Seq<(Seq<char>, JsonView)>, key: Seq<char>)
    ensures
        match entry_of(entries, key) {
            Some(value) => exists|i: int| #[trigger]
                is_entry(JsonView::Object(entries), key, value, i),
            None => lacks(JsonView::Object(entries), key),
        },
    decreases entries.len(),
{
    if entries.len() > 0 {
        let rest = entries.drop_first();
        lemma_entry(rest, key);
        if entries[0].0 == key {
            assert(is_entry(JsonView::Object(entries), key, entries[0].1, 0));
        } else if let Some(value) = entry_of(rest, key) {
            let i = choose|i: int| #[trigger] is_entry(JsonView::Object(rest), key, value, i);
            assert forall|k: int| 0 <= k < i + 1 implies (#[trigger] entries[k]).0 != key by {
                if k > 0 {
                    assert(rest[k - 1] == entries[k]);
                }
            }
            assert(is_entry(JsonView::Object(entries), key, value, i + 1));
        } else {
            assert forall|k: int| 0 <= k < entries.len() implies (#[trigger] entries[k]).0
                != key by {
                if k > 0 {
                    assert(rest[k - 1] == entries[k]);
                }
            }
        }
    }
}

/// A key leads to the value of the first entry that has it; nowhere, where none
/// has it or the document is no object.
pub proof fn law_field(j: JsonView, key: Seq<char>)
    ensures
        match field(j, key) {
            Some(value) => exists|i: int| #[trigger] is_entry(j, key, value, i),
            None => lacks(j, key),
        },
        at(Some(j), key) == field(j, key),
        at(None, key) is None,
{
    if let JsonView::Object(entries) = j {
        lemma_entry(entries, key);
    }
}

/// `get` finds the value of the first entry with the key.
pub proof fn law_get(j: &Json, key: &str, r: Option<&Json>)
    requires
        call_ensures(Json::get, (j, key), r),
    ensures
        match r {
            Some(value) => exists|i: int| #[trigger] is_entry(j@, key@, value@, i),
            None => lacks(j@, key@),
        },
{
    law_field(j@, key@);
}

/// Each reader takes its own sort of document, as it is, and no other.
pub proof fn law_readers(j: JsonView)
    ensures
        text_at(Some(j)) == (match j {
            JsonView::Text(s) => Some(s),
            _ => None,
        }),
        integer_at(Some(j)) == (match j {
            JsonView::Number(n) => n,
            _ => None,
        }),
        items_at(Some(j)) == (match j {
            JsonView::Array(items) => items,
            _ => Seq::empty(),
        }),
        entries_at(Some(j)) == (match j {
            JsonView::Object(entries) => entries,
            _ => Seq::empty(),
        }),
        text_at(None) is None,
        integer_at(None) is None,
        items_at(None).len() == 0,
        entries_at(None).len() == 0,
        forall|key: Seq<char>| #[trigger] at(Some(j), key) == field(j, key),
        forall|key: Seq<char>| #[trigger] at(None, key) is None,
{
}

/// What is copied out of a document is what stands there.
pub proof fn law_copies(j: Option<&Json>, text: Option<String>, number: Option<i64>)
    requires
        call_ensures(text_copy, (j,), text),
        call_ensures(integer, (j,), number),
    ensures
        text matches Some(t) <==> j is Some && j->0@ is Text,
        text matches Some(t) ==> j->0@ == JsonView::Text(t@),
        number is Some <==> j is Some && j->0@ is Number && j->0@->Number_0 is Some,
        number is Some ==> j->0@ == JsonView::Number(number),
{
}

/// The texts of a list are all of its texts, in order.
pub proof fn law_text_list(j: Option<&Json>, r: Vec<String>)
    requires
        call_ensures(text_list, (j,), r),
    ensures
        texts(r@) == items_at(opt_tree(j)).filter(|v: JsonView| v is Text).map_values(
            |v: JsonView| v->Text_0,
        ),
{
    law_text_items(items_at(opt_tree(j)));
}

/// The texts among items are all of them, in order.
pub proof fn law_text_items(items: Seq<JsonView>)
    ensures
        text_items(items) == items.filter(|v: JsonView| v is Text).map_values(
            |v: JsonView| v->Text_0,
        ),
{
    lemma_pick(
        items,
        |v: JsonView| text_at(Some(v)),
        |v: JsonView| v is Text,
        |v: JsonView| v->Text_0,
    );
}

/// A path is followed key by key: the rest of it from where its beginning
/// leads. The empty path leads to the document itself.
pub proof fn law_path(j: JsonView, path: Seq<&str>, key: &str)
    ensures
        path_of(j, Seq::empty()) == Some(j),
        path_of(j, path.push(key)) == (match path_of(j, path) {
            Some(d) => field(d, key@),
            None => None,
        }),
{
    assert(path.push(key).drop_last() =~= path);
}

/// `json_get` and `json_str` follow a path of two keys from object to object.
pub proof fn law_json_get(
    obj: &Json,
    path: &[&str],
    doc: Option<&Json>,
    text: Option<String>,
)
    requires
        call_ensures(json_get, (obj, path), doc),
        call_ensures(json_str, (obj, path), text),
    ensures
        opt_tree(doc) == path_of(obj@, path@),
        path@.len() == 0 ==> opt_tree(doc) == Some(obj@),
        path@.len() == 1 ==> opt_tree(doc) == field(obj@, path@[0]@),
        path@.len() == 2 ==> opt_tree(doc) == (match field(obj@, path@[0]@) {
            Some(d) => field(d, path@[1]@),
            None => None,
        }),
        opt_text(text) == (match opt_tree(doc) {
            Some(JsonView::Text(t)) => Some(t),
            _ => None,
        }),
{
    reveal_with_fuel(path_of, 3);
    if path@.len() == 1 {
        assert(path@.drop_last() =~= Seq::<&str>::empty());
    }
    if path@.len() == 2 {
        assert(path@.drop_last().drop_last() =~= Seq::<&str>::empty());
        assert(path@.drop_last().last() == path@[0]);
    }
}

/// The first condition is the first item of the list at `status.conditions`.
pub open spec fn is_first_condition(obj: JsonView, c: JsonView) -> bool {
    field(obj, "status"@) matches Some(status) && field(status, "conditions"@) matches Some(
        JsonView::Array(all),
    ) && all.len() > 0 && all[0] == c
}

/// An object's word on whether it is done is its first condition's: the text at
/// `status` and the text at `reason`. Without a condition, or without the text,
/// there is none.
pub proof fn law_condition(obj: JsonView)
    ensures
        forall|c: JsonView| #[trigger]
            is_first_condition(obj, c) ==> condition_of(obj) == Some(c) && condition_status_of(obj)
                == (match field(c, "status"@) {
                Some(JsonView::Text(t)) => Some(t),
                _ => None,
            }) && condition_reason_of(obj) == (match field(c, "reason"@) {
                Some(JsonView::Text(t)) => Some(t),
                _ => None,
            }),
        (forall|c: JsonView| !#[trigger] is_first_condition(obj, c)) ==> condition_of(obj) is None
            && condition_status_of(obj) is None && condition_reason_of(obj) is None,
{
    if let Some(c) = condition_of(obj) {
        assert(is_first_condition(obj, c));
    }
}

/// The condition's status and reason are read off the first condition.
pub proof fn law_condition_is_read(
    obj: &Json,
    c: JsonView,
    condition: Option<&Json>,
    status: Option<String>,
    reason: Option<String>,
)
    requires
        call_ensures(first_condition, (obj,), condition),
        call_ensures(condition_status, (obj,), status),
        call_ensures(condition_reason, (obj,), reason),
    ensures
        is_first_condition(obj@, c) ==> opt_tree(condition) == Some(c) && opt_text(status) == (
        match field(c, "status"@) {
            Some(JsonView::Text(t)) => Some(t),
            _ => None,
        }) && opt_text(reason) == (match field(c, "reason"@) {
            Some(JsonView::Text(t)) => Some(t),
            _ => None,
        }),
        condition matches Some(d) ==> is_first_condition(obj@, d@),
        condition is None ==> status is None && reason is None,
{
}

/// The view of a document is the document: every value, item and entry of it,
/// in order.
pub proof fn law_json_view(j: Json, i: int)
    ensures
        j is Null <==> j@ is Null,
        j matches Json::Bool(b) ==> j@ == JsonView::Bool(b),
        j matches Json::Number(n) ==> j@ == JsonView::Number(n),
        j matches Json::Text(s) ==> j@ == JsonView::Text(s@),
        j matches Json::Array(v) ==> (j@ matches JsonView::Array(items) && items.len() == v@.len()
            && (0 <= i < v@.len() ==> items[i] == v@[i]@)),
        j matches Json::Object(v) ==> (j@ matches JsonView::Object(entries) && entries.len()
            == v@.len() && (0 <= i < v@.len() ==> entries[i] == (v@[i].0@, v@[i].1@))),
{
}

/// A copy of a document is the same document; and going down into one that is
/// missing gives nothing.
pub proof fn law_json_copy(
    j: &Json,
    down: Option<&Json>,
    key: &str,
    copied: Json,
    dug: Option<&Json>,
    text: Option<&str>,
)
    requires
        call_ensures(Json::copy, (j,), copied),
        call_ensures(dig, (down, key), dug),
        call_ensures(text_ref, (down,), text),
    ensures
        copied@ == j@,
        down is None ==> dug is None,
        down matches Some(d) ==> (match dug {
            Some(value) => exists|i: int| #[trigger] is_entry(d@, key@, value@, i),
            None => lacks(d@, key@),
        }),
        text is Some <==> (down matches Some(d) && d@ is Text),
        text matches Some(t) ==> down->0@ == JsonView::Text(t@),
{
    if let Some(d) = down {
        law_field(d@, key@);
    }
}

/// A list is walked item by item, and an object entry by entry.
pub proof fn law_walks(
    j: Option<&Json>,
    i: usize,
    k: usize,
    items: usize,
    entries: usize,
    nth: &Json,
    pair: (&str, &Json),
)
    requires
        call_ensures(item_count, (j,), items),
        call_ensures(entry_count, (j,), entries),
        i < items_at(opt_tree(j)).len() ==> call_ensures(item, (j, i), nth),
        k < entries_at(opt_tree(j)).len() ==> call_ensures(entry, (j, k), pair),
    ensures
        j is None ==> items == 0 && entries == 0,
        j matches Some(d) ==> (match d@ {
            JsonView::Array(all) => items == all.len() && entries == 0 && (i < all.len() ==> nth@
                == all[i as int]),
            JsonView::Object(all) => entries == all.len() && items == 0 && (k < all.len()
                ==> pair.0@ == all[k as int].0 && pair.1@ == all[k as int].1),
            _ => items == 0 && entries == 0,
        }),
{
}

/// A text is read as the same document every time, or refused for the same
/// reason; and no object of the document has two entries with one key.
pub proof fn law_parse(
    one: &str,
    other: &str,
    r: Result<Json, String>,
    s: Result<Json, String>,
    key: Seq<char>,
    i: int,
    k: int,
)
    requires
        call_ensures(parse, (one,), r),
        call_ensures(parse, (other,), s),
        one@ == other@,
    ensures
        r is Ok <==> s is Ok,
        r is Ok <==> parse_of(one@) is Ok,
        r is Ok ==> r->Ok_0@ == s->Ok_0@ && r->Ok_0@ == parse_of(one@)->Ok_0,
        r is Err ==> r->Err_0@ == s->Err_0@ && r->Err_0@ == parse_of(one@)->Err_0,
        r is Ok && r->Ok_0@ is Object && 0 <= i < k < r->Ok_0@->Object_0.len() ==> (
        r->Ok_0@->Object_0[i]).0 != (r->Ok_0@->Object_0[k]).0,
{
}

/// A document that was parsed already is taken over as it is.
pub proof fn law_from_value(v: serde_json::Value, r: Json, i: int, k: int)
    requires
        call_ensures(from_value, (v,), r),
    ensures
        r@ == value_tree(v),
        r@ is Object && 0 <= i < k < r@->Object_0.len() ==> (r@->Object_0[i]).0 != (
        r@->Object_0[k]).0,
{
}

} // verus!
