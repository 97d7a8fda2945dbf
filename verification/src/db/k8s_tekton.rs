//! Tekton's objects: how often one is asked for, and what is read off one.
//!
//! An object is the JSON of its `spec` and `status`.
use vstd::prelude::*;
use vstd::string::*;

use crate::db::k8s_client::{is_not_found, is_unauthorized, KubeError, NOT_FOUND, UNAUTHORIZED};
use crate::json::{
    at, dig, field, item, item_count, items_at, opt_tree, text_at, text_copy, Json, JsonView,
};
use crate::text::opt_text;

verus! {

pub const TEKTON_GROUP: &'static str = "tekton.dev";

pub const TEKTON_VERSION: &'static str = "v1";

// ---------------------------------------------------------------------------
// Asking
// ---------------------------------------------------------------------------

/// What to do after an attempt.
pub enum Retry<R> {
    /// Hand this to the caller.
    Done(R),
    /// Refresh the credentials and ask again.
    Refresh,
}

/// What follows an attempt to get one object: a missing object is no error,
/// and credentials are refreshed once, after the first attempt.
pub open spec fn get_step<T>(attempt: u8, reply: Result<T, KubeError>) -> Retry<
    Result<Option<T>, KubeError>,
> {
    match reply {
        Ok(obj) => Retry::Done(Ok(Some(obj))),
        Err(e) => if e.code == Some(NOT_FOUND) {
            Retry::Done(Ok(None))
        } else if e.code == Some(UNAUTHORIZED) && attempt == 0 {
            Retry::Refresh
        } else {
            Retry::Done(Err(e))
        },
    }
}

/// What follows an attempt to get one object.
pub fn after_get<T>(attempt: u8, reply: Result<T, KubeError>) -> (r: Retry<
    Result<Option<T>, KubeError>,
>)
    ensures
        r == get_step(attempt, reply),
{
    match reply {
        Ok(obj) => Retry::Done(Ok(Some(obj))),
        Err(e) => if is_not_found(&e) {
            Retry::Done(Ok(None))
        } else if is_unauthorized(&e) && attempt == 0 {
            Retry::Refresh
        } else {
            Retry::Done(Err(e))
        },
    }
}

/// What follows an attempt to list objects: credentials are refreshed once,
/// after the first attempt.
pub open spec fn list_step<T>(attempt: u8, reply: Result<Vec<T>, KubeError>) -> Retry<
    Result<Vec<T>, KubeError>,
> {
    match reply {
        Ok(objs) => Retry::Done(Ok(objs)),
        Err(e) => if e.code == Some(UNAUTHORIZED) && attempt == 0 {
            Retry::Refresh
        } else {
            Retry::Done(Err(e))
        },
    }
}

/// What follows an attempt to list objects.
pub fn after_list<T>(attempt: u8, reply: Result<Vec<T>, KubeError>) -> (r: Retry<
    Result<Vec<T>, KubeError>,
>)
    ensures
        r == list_step(attempt, reply),
{
    match reply {
        Ok(objs) => Retry::Done(Ok(objs)),
        Err(e) => if is_unauthorized(&e) && attempt == 0 {
            Retry::Refresh
        } else {
            Retry::Done(Err(e))
        },
    }
}

/// Two attempts are enough: whatever the replies, the second one ends the
/// call, and the first one does unless its credentials were not accepted.
pub proof fn law_two_attempts<T>(
    one: Result<T, KubeError>,
    many: Result<Vec<T>, KubeError>,
    attempt: u8,
)
    ensures
        attempt > 0 ==> get_step(attempt, one) is Done && list_step(attempt, many) is Done,
        get_step(attempt, one) is Refresh ==> one is Err && one->Err_0.code == Some(UNAUTHORIZED),
        list_step(attempt, many) is Refresh ==> many is Err && many->Err_0.code == Some(
            UNAUTHORIZED,
        ),
{
}

// ---------------------------------------------------------------------------
// Reading
// ---------------------------------------------------------------------------

/// The document that a path of keys leads to.
pub open spec fn path_of(j: JsonView, path: Seq<&str>) -> Option<JsonView>
    decreases path.len(),
{
    if path.len() == 0 {
        Some(j)
    } else {
        at(path_of(j, path.drop_last()), path.last()@)
    }
}

/// The document that a path of keys leads to.
pub fn json_get<'a>(obj: &'a Json, path: &[&str]) -> (r: Option<&'a Json>)
    ensures
        opt_tree(r) == path_of(obj@, path@),
{
    let mut cur: Option<&'a Json> = Some(obj);
    let mut i: usize = 0;
    assert(path@.take(0) =~= Seq::<&str>::empty());
    while i < path.len()
        invariant
            i <= path@.len(),
            opt_tree(cur) == path_of(obj@, path@.take(i as int)),
        decreases path@.len() - i,
    {
        assert(path@.take(i + 1).drop_last() =~= path@.take(i as int));
        cur = dig(cur, path[i]);
        i = i + 1;
    }
    assert(path@.take(path@.len() as int) =~= path@);
    cur
}

/// The text that a path of keys leads to.
pub fn json_str(obj: &Json, path: &[&str]) -> (r: Option<String>)
    ensures
        opt_text(r) == text_at(path_of(obj@, path@)),
{
    text_copy(json_get(obj, path))
}

/// The object's first condition, `status.conditions[0]`.
pub open spec fn condition_of(obj: JsonView) -> Option<JsonView> {
    let all = items_at(at(field(obj, "status"@), "conditions"@));
    if all.len() > 0 {
        Some(all[0])
    } else {
        None
    }
}

/// The `status` of the object's first condition.
pub open spec fn condition_status_of(obj: JsonView) -> Option<Seq<char>> {
    text_at(at(condition_of(obj), "status"@))
}

/// The `reason` of the object's first condition.
pub open spec fn condition_reason_of(obj: JsonView) -> Option<Seq<char>> {
    text_at(at(condition_of(obj), "reason"@))
}

/// The object's first condition: Tekton's word on whether it is done.
pub fn first_condition<'a>(obj: &'a Json) -> (r: Option<&'a Json>)
    ensures
        opt_tree(r) == condition_of(obj@),
{
    let all = dig(obj.get("status"), "conditions");
    if item_count(all) > 0 {
        Some(item(all, 0))
    } else {
        None
    }
}

/// The `status` of the object's first condition.
pub fn condition_status(obj: &Json) -> (r: Option<String>)
    ensures
        opt_text(r) == condition_status_of(obj@),
{
    text_copy(dig(first_condition(obj), "status"))
}

/// The `reason` of the object's first condition.
pub fn condition_reason(obj: &Json) -> (r: Option<String>)
    ensures
        opt_text(r) == condition_reason_of(obj@),
{
    text_copy(dig(first_condition(obj), "reason"))
}

} // verus!
