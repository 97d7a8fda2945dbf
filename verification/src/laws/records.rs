//! What is asked of the archive, and what its answers are taken for.
use vstd::prelude::*;
use vstd::string::*;

use crate::handlers::label_selector::{pair_views, Pair};
use crate::handlers::run_archive::{
    checked_record, customrun_names, customrun_of, customrun_pair_of, customruns_of, document_of,
    fetch_archived_logs_for_run, fetch_pg_records, is_new, is_proxy_taskrun, last_value, log_window,
    loki_query, loki_refusal, loki_refused, loki_unreadable, loki_url, name_of, names_of,
    parse_rows, proxy_pair_of, proxy_search, relabelled, rows_view, rows_views, run_record,
    search_view, status_line_of, task_ref_pair_of, taskrun_search, ArchiveError, PgQuery, QueryKind,
    RunRecord, RunRow,
};
use crate::json::{at, field, items_at, parse_of, text_at, trees, Json, JsonView};
use crate::laws::archive::{in_metadata, labelled};
use crate::laws::discovery::in_status;
use crate::laws::lists::lemma_pick;
use crate::lookup::Lookup;
use crate::models::run_stream::{line_views, LogLine};
use crate::order::{having, lemma_sorted, lemma_sorted_items, sorted, Direction, Keyed};
use crate::text::{before, decimal_of, opt_text, texts};

verus! {

/// A failure of the archive says which part of it failed, and quotes it.
pub proof fn law_archive_errors(e: &ArchiveError, r: String)
    requires
        call_ensures(ArchiveError::message, (e,), r),
    ensures
        e is NotFound ==> r@ == "run not found in archive"@,
        e matches ArchiveError::Db(m) ==> r@ == "postgres error: "@ + m@,
        e matches ArchiveError::Loki(m) ==> r@ == "loki error: "@ + m@,
{
}

/// A run and a single TaskRun are asked for by their latest record, and the
/// TaskRuns of a run by its label, oldest first.
pub proof fn law_queries(kind: &QueryKind, r: &'static str)
    requires
        call_ensures(QueryKind::sql, (kind,), r),
    ensures
        kind is Run ==> r@
            == "SELECT name, data::text AS data, created_time, updated_time FROM records WHERE type = 'tekton.dev/v1.PipelineRun' AND data->'metadata'->>'name' = $1 ORDER BY created_time DESC LIMIT 1"@,
        kind is TaskRuns ==> r@
            == "SELECT name, data::text AS data FROM records WHERE type = 'tekton.dev/v1.TaskRun' AND data->'metadata'->'labels'->>'tekton.dev/pipelineRun' = $1 ORDER BY created_time ASC"@,
        kind is TaskRunNamed ==> r@
            == "SELECT data::text AS data FROM records WHERE type = 'tekton.dev/v1.TaskRun' AND data->'metadata'->>'name' = $1 ORDER BY created_time DESC LIMIT 1"@,
        kind is TaskRunOfCustomRun ==> r@
            == "SELECT data::text AS data FROM records WHERE type = 'tekton.dev/v1.TaskRun' AND data->'metadata'->'labels'->>'remotetask-customrun' = $1 ORDER BY created_time DESC LIMIT 1"@,
{
}

/// The log window reaches five minutes beyond the run on either side, but not
/// before the epoch, nor beyond the longest time span.
pub proof fn law_log_window(created_ns: i128, updated_ns: i128, r: (u128, u128))
    requires
        call_ensures(log_window, (created_ns, updated_ns), r),
    ensures
        created_ns >= 300_000_000_000 ==> r.0 + 300_000_000_000 == created_ns,
        created_ns < 300_000_000_000 ==> r.0 == 0,
        updated_ns <= 0 ==> r.1 == 300_000_000_000,
        updated_ns > 0 && updated_ns + 300_000_000_000 <= 18_446_744_073_709_551_615_999_999_999
            ==> r.1 == updated_ns + 300_000_000_000,
        updated_ns + 300_000_000_000 > 18_446_744_073_709_551_615_999_999_999 ==> r.1 == updated_ns,
{
}

/// The record of a run is the document that its row holds, with the log window
/// of the row's times. A missing row is no run; and a query that failed, or a
/// row that holds no document, is an error of the database.
pub proof fn law_run_record(
    reply: Result<Option<RunRow>, String>,
    window: (u128, u128),
    r: Result<RunRecord, ArchiveError>,
)
    requires
        call_ensures(run_record, (reply,), r),
        reply matches Ok(Some(row)) ==> call_ensures(
            log_window,
            (row.created_ns, row.updated_ns),
            window,
        ),
    ensures
        reply matches Err(e) ==> (r matches Err(ArchiveError::Db(m)) && m@ == e@),
        reply matches Ok(None) ==> (r matches Err(ArchiveError::NotFound)),
        reply matches Ok(Some(row)) ==> {
            &&& r is Ok <==> parse_of(row.data@) is Ok
            &&& r matches Ok(record) ==> Ok::<JsonView, Seq<char>>(record.pr@) == parse_of(row.data@)
                && record.start_ns == window.0 && record.end_ns == window.1
            &&& parse_of(row.data@) matches Err(e) ==> (r matches Err(ArchiveError::Db(m)) && m@
                == "bad JSON in records.data: "@ + e)
        },
{
}

/// The same holds of a row whose text was read already.
pub proof fn law_checked_record(
    data: Result<Json, String>,
    created_ns: i128,
    updated_ns: i128,
    window: (u128, u128),
    r: Result<RunRecord, ArchiveError>,
)
    requires
        call_ensures(checked_record, (data, created_ns, updated_ns), r),
        call_ensures(log_window, (created_ns, updated_ns), window),
    ensures
        data matches Ok(pr) ==> (r matches Ok(record) && record.pr@ == pr@ && record.start_ns
            == window.0 && record.end_ns == window.1),
        data matches Err(e) ==> (r matches Err(ArchiveError::Db(m)) && m@
            == "bad JSON in records.data: "@ + e@),
{
}

/// The rows that hold a document give it, in order; the others give nothing.
pub proof fn law_rows(rows: &Vec<String>, r: Vec<Json>)
    requires
        call_ensures(parse_rows, (rows,), r),
    ensures
        trees(r@) == texts(rows@).filter(|t: Seq<char>| parse_of(t) is Ok).map_values(
            |t: Seq<char>| parse_of(t)->Ok_0,
        ),
{
    lemma_pick(
        texts(rows@),
        |t: Seq<char>| document_of(t),
        |t: Seq<char>| parse_of(t) is Ok,
        |t: Seq<char>| parse_of(t)->Ok_0,
    );
}

/// A TaskRun stands in for a CustomRun exactly where it has the label.
pub proof fn law_proxy(tr: &Json, r: bool)
    requires
        call_ensures(is_proxy_taskrun, (tr,), r),
    ensures
        r <==> at(in_metadata(tr@, "labels"@), "remotetask-customrun"@) is Some,
{
}

/// The item of `childReferences` is a CustomRun with a name.
pub open spec fn is_customrun(c: JsonView) -> bool {
    text_at(field(c, "kind"@)) == Some("CustomRun"@) && text_at(field(c, "name"@)) is Some
}

proof fn lemma_customruns(pr: JsonView)
    ensures
        customruns_of(pr) == items_at(in_status(pr, "childReferences"@)).filter(
            |c: JsonView| is_customrun(c),
        ).map_values(|c: JsonView| text_at(field(c, "name"@))->0),
{
    lemma_pick(
        items_at(in_status(pr, "childReferences"@)),
        |c: JsonView| customrun_of(c),
        |c: JsonView| is_customrun(c),
        |c: JsonView| text_at(field(c, "name"@))->0,
    );
}

/// The CustomRuns of a run are the children of that kind, by name, in order.
pub proof fn law_customruns(pr: &Json, r: Vec<String>)
    requires
        call_ensures(customrun_names, (pr,), r),
    ensures
        texts(r@) == items_at(in_status(pr@, "childReferences"@)).filter(
            |c: JsonView| is_customrun(c),
        ).map_values(|c: JsonView| text_at(field(c, "name"@))->0),
{
    lemma_customruns(pr@);
}

// ---------------------------------------------------------------------------
// Loki
// ---------------------------------------------------------------------------

/// Loki is asked at its range query.
pub proof fn law_loki_url(r: String)
    requires
        call_ensures(loki_url, (), r),
    ensures
        r@ == "http://loki.logging.svc.cluster.local:3100"@ + "/loki/api/v1/query_range"@,
{
}

/// Loki is asked for the lines of the run, at most five thousand, within the
/// span, oldest first.
pub proof fn law_loki_query(run_name: &str, start_ns: u128, end_ns: u128, r: Vec<(String, String)>)
    requires
        call_ensures(loki_query, (run_name, start_ns, end_ns), r),
    ensures
        r@.len() == 5,
        r@[0].0@ == "query"@ && r@[0].1@ == "{pipelinerun=\""@ + run_name@ + "\"}"@,
        r@[1].0@ == "limit"@ && r@[1].1@ == "5000"@,
        r@[2].0@ == "start"@ && r@[2].1@ == decimal_of(start_ns as nat),
        r@[3].0@ == "end"@ && r@[3].1@ == decimal_of(end_ns as nat),
        r@[4].0@ == "direction"@ && r@[4].1@ == "forward"@,
{
    let v = pair_views(r@);
    assert(v.len() == r@.len());
    assert(v[0] == (r@[0].0@, r@[0].1@));
    assert(v[1] == (r@[1].0@, r@[1].1@));
    assert(v[2] == (r@[2].0@, r@[2].1@));
    assert(v[3] == (r@[3].0@, r@[3].1@));
    assert(v[4] == (r@[4].0@, r@[4].1@));
}

/// An answer of Loki's is refused unless its status is one of success, with the
/// code's own line; and one that cannot be read is refused too.
pub proof fn law_loki_refusals(
    code: u16,
    line: String,
    e: &str,
    r: Option<ArchiveError>,
    refused: ArchiveError,
    unreadable: ArchiveError,
)
    requires
        100 <= code <= 999,
        call_ensures(loki_refusal, (code,), r),
        call_ensures(loki_refused, (line,), refused),
        call_ensures(loki_unreadable, (e,), unreadable),
    ensures
        r is None <==> 200 <= code <= 299,
        (r is Some && line@ == status_line_of(code)) ==> (
        r matches Some(ArchiveError::Loki(m)) && refused matches ArchiveError::Loki(n) && m@ == n@),
        refused matches ArchiveError::Loki(m) && m@ == "loki returned HTTP "@ + line@,
        unreadable matches ArchiveError::Loki(m) && m@ == "bad JSON from loki: "@ + e@,
{
}

// ---------------------------------------------------------------------------
// The task of a line
// ---------------------------------------------------------------------------

/// The record at `i` is the last one that `f` gives a value to the key for.
pub open spec fn is_last_hit(
    docs: Seq<JsonView>,
    f: spec_fn(JsonView) -> Option<Pair>,
    key: Seq<char>,
    i: int,
) -> bool {
    &&& 0 <= i < docs.len()
    &&& f(docs[i]) is Some && (f(docs[i])->Some_0).0 == key
    &&& forall|k: int|
        i < k < docs.len() && f(#[trigger] docs[k]) is Some ==> (f(docs[k])->Some_0).0 != key
}

proof fn lemma_last_hit(docs: Seq<JsonView>, f: spec_fn(JsonView) -> Option<Pair>, key: Seq<char>)
    ensures
        forall|i: int| #[trigger]
            is_last_hit(docs, f, key, i) ==> last_value(docs.filter_map(f), key) == Some(
                (f(docs[i])->Some_0).1,
            ),
        last_value(docs.filter_map(f), key) is Some ==> exists|i: int| #[trigger]
            is_last_hit(docs, f, key, i),
    decreases docs.len(),
{
    if docs.len() > 0 {
        let front = docs.drop_last();
        let d = docs.last();
        let n = docs.len() - 1;
        lemma_last_hit(front, f, key);
        let early = front.filter_map(f);
        let all = docs.filter_map(f);
        if let Some(p) = f(d) {
            assert(all =~= early.push(p));
            assert(all.drop_last() =~= early);
        } else {
            assert(all =~= early);
        }
        assert forall|i: int| #[trigger] is_last_hit(docs, f, key, i) implies last_value(all, key)
            == Some((f(docs[i])->Some_0).1) by {
            if i < n {
                assert(f(docs[n]) is Some ==> (f(docs[n])->Some_0).0 != key);
                assert forall|k: int| i < k < front.len() && f(#[trigger] front[k]) is Some implies (
                f(front[k])->Some_0).0 != key by {
                    assert(front[k] == docs[k]);
                }
                assert(front[i] == docs[i]);
                assert(is_last_hit(front, f, key, i));
            }
        }
        if last_value(all, key) is Some {
            if f(d) is Some && (f(d)->Some_0).0 == key {
                assert(is_last_hit(docs, f, key, n));
            } else {
                let i = choose|i: int| #[trigger] is_last_hit(front, f, key, i);
                assert forall|k: int| i < k < docs.len() && f(#[trigger] docs[k]) is Some implies (
                f(docs[k])->Some_0).0 != key by {
                    if k < n {
                        assert(front[k] == docs[k]);
                    }
                }
                assert(front[i] == docs[i]);
                assert(is_last_hit(docs, f, key, i));
            }
        }
    } else {
        assert(docs.filter_map(f) =~= Seq::<Pair>::empty());
    }
}

/// The task that a TaskRun is within the pipeline, by its label.
pub open spec fn task_label(tr: JsonView) -> Option<Seq<char>> {
    labelled(tr, "tekton.dev/pipelineTask"@)
}

/// A labelled TaskRun of the Task.
pub open spec fn runs_task(tr: JsonView, task: Seq<char>) -> bool {
    text_at(at(at(field(tr, "spec"@), "taskRef"@), "name"@)) == Some(task) && task_label(tr) is Some
}

/// A labelled TaskRun that stands in for a CustomRun and has the name.
pub open spec fn is_proxy_named(tr: JsonView, task: Seq<char>) -> bool {
    &&& at(in_metadata(tr, "labels"@), "remotetask-customrun"@) is Some
    &&& text_at(in_metadata(tr, "name"@)) == Some(task)
    &&& task_label(tr) is Some
}

/// A labelled TaskRun that stands in for the CustomRun.
pub open spec fn is_proxy_for(tr: JsonView, task: Seq<char>) -> bool {
    labelled(tr, "remotetask-customrun"@) == Some(task) && task_label(tr) is Some
}

/// Among the records, the one at `i` is the last with the property.
pub open spec fn is_last_record(
    docs: Seq<JsonView>,
    p: spec_fn(JsonView) -> bool,
    i: int,
) -> bool {
    0 <= i < docs.len() && p(docs[i]) && forall|k: int|
        i < k < docs.len() ==> !p(#[trigger] docs[k])
}

/// A line keeps its step, text and timestamp. Its task becomes the one within
/// the pipeline: the label of the last TaskRun of the Task that the line names;
/// else of the last one that stands in for a CustomRun and that the line names;
/// else of the last one that stands in for the CustomRun that the line names.
/// A line that names none of these keeps its task too.
pub proof fn law_lines_get_their_task(
    taskruns: &Vec<Json>,
    lines: Vec<LogLine>,
    r: Vec<LogLine>,
    k: int,
    i: int,
)
    requires
        call_ensures(fetch_archived_logs_for_run, (taskruns, lines), r),
    ensures
        r@.len() == lines@.len(),
        0 <= k < r@.len() ==> {
            let docs = trees(taskruns@);
            let task = lines@[k].task@;
            let of_task = |tr: JsonView| runs_task(tr, task);
            let named = |tr: JsonView| is_proxy_named(tr, task);
            let standing = |tr: JsonView| is_proxy_for(tr, task);
            &&& r@[k].step@ == lines@[k].step@
            &&& r@[k].line@ == lines@[k].line@
            &&& opt_text(r@[k].timestamp) == opt_text(lines@[k].timestamp)
            &&& is_last_record(docs, of_task, i) ==> Some(r@[k].task@) == task_label(docs[i])
            &&& no_record(docs, of_task) ==> {
                &&& is_last_record(docs, named, i) ==> Some(r@[k].task@) == task_label(docs[i])
                &&& no_record(docs, named) ==> {
                    &&& is_last_record(docs, standing, i) ==> Some(r@[k].task@) == task_label(
                        docs[i],
                    )
                    &&& no_record(docs, standing) ==> r@[k].task@ == task
                }
            }
        },
{
    let docs = trees(taskruns@);
    assert(line_views(r@).len() == r@.len());
    assert(line_views(lines@).len() == lines@.len());
    if 0 <= k < r@.len() {
        assert(line_views(r@)[k] == r@[k]@);
        assert(line_views(lines@)[k] == lines@[k]@);
        assert(r@[k]@ == relabelled(lines@[k]@, docs));
        let task = lines@[k].task@;
        lemma_table(
            docs,
            |tr: JsonView| task_ref_pair_of(tr),
            |tr: JsonView| runs_task(tr, task),
            task,
        );
        lemma_table(
            docs,
            |tr: JsonView| proxy_pair_of(tr),
            |tr: JsonView| is_proxy_named(tr, task),
            task,
        );
        lemma_table(
            docs,
            |tr: JsonView| customrun_pair_of(tr),
            |tr: JsonView| is_proxy_for(tr, task),
            task,
        );
    }
}

/// None of the records has the property.
pub open spec fn no_record(docs: Seq<JsonView>, p: spec_fn(JsonView) -> bool) -> bool {
    forall|k: int| 0 <= k < docs.len() ==> !p(#[trigger] docs[k])
}

proof fn lemma_table(
    docs: Seq<JsonView>,
    f: spec_fn(JsonView) -> Option<Pair>,
    p: spec_fn(JsonView) -> bool,
    task: Seq<char>,
)
    requires
        forall|tr: JsonView|
            #![trigger f(tr)]
            #![trigger p(tr)]
            p(tr) <==> (f(tr) is Some && (f(tr)->Some_0).0 == task),
        forall|tr: JsonView|
            #![trigger f(tr)]
            f(tr) is Some ==> task_label(tr) == Some((f(tr)->Some_0).1),
    ensures
        forall|i: int| #[trigger]
            is_last_record(docs, p, i) ==> last_value(docs.filter_map(f), task) == task_label(
                docs[i],
            ),
        no_record(docs, p) ==> last_value(docs.filter_map(f), task) is None,
{
    lemma_last_hit(docs, f, task);
    assert forall|i: int| #[trigger] is_last_record(docs, p, i) implies last_value(
        docs.filter_map(f),
        task,
    ) == task_label(docs[i]) by {
        assert(p(docs[i]));
        assert forall|k: int| i < k < docs.len() && f(#[trigger] docs[k]) is Some implies (f(
            docs[k],
        )->Some_0).0 != task by {
            assert(!p(docs[k]));
        }
        assert(is_last_hit(docs, f, task, i));
    }
    if last_value(docs.filter_map(f), task) is Some {
        let i = choose|i: int| #[trigger] is_last_hit(docs, f, task, i);
        assert(p(docs[i]));
    }
}

// ---------------------------------------------------------------------------
// The search for the TaskRuns of a run
// ---------------------------------------------------------------------------

/// The replies to a search's queries.
pub type Rows = Seq<Result<Seq<JsonView>, Seq<char>>>;

/// The records of each reply, or why there are none.
pub open spec fn rows_of(replies: Seq<Result<Vec<Json>, String>>) -> Rows {
    replies.map_values(
        |reply: Result<Vec<Json>, String>|
            match reply {
                Ok(docs) => Ok(docs@.map_values(|d: Json| d@)),
                Err(e) => Err(e@),
            },
    )
}

/// The TaskRun of a CustomRun was found already: it has the CustomRun's name and
/// `-exec`.
pub open spec fn was_found(found: Seq<Seq<char>>, customrun: Seq<char>) -> bool {
    found.contains(customrun + "-exec"@)
}

/// The query that was answered at `b` gave a record.
pub open spec fn gives_record(replies: Rows, b: int) -> bool {
    b < replies.len() && (replies[b] matches Ok(docs) && docs.len() > 0)
}

/// The query that was answered at `b` gave no record.
pub open spec fn gives_none(replies: Rows, b: int) -> bool {
    b < replies.len() && (replies[b] matches Ok(docs) && docs.len() == 0)
}

/// A CustomRun is settled by the replies from `b` on: its TaskRun was found
/// already, or the query by its name gave a record, or that gave none and the
/// one by the label succeeded.
pub open spec fn is_settled(
    found: Seq<Seq<char>>,
    customrun: Seq<char>,
    replies: Rows,
    b: int,
) -> bool {
    was_found(found, customrun) || gives_record(replies, b) || (gives_none(replies, b) && b + 1
        < replies.len() && replies[b + 1] is Ok)
}

/// How many replies a CustomRun takes.
pub open spec fn replies_for(
    found: Seq<Seq<char>>,
    customrun: Seq<char>,
    replies: Rows,
    b: int,
) -> nat {
    if was_found(found, customrun) {
        0
    } else if gives_record(replies, b) {
        1
    } else {
        2
    }
}

/// The records that a CustomRun adds: the one of its name; or else those of its
/// label, less those whose names were found already.
pub open spec fn records_for(
    found: Seq<Seq<char>>,
    customrun: Seq<char>,
    replies: Rows,
    b: int,
) -> Seq<JsonView> {
    if was_found(found, customrun) {
        Seq::empty()
    } else if gives_record(replies, b) {
        seq![replies[b]->Ok_0[0]]
    } else if b + 1 < replies.len() {
        replies[b + 1]->Ok_0.filter(
            |d: JsonView|
                !found.contains(
                    match text_at(in_metadata(d, "name"@)) {
                        Some(name) => name,
                        None => Seq::empty(),
                    },
                ),
        )
    } else {
        Seq::empty()
    }
}

/// Where the replies for the CustomRun at `i` begin.
pub open spec fn begins_at(
    found: Seq<Seq<char>>,
    customruns: Seq<Seq<char>>,
    replies: Rows,
    i: int,
) -> nat
    decreases i,
{
    if i <= 0 {
        0
    } else {
        let b = begins_at(found, customruns, replies, i - 1);
        b + replies_for(found, customruns[i - 1], replies, b as int)
    }
}

/// What the first `i` CustomRuns add.
pub open spec fn gathered(
    found: Seq<Seq<char>>,
    customruns: Seq<Seq<char>>,
    replies: Rows,
    i: int,
) -> Seq<JsonView>
    decreases i,
{
    if i <= 0 {
        Seq::empty()
    } else {
        gathered(found, customruns, replies, i - 1) + records_for(
            found,
            customruns[i - 1],
            replies,
            begins_at(found, customruns, replies, i - 1) as int,
        )
    }
}

/// The first `i` CustomRuns are settled.
pub open spec fn are_settled(
    found: Seq<Seq<char>>,
    customruns: Seq<Seq<char>>,
    replies: Rows,
    i: int,
) -> bool {
    forall|k: int|
        0 <= k < i ==> #[trigger] is_settled_at(found, customruns, replies, k)
}

/// The CustomRun at `k` is settled.
pub open spec fn is_settled_at(
    found: Seq<Seq<char>>,
    customruns: Seq<Seq<char>>,
    replies: Rows,
    k: int,
) -> bool {
    let b = begins_at(found, customruns, replies, k) as int;
    is_settled(found, customruns[k], replies, b)
}

/// The query is the next one for the CustomRun at `i`: by the name of its
/// TaskRun first, and by the label where that gave no record.
pub open spec fn asks_for(
    found: Seq<Seq<char>>,
    customruns: Seq<Seq<char>>,
    replies: Rows,
    i: int,
    q: (QueryKind, Seq<char>),
) -> bool {
    let b = begins_at(found, customruns, replies, i) as int;
    &&& 0 <= i < customruns.len()
    &&& are_settled(found, customruns, replies, i)
    &&& !was_found(found, customruns[i])
    &&& {
        ||| replies.len() == b && q == (QueryKind::TaskRunNamed, customruns[i] + "-exec"@)
        ||| replies.len() == b + 1 && gives_none(replies, b) && q == (
            QueryKind::TaskRunOfCustomRun,
            customruns[i],
        )
    }
}

/// One of the queries for the CustomRun at `i` failed.
pub open spec fn fails_at(
    found: Seq<Seq<char>>,
    customruns: Seq<Seq<char>>,
    replies: Rows,
    i: int,
    e: Seq<char>,
) -> bool {
    let b = begins_at(found, customruns, replies, i) as int;
    &&& 0 <= i < customruns.len()
    &&& are_settled(found, customruns, replies, i)
    &&& !was_found(found, customruns[i])
    &&& {
        ||| replies.len() > b && replies[b] == Err::<Seq<JsonView>, Seq<char>>(e)
        ||| replies.len() > b + 1 && gives_none(replies, b) && replies[b + 1] == Err::<Seq<JsonView>, Seq<char>>(e)
    }
}

proof fn lemma_begins(
    found: Seq<Seq<char>>,
    customruns: Seq<Seq<char>>,
    replies: Rows,
    i: int,
)
    requires
        0 <= i < customruns.len(),
        replies_for(found, customruns[0], replies, 0) <= replies.len(),
    ensures
        ({
            let n = replies_for(found, customruns[0], replies, 0);
            let rest = customruns.drop_first();
            let left = replies.skip(n as int);
            &&& begins_at(found, customruns, replies, i + 1) == n + begins_at(found, rest, left, i)
            &&& gathered(found, customruns, replies, i + 1) == records_for(
                found,
                customruns[0],
                replies,
                0,
            ) + gathered(found, rest, left, i)
        }),
    decreases i,
{
    let n = replies_for(found, customruns[0], replies, 0);
    let rest = customruns.drop_first();
    let left = replies.skip(n as int);
    let own = records_for(found, customruns[0], replies, 0);
    if i == 0 {
        reveal_with_fuel(begins_at, 2);
        reveal_with_fuel(gathered, 2);
        assert(gathered(found, customruns, replies, 1) =~= own + gathered(found, rest, left, 0));
    } else {
        lemma_begins(found, customruns, replies, i - 1);
        let b = begins_at(found, rest, left, i - 1);
        assert(rest[i - 1] == customruns[i]);
        lemma_shifted(replies, n as int, b as int);
        assert(gathered(found, customruns, replies, i + 1) =~= own + gathered(
            found,
            rest,
            left,
            i,
        ));
    }
}

proof fn lemma_shifted(replies: Rows, n: int, b: int)
    requires
        0 <= n <= replies.len(),
        0 <= b,
    ensures
        gives_record(replies.skip(n), b) == gives_record(replies, n + b),
        gives_none(replies.skip(n), b) == gives_none(replies, n + b),
        b < replies.skip(n).len() <==> n + b < replies.len(),
        b < replies.skip(n).len() ==> replies.skip(n)[b] == replies[n + b],
        b + 1 < replies.skip(n).len() ==> replies.skip(n)[b + 1] == replies[n + b + 1],
{
}

proof fn lemma_settled(
    found: Seq<Seq<char>>,
    customruns: Seq<Seq<char>>,
    replies: Rows,
    i: int,
)
    requires
        0 <= i < customruns.len(),
        is_settled(found, customruns[0], replies, 0),
        are_settled(
            found,
            customruns.drop_first(),
            replies.skip(replies_for(found, customruns[0], replies, 0) as int),
            i,
        ),
    ensures
        are_settled(found, customruns, replies, i + 1),
{
    let n = replies_for(found, customruns[0], replies, 0);
    let rest = customruns.drop_first();
    let left = replies.skip(n as int);
    assert forall|k: int| 0 <= k < i + 1 implies #[trigger] is_settled_at(
        found,
        customruns,
        replies,
        k,
    ) by {
        if k > 0 {
            lemma_begins(found, customruns, replies, k - 1);
            assert(is_settled_at(found, rest, left, k - 1));
            let b = begins_at(found, rest, left, k - 1);
            lemma_shifted(replies, n as int, b as int);
            assert(rest[k - 1] == customruns[k]);
        }
    }
}

proof fn lemma_search(
    found: Seq<Seq<char>>,
    docs: Seq<JsonView>,
    customruns: Seq<Seq<char>>,
    replies: Rows,
)
    ensures
        proxy_search(found, docs, customruns, replies) matches Lookup::Done(Ok(all)) ==> {
            &&& are_settled(found, customruns, replies, customruns.len() as int)
            &&& all == docs + gathered(found, customruns, replies, customruns.len() as int)
        },
        proxy_search(found, docs, customruns, replies) matches Lookup::Done(Err(e)) ==> exists|
            i: int,
        | #[trigger]
            fails_at(found, customruns, replies, i, e),
        proxy_search(found, docs, customruns, replies) matches Lookup::Ask(q) ==> exists|i: int|
         #[trigger]
            asks_for(found, customruns, replies, i, q),
    decreases customruns.len(),
{
    let outcome = proxy_search(found, docs, customruns, replies);
    if customruns.len() == 0 {
        assert(docs + gathered(found, customruns, replies, 0) =~= docs);
    } else {
        let c = customruns[0];
        let rest = customruns.drop_first();
            if is_settled(found, c, replies, 0) {
            let n = replies_for(found, c, replies, 0);
            let left = replies.skip(n as int);
            let own = records_for(found, c, replies, 0);
            assert(replies.skip(0) =~= replies);
            assert(left.len() == replies.len() - n);
            if replies.len() > 1 && !was_found(found, c) && replies[0]->Ok_0.len() == 0 {
                lemma_new_records(found, replies[1]->Ok_0);
            }
            assert(docs.push(replies[0]->Ok_0[0]) =~= docs + seq![replies[0]->Ok_0[0]]);
            assert(docs + Seq::<JsonView>::empty() =~= docs);
            assert(outcome == proxy_search(found, docs + own, rest, left));
            lemma_search(found, docs + own, rest, left);
            match outcome {
                Lookup::Done(Ok(all)) => {
                    let m = rest.len() as int;
                    lemma_begins(found, customruns, replies, m);
                    lemma_settled(found, customruns, replies, m);
                    assert(docs + own + gathered(found, rest, left, m) =~= docs + (own + gathered(
                        found,
                        rest,
                        left,
                        m,
                    )));
                },
                Lookup::Done(Err(e)) => {
                    let i = choose|i: int| #[trigger] fails_at(found, rest, left, i, e);
                    lemma_begins(found, customruns, replies, i);
                    lemma_settled(found, customruns, replies, i);
                    lemma_shifted(replies, n as int, begins_at(found, rest, left, i) as int);
                    assert(rest[i] == customruns[i + 1]);
                    assert(fails_at(found, customruns, replies, i + 1, e));
                },
                Lookup::Ask(q) => {
                    let i = choose|i: int| #[trigger] asks_for(found, rest, left, i, q);
                    lemma_begins(found, customruns, replies, i);
                    lemma_settled(found, customruns, replies, i);
                    lemma_shifted(replies, n as int, begins_at(found, rest, left, i) as int);
                    assert(rest[i] == customruns[i + 1]);
                    assert(asks_for(found, customruns, replies, i + 1, q));
                },
            }
        } else {
            assert(begins_at(found, customruns, replies, 0) == 0);
            match outcome {
                Lookup::Done(Ok(_)) => {
                    assert(false);
                },
                Lookup::Done(Err(e)) => {
                    assert(fails_at(found, customruns, replies, 0, e));
                },
                Lookup::Ask(q) => {
                    assert(asks_for(found, customruns, replies, 0, q));
                },
            }
        }
    }
}

proof fn lemma_new_records(found: Seq<Seq<char>>, docs: Seq<JsonView>)
    ensures
        docs.filter(|d: JsonView| is_new(d, found)) == docs.filter(
            |d: JsonView|
                !found.contains(
                    match text_at(in_metadata(d, "name"@)) {
                        Some(name) => name,
                        None => Seq::empty(),
                    },
                ),
        ),
    decreases docs.len(),
{
    reveal(Seq::filter);
    if docs.len() > 0 {
        lemma_new_records(found, docs.drop_last());
    }
}

/// The view of a query is its kind and its text.
pub proof fn law_query_view(q: PgQuery)
    ensures
        q@.0 == q.kind,
        q@.1 == q.param@,
{
}

/// The names of the records that have one, in order.
pub open spec fn names_in(docs: Seq<JsonView>) -> Seq<Seq<char>> {
    docs.filter(|d: JsonView| text_at(in_metadata(d, "name"@)) is Some).map_values(
        |d: JsonView| text_at(in_metadata(d, "name"@))->0,
    )
}

/// The CustomRuns of a run, by name, in order.
pub open spec fn customruns_in(pr: JsonView) -> Seq<Seq<char>> {
    items_at(in_status(pr, "childReferences"@)).filter(|c: JsonView| is_customrun(c)).map_values(
        |c: JsonView| text_at(field(c, "name"@))->0,
    )
}

/// When a record's object was created; empty where the record does not say.
pub open spec fn created(doc: JsonView) -> Seq<char> {
    match text_at(in_metadata(doc, "creationTimestamp"@)) {
        Some(t) => t,
        None => Seq::empty(),
    }
}

proof fn lemma_rows(replies: Seq<Result<Vec<Json>, String>>)
    ensures
        rows_views(replies) == rows_of(replies),
{
    assert forall|i: int| 0 <= i < replies.len() implies rows_views(replies)[i] == rows_of(
        replies,
    )[i] by {
        assert(rows_views(replies)[i] == rows_view(replies[i]));
    }
    assert(rows_views(replies) =~= rows_of(replies));
}

proof fn lemma_names(docs: Seq<JsonView>)
    ensures
        names_of(docs) == names_in(docs),
{
    lemma_pick(
        docs,
        |d: JsonView| name_of(d),
        |d: JsonView| text_at(in_metadata(d, "name"@)) is Some,
        |d: JsonView| text_at(in_metadata(d, "name"@))->0,
    );
}

/// The TaskRuns of a run are asked for by the run's name first. Then each of
/// its CustomRuns is taken up in turn: one whose TaskRun was found already is
/// passed over; any other is asked for by its TaskRun's name, and by the label
/// where that gave no record. A query that failed ends the search with its
/// error, and nothing else does.
pub proof fn law_search_asks(
    run_name: &str,
    pr: &Json,
    replies: &Vec<Result<Vec<Json>, String>>,
    r: Lookup<PgQuery, Result<Vec<Json>, ArchiveError>>,
)
    requires
        call_ensures(fetch_pg_records, (run_name, pr, replies), r),
    ensures
        replies@.len() == 0 ==> (r matches Lookup::Ask(q) && q.kind is TaskRuns && q.param@
            == run_name@),
        replies@.len() > 0 && replies@[0] is Err ==> (r matches Lookup::Done(
            Err(ArchiveError::Db(m)),
        ) && m@ == replies@[0]->Err_0@),
        replies@.len() > 0 && replies@[0] is Ok && r is Ask ==> exists|i: int| #[trigger]
            asks_for(
                names_in(trees(replies@[0]->Ok_0@)),
                customruns_in(pr@),
                rows_of(replies@).skip(1),
                i,
                r->Ask_0@,
            ),
        replies@.len() > 0 && replies@[0] is Ok && r is Done && r->Done_0 is Err ==> r->Done_0->Err_0 is Db
            && exists|i: int| #[trigger]
            fails_at(
                names_in(trees(replies@[0]->Ok_0@)),
                customruns_in(pr@),
                rows_of(replies@).skip(1),
                i,
                r->Done_0->Err_0->Db_0@,
            ),
        replies@.len() > 0 && replies@[0] is Ok && r is Done && r->Done_0 is Ok ==> are_settled(
            names_in(trees(replies@[0]->Ok_0@)),
            customruns_in(pr@),
            rows_of(replies@).skip(1),
            customruns_in(pr@).len() as int,
        ),
{
    let given = rows_views(replies@);
    lemma_rows(replies@);
    if replies@.len() > 0 {
        assert(given[0] == rows_view(replies@[0]));
        if let Ok(first) = replies@[0] {
            let docs = trees(first@);
            lemma_names(docs);
            lemma_customruns(pr@);
            let found = names_in(docs);
            let customruns = customruns_in(pr@);
            let rest = rows_of(replies@).skip(1);
            assert(found == names_of(docs));
            assert(customruns == customruns_of(pr@));
            lemma_search(found, docs, customruns, rest);
            assert(search_view(r) == Some(taskrun_search(run_name@, pr@, given)));
            match proxy_search(found, docs, customruns, rest) {
                Lookup::Ask(q) => {
                    let i = choose|i: int| #[trigger] asks_for(found, customruns, rest, i, q);
                    assert(r is Ask && r->Ask_0@ == q);
                    assert(asks_for(found, customruns, rest, i, r->Ask_0@));
                    assert(docs == trees(replies@[0]->Ok_0@));
                },
                Lookup::Done(Err(e)) => {
                    let i = choose|i: int| #[trigger] fails_at(found, customruns, rest, i, e);
                    assert(r is Done && r->Done_0 is Err && r->Done_0->Err_0 is Db);
                    assert(fails_at(found, customruns, rest, i, r->Done_0->Err_0->Db_0@));
                },
                Lookup::Done(Ok(_)) => {},
            }
        }
    }
}

/// A search that ends well gives every record that the first query gave, and
/// what each CustomRun adds, and nothing else. Where the run has CustomRuns, the
/// records are put in the order in which their objects were created; those of
/// one moment keep their order.
pub proof fn law_search_finds(
    run_name: &str,
    pr: &Json,
    replies: &Vec<Result<Vec<Json>, String>>,
    docs: Vec<Json>,
    moment: Seq<char>,
)
    requires
        call_ensures(fetch_pg_records, (run_name, pr, replies), Lookup::Done(Ok(docs))),
    ensures
        replies@.len() > 0,
        replies@[0] is Ok,
        ({
            let first = trees(replies@[0]->Ok_0@);
            let customruns = customruns_in(pr@);
            let all = first + gathered(
                names_in(first),
                customruns,
                rows_of(replies@).skip(1),
                customruns.len() as int,
            );
            let r = trees(docs@);
            &&& customruns.len() == 0 ==> r == first
            &&& customruns.len() > 0 ==> {
                &&& r.to_multiset() == all.to_multiset()
                &&& forall|i: int, j: int|
                    0 <= i < j < r.len() ==> !before(
                        created(#[trigger] r[j]),
                        created(#[trigger] r[i]),
                    )
                &&& having(r, moment) == having(all, moment)
            }
        }),
{
    let given = rows_views(replies@);
    lemma_rows(replies@);
    assert(given[0] == rows_view(replies@[0]));
    let first = trees(replies@[0]->Ok_0@);
    lemma_names(first);
    lemma_customruns(pr@);
    let customruns = customruns_in(pr@);
    lemma_search(names_of(first), first, customruns, given.skip(1));
    let all = first + gathered(
        names_in(first),
        customruns,
        rows_of(replies@).skip(1),
        customruns.len() as int,
    );
    let r = trees(docs@);
    if customruns.len() == 0 {
        assert(all =~= first);
    } else {
        lemma_sorted(all, Direction::Ascending);
        lemma_sorted_items(all, Direction::Ascending);
        assert(r == sorted(all, Direction::Ascending));
        assert forall|d: JsonView| #[trigger] d.key() == created(d) by {}
        assert(having(r, moment) == having(all, moment));
    }
}

/// Records are sorted by when their objects were created.
pub proof fn law_records_are_sorted_by_creation(doc: JsonView, d: Json)
    ensures
        doc.key() == created(doc),
        d.key() == created(d@),
{
}

} // verus!
