//! A run, put together from the archive: tekton-results' records in Postgres,
//! and the logs in Loki.
use vstd::prelude::*;
use vstd::string::*;

use crate::db::k8s_tekton::{
    condition_reason, condition_reason_of, condition_status, condition_status_of,
};
use crate::handlers::label_selector::{pair_view, pair_views, Pair};
use crate::handlers::run_discovery::{
    declared_names, declared_order_of, declared_tasks, declared_views, find_declared, pipeline_of,
    planned_of, status_doc, step_container_of, step_identity, step_name_of, terminated_status,
    terminated_status_of, DeclaredTask, DeclaredView,
};
use crate::json::{
    at, dig, field, item, item_count, items_at, opt_tree, parse, parse_of, text_at, text_copy,
    text_ref, trees, Json, JsonView,
};
use crate::lookup::Lookup;
use crate::models::run_stream::{
    line_views, status_of, step_views, task_views, LineView, LogLine, RunMeta, RunSource, RunStatus,
    RunView, StepMeta, StepView, TaskMeta, TaskView,
};
use crate::order::{lemma_sorted_map, sort, sorted, Direction, Keyed, Sortable};
use crate::text::{
    cat, cat3, copy_texts, decimal, decimal_of, holds, is_trimmed, lemma_split_pieces, lemma_trim,
    opt_text, same, split, split_of, strip, stripped, text_or, text_or_default, texts, trim, trim_of,
};

verus! {

/// Why a run could not be put together from the archive.
#[derive(Debug)]
pub enum ArchiveError {
    NotFound,
    Db(String),
    Loki(String),
}

impl ArchiveError {
    /// What a client is told.
    pub open spec fn text(self) -> Seq<char> {
        match self {
            ArchiveError::NotFound => "run not found in archive"@,
            ArchiveError::Db(e) => "postgres error: "@ + e@,
            ArchiveError::Loki(e) => "loki error: "@ + e@,
        }
    }

    /// What a client is told.
    pub fn message(&self) -> (r: String)
        ensures
            r@ == self.text(),
    {
        match self {
            ArchiveError::NotFound => "run not found in archive".to_owned(),
            ArchiveError::Db(e) => cat("postgres error: ", e.as_str()),
            ArchiveError::Loki(e) => cat("loki error: ", e.as_str()),
        }
    }
}

// ---------------------------------------------------------------------------
// Reading a record
// ---------------------------------------------------------------------------

/// The label that the remote-task-controller puts on the TaskRuns that it
/// creates for a CustomRun. Its value is the CustomRun's name.
pub const CUSTOMRUN_LABEL: &'static str = "remotetask-customrun";

/// The label that holds the name of the task within the pipeline.
pub const PIPELINE_TASK_LABEL: &'static str = "tekton.dev/pipelineTask";

/// An entry of a record's metadata.
pub open spec fn meta_at(doc: JsonView, key: Seq<char>) -> Option<JsonView> {
    at(field(doc, "metadata"@), key)
}

/// A label of a record.
pub open spec fn label_at(doc: JsonView, key: Seq<char>) -> Option<JsonView> {
    at(meta_at(doc, "labels"@), key)
}

/// The name of a record's object.
pub open spec fn name_of(doc: JsonView) -> Option<Seq<char>> {
    text_at(meta_at(doc, "name"@))
}

/// When a record's object was created; empty where the record does not say.
pub open spec fn created_of(doc: JsonView) -> Seq<char> {
    text_or(text_at(meta_at(doc, "creationTimestamp"@)), Seq::empty())
}

/// A label of a record.
fn label<'a>(doc: &'a Json, key: &str) -> (r: Option<&'a Json>)
    ensures
        opt_tree(r) == label_at(doc@, key@),
{
    dig(dig(doc.get("metadata"), "labels"), key)
}

/// The name of a record's object.
fn object_name(doc: &Json) -> (r: Option<String>)
    ensures
        opt_text(r) == name_of(doc@),
{
    text_copy(dig(doc.get("metadata"), "name"))
}

/// Whether a TaskRun stands in for a CustomRun: whether the
/// remote-task-controller has labelled it so. Such a TaskRun belongs to the
/// CustomRun, not to the PipelineRun.
pub fn is_proxy_taskrun(tr_data: &Json) -> (r: bool)
    ensures
        r == (label_at(tr_data@, CUSTOMRUN_LABEL@) is Some),
{
    label(tr_data, CUSTOMRUN_LABEL).is_some()
}

impl Keyed for JsonView {
    open spec fn key(&self) -> Seq<char> {
        created_of(*self)
    }
}

impl Keyed for Json {
    open spec fn key(&self) -> Seq<char> {
        created_of(self@)
    }
}

impl Sortable for Json {
    fn key_text(&self) -> (r: &str) {
        proof {
            reveal_strlit("");
        }
        assert(""@ =~= Seq::<char>::empty());
        match text_ref(dig(self.get("metadata"), "creationTimestamp")) {
            Some(t) => t,
            None => "",
        }
    }
}

// ---------------------------------------------------------------------------
// What is asked of Postgres
// ---------------------------------------------------------------------------

/// The queries that the archive is asked. Each one takes a single text.
#[derive(Debug, Clone, Copy, PartialEq, Eq, Structural)]
pub enum QueryKind {
    /// The latest record of a PipelineRun, by the run's name.
    Run,
    /// The TaskRuns that are labelled with a run's name, oldest first.
    TaskRuns,
    /// The latest record of a TaskRun, by its name.
    TaskRunNamed,
    /// The latest record of a TaskRun, by the CustomRun that it stands in for.
    TaskRunOfCustomRun,
}

pub const RUN_SQL: &'static str = "SELECT name, data::text AS data, created_time, updated_time FROM records WHERE type = 'tekton.dev/v1.PipelineRun' AND data->'metadata'->>'name' = $1 ORDER BY created_time DESC LIMIT 1";

pub const TASKRUNS_SQL: &'static str = "SELECT name, data::text AS data FROM records WHERE type = 'tekton.dev/v1.TaskRun' AND data->'metadata'->'labels'->>'tekton.dev/pipelineRun' = $1 ORDER BY created_time ASC";

pub const TASKRUN_NAMED_SQL: &'static str = "SELECT data::text AS data FROM records WHERE type = 'tekton.dev/v1.TaskRun' AND data->'metadata'->>'name' = $1 ORDER BY created_time DESC LIMIT 1";

pub const TASKRUN_OF_CUSTOMRUN_SQL: &'static str = "SELECT data::text AS data FROM records WHERE type = 'tekton.dev/v1.TaskRun' AND data->'metadata'->'labels'->>'remotetask-customrun' = $1 ORDER BY created_time DESC LIMIT 1";

impl QueryKind {
    /// The query, with `$1` for its text.
    pub fn sql(&self) -> (r: &'static str)
        ensures
            r@ == (match *self {
                QueryKind::Run => RUN_SQL@,
                QueryKind::TaskRuns => TASKRUNS_SQL@,
                QueryKind::TaskRunNamed => TASKRUN_NAMED_SQL@,
                QueryKind::TaskRunOfCustomRun => TASKRUN_OF_CUSTOMRUN_SQL@,
            }),
    {
        match self {
            QueryKind::Run => RUN_SQL,
            QueryKind::TaskRuns => TASKRUNS_SQL,
            QueryKind::TaskRunNamed => TASKRUN_NAMED_SQL,
            QueryKind::TaskRunOfCustomRun => TASKRUN_OF_CUSTOMRUN_SQL,
        }
    }
}

/// A query and its text.
#[derive(Debug)]
pub struct PgQuery {
    pub kind: QueryKind,
    pub param: String,
}

impl View for PgQuery {
    type V = (QueryKind, Seq<char>);

    open spec fn view(&self) -> (QueryKind, Seq<char>) {
        (self.kind, self.param@)
    }
}

// ---------------------------------------------------------------------------
// The run's own record
// ---------------------------------------------------------------------------

/// How much the log window reaches beyond the run on each side, to absorb the
/// difference between the clocks of the cluster and of Loki: five minutes, in
/// nanoseconds.
pub const WINDOW_BUFFER_NS: u128 = 300_000_000_000;

/// The longest time span, in nanoseconds: 2^64 seconds less a nanosecond.
pub const MAX_SPAN_NS: u128 = 18_446_744_073_709_551_615_999_999_999;

/// Nanoseconds since the epoch; none before it.
pub open spec fn since_epoch(ns: i128) -> nat {
    if ns > 0 {
        ns as nat
    } else {
        0
    }
}

/// Where the log window begins.
pub open spec fn window_start(created_ns: i128) -> nat {
    if since_epoch(created_ns) > WINDOW_BUFFER_NS {
        (since_epoch(created_ns) - WINDOW_BUFFER_NS) as nat
    } else {
        0
    }
}

/// Where the log window ends.
pub open spec fn window_end(updated_ns: i128) -> nat {
    if since_epoch(updated_ns) + WINDOW_BUFFER_NS <= MAX_SPAN_NS {
        since_epoch(updated_ns) + WINDOW_BUFFER_NS as nat
    } else {
        since_epoch(updated_ns)
    }
}

/// The span in which the logs of a run are looked for, given when its record
/// was created and last updated, in nanoseconds since the epoch.
pub fn log_window(created_ns: i128, updated_ns: i128) -> (r: (u128, u128))
    ensures
        r.0 == window_start(created_ns),
        r.1 == window_end(updated_ns),
{
    let created: u128 = if created_ns > 0 {
        created_ns as u128
    } else {
        0
    };
    let updated: u128 = if updated_ns > 0 {
        updated_ns as u128
    } else {
        0
    };
    let start: u128 = if created > WINDOW_BUFFER_NS {
        created - WINDOW_BUFFER_NS
    } else {
        0
    };
    let end: u128 = if updated + WINDOW_BUFFER_NS <= MAX_SPAN_NS {
        updated + WINDOW_BUFFER_NS
    } else {
        updated
    };
    (start, end)
}

/// The log window of a run that was updated no earlier than it was created
/// holds both moments.
pub proof fn law_window_covers_run(created_ns: i128, updated_ns: i128)
    requires
        created_ns <= updated_ns,
    ensures
        window_start(created_ns) <= since_epoch(created_ns) <= since_epoch(updated_ns)
            <= window_end(updated_ns),
{
}

/// A row of the query for a run.
#[derive(Debug)]
pub struct RunRow {
    pub data: String,
    /// Nanoseconds since the epoch.
    pub created_ns: i128,
    /// Nanoseconds since the epoch.
    pub updated_ns: i128,
}

/// The record of a run, and the span in which its logs are looked for.
#[derive(Debug)]
pub struct RunRecord {
    pub pr: Json,
    pub start_ns: u128,
    pub end_ns: u128,
}

/// What follows the query for a run: `data` is what the row's text was parsed
/// as.
pub fn checked_record(
    data: Result<Json, String>,
    created_ns: i128,
    updated_ns: i128,
) -> (r: Result<RunRecord, ArchiveError>)
    ensures
        match data {
            Ok(pr) => r == Ok::<RunRecord, ArchiveError>(
                RunRecord {
                    pr,
                    start_ns: window_start(created_ns) as u128,
                    end_ns: window_end(updated_ns) as u128,
                },
            ),
            Err(e) => r matches Err(ArchiveError::Db(m)) && m@ == "bad JSON in records.data: "@
                + e@,
        },
{
    match data {
        Ok(pr) => {
            let (start_ns, end_ns) = log_window(created_ns, updated_ns);
            Ok(RunRecord { pr, start_ns, end_ns })
        },
        Err(e) => Err(ArchiveError::Db(cat("bad JSON in records.data: ", e.as_str()))),
    }
}

/// The record of a run, from the reply to the query for it.
pub fn run_record(reply: Result<Option<RunRow>, String>) -> (r: Result<RunRecord, ArchiveError>)
    ensures
        match reply {
            Err(e) => r == Err::<RunRecord, ArchiveError>(ArchiveError::Db(e)),
            Ok(None) => r == Err::<RunRecord, ArchiveError>(ArchiveError::NotFound),
            Ok(Some(row)) => match parse_of(row.data@) {
                Ok(doc) => r matches Ok(record) && record.pr@ == doc && record.start_ns
                    == window_start(row.created_ns) && record.end_ns == window_end(row.updated_ns),
                Err(e) => r matches Err(ArchiveError::Db(m)) && m@ == "bad JSON in records.data: "@
                    + e,
            },
        },
{
    match reply {
        Err(e) => Err(ArchiveError::Db(e)),
        Ok(None) => Err(ArchiveError::NotFound),
        Ok(Some(row)) => checked_record(parse(row.data.as_str()), row.created_ns, row.updated_ns),
    }
}

// ---------------------------------------------------------------------------
// The TaskRuns of a run
// ---------------------------------------------------------------------------

/// The document that a row's text is; nothing for a text that is none.
pub open spec fn document_of(text: Seq<char>) -> Option<JsonView> {
    match parse_of(text) {
        Ok(doc) => Some(doc),
        Err(_) => None,
    }
}

/// The documents among the rows' texts.
pub fn parse_rows(rows: &Vec<String>) -> (r: Vec<Json>)
    ensures
        trees(r@) == texts(rows@).filter_map(|t: Seq<char>| document_of(t)),
{
    let ghost all = texts(rows@);
    let ghost f = |t: Seq<char>| document_of(t);
    let mut out: Vec<Json> = Vec::new();
    let mut i: usize = 0;
    assert(trees(out@) =~= all.take(0).filter_map(f));
    while i < rows.len()
        invariant
            all == texts(rows@),
            f == (|t: Seq<char>| document_of(t)),
            i <= rows@.len(),
            trees(out@) == all.take(i as int).filter_map(f),
        decreases rows@.len() - i,
    {
        proof {
            all.lemma_filter_map_take_succ(f, i as int);
        }
        let ghost before = trees(out@);
        assert(all[i as int] == rows@[i as int]@);
        if let Ok(doc) = parse(rows[i].as_str()) {
            out.push(doc);
            assert(trees(out@) =~= before + seq![doc@]);
        } else {
            assert(trees(out@) =~= before + Seq::<JsonView>::empty());
        }
        i = i + 1;
    }
    assert(all.take(all.len() as int) =~= all);
    out
}

/// The CustomRun that an item of `childReferences` names.
pub open spec fn customrun_of(c: JsonView) -> Option<Seq<char>> {
    if text_at(field(c, "kind"@)) == Some("CustomRun"@) {
        text_at(field(c, "name"@))
    } else {
        None
    }
}

/// The CustomRuns among the children of a PipelineRun.
pub open spec fn customruns_of(pr: JsonView) -> Seq<Seq<char>> {
    items_at(at(field(pr, "status"@), "childReferences"@)).filter_map(|c: JsonView| customrun_of(c))
}

/// Whether an item of `childReferences` is a CustomRun.
fn is_customrun(c: &Json) -> (r: bool)
    ensures
        r == (text_at(field(c@, "kind"@)) == Some("CustomRun"@)),
{
    match text_ref(c.get("kind")) {
        Some(kind) => same(kind, "CustomRun"),
        None => false,
    }
}

/// The CustomRuns among the children of a PipelineRun.
pub fn customrun_names(pr_data: &Json) -> (r: Vec<String>)
    ensures
        texts(r@) == customruns_of(pr_data@),
{
    let list = dig(pr_data.get("status"), "childReferences");
    let ghost all = items_at(opt_tree(list));
    let ghost f = |c: JsonView| customrun_of(c);
    let mut out: Vec<String> = Vec::new();
    let n: usize = item_count(list);
    let mut i: usize = 0;
    assert(texts(out@) =~= all.take(0).filter_map(f));
    while i < n
        invariant
            all == items_at(opt_tree(list)),
            n == all.len(),
            f == (|c: JsonView| customrun_of(c)),
            i <= n,
            texts(out@) == all.take(i as int).filter_map(f),
        decreases n - i,
    {
        proof {
            all.lemma_filter_map_take_succ(f, i as int);
        }
        let ghost before = texts(out@);
        let c = item(list, i);
        let name = if is_customrun(c) {
            text_copy(c.get("name"))
        } else {
            None
        };
        if let Some(name) = name {
            out.push(name);
            assert(texts(out@) =~= before + seq![name@]);
        } else {
            assert(texts(out@) =~= before + Seq::<Seq<char>>::empty());
        }
        i = i + 1;
    }
    assert(all.take(n as int) =~= all);
    out
}

/// The names of the records that have one.
pub open spec fn names_of(docs: Seq<JsonView>) -> Seq<Seq<char>> {
    docs.filter_map(|d: JsonView| name_of(d))
}

/// The names of the records that have one.
fn object_names(docs: &Vec<Json>) -> (r: Vec<String>)
    ensures
        texts(r@) == names_of(trees(docs@)),
{
    let ghost all = trees(docs@);
    let ghost f = |d: JsonView| name_of(d);
    let mut out: Vec<String> = Vec::new();
    let mut i: usize = 0;
    assert(texts(out@) =~= all.take(0).filter_map(f));
    while i < docs.len()
        invariant
            all == trees(docs@),
            f == (|d: JsonView| name_of(d)),
            i <= docs@.len(),
            texts(out@) == all.take(i as int).filter_map(f),
        decreases docs@.len() - i,
    {
        proof {
            all.lemma_filter_map_take_succ(f, i as int);
        }
        let ghost before = texts(out@);
        assert(all[i as int] == docs@[i as int]@);
        if let Some(name) = object_name(&docs[i]) {
            out.push(name);
            assert(texts(out@) =~= before + seq![name@]);
        } else {
            assert(texts(out@) =~= before + Seq::<Seq<char>>::empty());
        }
        i = i + 1;
    }
    assert(all.take(all.len() as int) =~= all);
    out
}

/// The name that the TaskRun of a CustomRun has by convention.
pub open spec fn proxy_name_of(customrun: Seq<char>) -> Seq<char> {
    customrun + "-exec"@
}

/// Whether a record is none of those whose names were found already. A record
/// without a name counts as one with an empty name.
pub open spec fn is_new(doc: JsonView, found: Seq<Seq<char>>) -> bool {
    !found.contains(text_or(name_of(doc), Seq::empty()))
}

/// How far a search has come: the query to make next, or the records.
pub type Search = Lookup<(QueryKind, Seq<char>), Result<Seq<JsonView>, Seq<char>>>;

/// The rest of a search for the TaskRuns of CustomRuns, behind those that were
/// found already. A TaskRun whose conventional name is among `found` is not
/// searched for; any other is first asked for by that name, and, where that
/// gives no record, by the label. A query that fails ends the search.
pub open spec fn proxy_search(
    found: Seq<Seq<char>>,
    docs: Seq<JsonView>,
    customruns: Seq<Seq<char>>,
    replies: Seq<Result<Seq<JsonView>, Seq<char>>>,
) -> Search
    decreases customruns.len(),
{
    if customruns.len() == 0 {
        Search::Done(Ok(docs))
    } else {
        let rest = customruns.drop_first();
        let proxy = proxy_name_of(customruns[0]);
        if found.contains(proxy) {
            proxy_search(found, docs, rest, replies)
        } else if replies.len() == 0 {
            Search::Ask((QueryKind::TaskRunNamed, proxy))
        } else {
            match replies[0] {
                Err(e) => Search::Done(Err(e)),
                Ok(named) => if named.len() > 0 {
                    proxy_search(found, docs.push(named[0]), rest, replies.skip(1))
                } else if replies.len() == 1 {
                    Search::Ask((QueryKind::TaskRunOfCustomRun, customruns[0]))
                } else {
                    match replies[1] {
                        Err(e) => Search::Done(Err(e)),
                        Ok(labelled) => proxy_search(
                            found,
                            docs + labelled.filter(|d: JsonView| is_new(d, found)),
                            rest,
                            replies.skip(2),
                        ),
                    }
                },
            }
        }
    }
}

/// The search for the TaskRuns of a run: those that are labelled with the
/// run's name, and then those of its CustomRuns. With CustomRuns, the records
/// are put in the order in which their objects were created.
pub open spec fn taskrun_search(
    run_name: Seq<char>,
    pr: JsonView,
    replies: Seq<Result<Seq<JsonView>, Seq<char>>>,
) -> Search {
    if replies.len() == 0 {
        Search::Ask((QueryKind::TaskRuns, run_name))
    } else {
        match replies[0] {
            Err(e) => Search::Done(Err(e)),
            Ok(docs) => {
                let customruns = customruns_of(pr);
                match proxy_search(names_of(docs), docs, customruns, replies.skip(1)) {
                    Search::Done(Ok(all)) => Search::Done(
                        Ok(
                            if customruns.len() > 0 {
                                sorted(all, Direction::Ascending)
                            } else {
                                all
                            },
                        ),
                    ),
                    other => other,
                }
            },
        }
    }
}

/// The view of the reply to a query.
pub open spec fn rows_view(reply: Result<Vec<Json>, String>) -> Result<Seq<JsonView>, Seq<char>> {
    match reply {
        Ok(docs) => Ok(trees(docs@)),
        Err(e) => Err(e@),
    }
}

/// The views of a list of replies.
pub open spec fn rows_views(replies: Seq<Result<Vec<Json>, String>>) -> Seq<
    Result<Seq<JsonView>, Seq<char>>,
> {
    replies.map_values(|reply: Result<Vec<Json>, String>| rows_view(reply))
}

/// The view of a search.
pub open spec fn search_view(r: Lookup<PgQuery, Result<Vec<Json>, ArchiveError>>) -> Option<
    Search,
> {
    match r {
        Lookup::Ask(q) => Some(Search::Ask(q@)),
        Lookup::Done(Ok(docs)) => Some(Search::Done(Ok(trees(docs@)))),
        Lookup::Done(Err(ArchiveError::Db(e))) => Some(Search::Done(Err(e@))),
        Lookup::Done(Err(_)) => None,
    }
}

/// Copies of the records that are none of those whose names were found
/// already.
fn new_docs(docs: &Vec<Json>, found: &Vec<String>) -> (r: Vec<Json>)
    ensures
        trees(r@) == trees(docs@).filter(|d: JsonView| is_new(d, texts(found@))),
{
    let ghost all = trees(docs@);
    let ghost names = texts(found@);
    let ghost keep = |d: JsonView| is_new(d, names);
    let mut out: Vec<Json> = Vec::new();
    let mut i: usize = 0;
    proof {
        reveal(Seq::filter);
        assert(trees(out@) =~= all.take(0).filter(keep));
    }
    while i < docs.len()
        invariant
            all == trees(docs@),
            names == texts(found@),
            keep == (|d: JsonView| is_new(d, names)),
            i <= docs@.len(),
            trees(out@) == all.take(i as int).filter(keep),
        decreases docs@.len() - i,
    {
        let ghost before = trees(out@);
        proof {
            reveal(Seq::filter);
            assert(all.take(i + 1).drop_last() =~= all.take(i as int));
            assert(all[i as int] == docs@[i as int]@);
        }
        let name = match object_name(&docs[i]) {
            Some(n) => n,
            None => String::new(),
        };
        if !holds(found, name.as_str()) {
            let doc = docs[i].copy();
            out.push(doc);
            assert(trees(out@) =~= before.push(doc@));
        }
        i = i + 1;
    }
    assert(all.take(all.len() as int) =~= all);
    out
}

/// Copies of records.
fn copy_docs(docs: &Vec<Json>) -> (r: Vec<Json>)
    ensures
        trees(r@) == trees(docs@),
{
    let mut out: Vec<Json> = Vec::new();
    let mut i: usize = 0;
    while i < docs.len()
        invariant
            i <= docs@.len(),
            out@.len() == i,
            forall|j: int| 0 <= j < i ==> (#[trigger] out@[j])@ == docs@[j]@,
        decreases docs@.len() - i,
    {
        out.push(docs[i].copy());
        i = i + 1;
    }
    assert(trees(out@) =~= trees(docs@));
    out
}

/// Searches for the TaskRuns of a run, given its PipelineRun's record and what
/// the queries gave so far. A query that fails is an error of the database.
pub fn fetch_pg_records(
    run_name: &str,
    pr_data: &Json,
    replies: &Vec<Result<Vec<Json>, String>>,
) -> (r: Lookup<PgQuery, Result<Vec<Json>, ArchiveError>>)
    ensures
        search_view(r) == Some(taskrun_search(run_name@, pr_data@, rows_views(replies@))),
{
    let ghost given = rows_views(replies@);
    if replies.len() == 0 {
        return Lookup::Ask(PgQuery { kind: QueryKind::TaskRuns, param: run_name.to_owned() });
    }
    assert(given[0] == rows_view(replies@[0]));
    let first = match &replies[0] {
        Err(e) => {
            return Lookup::Done(Err(ArchiveError::Db(e.clone())));
        },
        Ok(docs) => docs,
    };
    let customruns = customrun_names(pr_data);
    let already_found = object_names(first);
    let mut docs = copy_docs(first);
    let ghost found = texts(already_found@);
    let ghost names = texts(customruns@);
    let ghost start = trees(docs@);
    let mut i: usize = 0;
    let mut k: usize = 1;
    assert(names.skip(0) =~= names);
    while i < customruns.len()
        invariant
            given == rows_views(replies@),
            given.len() >= 1,
            given[0] == Ok::<Seq<JsonView>, Seq<char>>(start),
            found == texts(already_found@),
            found == names_of(start),
            names == texts(customruns@),
            names == customruns_of(pr_data@),
            i <= customruns@.len(),
            1 <= k <= replies@.len(),
            proxy_search(found, start, names, given.skip(1)) == proxy_search(
                found,
                trees(docs@),
                names.skip(i as int),
                given.skip(k as int),
            ),
        decreases customruns@.len() - i,
    {
        let ghost before = trees(docs@);
        let ghost left = given.skip(k as int);
        let customrun_name = customruns[i].as_str();
        assert(names.skip(i as int)[0] == customrun_name@);
        assert(names.skip(i as int).drop_first() =~= names.skip(i + 1));
        i = i + 1;
        let proxy_name = cat(customrun_name, "-exec");
        if holds(&already_found, proxy_name.as_str()) {
            continue;
        }
        if k >= replies.len() {
            return Lookup::Ask(PgQuery { kind: QueryKind::TaskRunNamed, param: proxy_name });
        }
        assert(left[0] == rows_view(replies@[k as int]));
        assert(left.skip(1) =~= given.skip(k + 1));
        let named = match &replies[k] {
            Err(e) => {
                return Lookup::Done(Err(ArchiveError::Db(e.clone())));
            },
            Ok(rows) => rows,
        };
        if named.len() > 0 {
            let doc = named[0].copy();
            assert(trees(named@)[0] == named@[0]@);
            docs.push(doc);
            assert(trees(docs@) =~= before.push(doc@));
            k = k + 1;
            continue;
        }
        if k + 1 >= replies.len() {
            return Lookup::Ask(
                PgQuery {
                    kind: QueryKind::TaskRunOfCustomRun,
                    param: customrun_name.to_owned(),
                },
            );
        }
        assert(left[1] == rows_view(replies@[k + 1]));
        assert(left.skip(2) =~= given.skip(k + 2));
        match &replies[k + 1] {
            Err(e) => {
                return Lookup::Done(Err(ArchiveError::Db(e.clone())));
            },
            Ok(rows) => {
                let mut fresh = new_docs(rows, &already_found);
                let ghost added = trees(fresh@);
                docs.append(&mut fresh);
                assert(trees(docs@) =~= before + added);
            },
        }
        k = k + 2;
    }
    assert(names.skip(i as int).len() == 0);
    if customruns.len() > 0 {
        let ghost all = docs@;
        let out = sort(docs, Direction::Ascending);
        proof {
            lemma_sorted_map(all, |j: Json| j@, Direction::Ascending);
        }
        Lookup::Done(Ok(out))
    } else {
        Lookup::Done(Ok(docs))
    }
}

proof fn lemma_proxy_search(
    found: Seq<Seq<char>>,
    docs: Seq<JsonView>,
    customruns: Seq<Seq<char>>,
    replies: Seq<Result<Seq<JsonView>, Seq<char>>>,
)
    ensures
        proxy_search(found, docs, customruns, replies) matches Search::Done(Ok(all))
            ==> docs.is_prefix_of(all),
    decreases customruns.len(),
{
    if customruns.len() > 0 {
        let rest = customruns.drop_first();
        if found.contains(proxy_name_of(customruns[0])) {
            lemma_proxy_search(found, docs, rest, replies);
        } else if replies.len() > 0 && replies[0] is Ok {
            let named = replies[0]->Ok_0;
            if named.len() > 0 {
                lemma_proxy_search(found, docs.push(named[0]), rest, replies.skip(1));
                assert(docs.is_prefix_of(docs.push(named[0])));
            } else if replies.len() > 1 && replies[1] is Ok {
                let more = replies[1]->Ok_0.filter(|d: JsonView| is_new(d, found));
                lemma_proxy_search(found, docs + more, rest, replies.skip(2));
                assert(docs.is_prefix_of(docs + more));
            }
        }
    }
}

/// The search for the TaskRuns of CustomRuns only ever adds: what the first
/// query gave is all there. Where the run has no CustomRun, or where the
/// TaskRuns of all of them were found by the first query, nothing more is
/// asked for.
pub proof fn law_search_keeps_what_was_found(
    docs: Seq<JsonView>,
    customruns: Seq<Seq<char>>,
    replies: Seq<Result<Seq<JsonView>, Seq<char>>>,
)
    ensures
        proxy_search(names_of(docs), docs, customruns, replies) matches Search::Done(Ok(all))
            ==> docs.is_prefix_of(all),
        (forall|k: int|
            0 <= k < customruns.len() ==> names_of(docs).contains(
                proxy_name_of(#[trigger] customruns[k]),
            )) ==> proxy_search(names_of(docs), docs, customruns, replies) == Search::Done(Ok(docs)),
    decreases customruns.len(),
{
    lemma_proxy_search(names_of(docs), docs, customruns, replies);
    if customruns.len() > 0 && names_of(docs).contains(proxy_name_of(customruns[0])) {
        let rest = customruns.drop_first();
        law_search_keeps_what_was_found(docs, rest, replies);
        if forall|k: int|
            0 <= k < customruns.len() ==> names_of(docs).contains(
                proxy_name_of(#[trigger] customruns[k]),
            ) {
            assert forall|k: int| 0 <= k < rest.len() implies names_of(docs).contains(
                proxy_name_of(#[trigger] rest[k]),
            ) by {
                assert(rest[k] == customruns[k + 1]);
            }
        }
    }
}

/// A search ends: it makes at most two queries for each CustomRun.
pub proof fn law_search_ends(
    found: Seq<Seq<char>>,
    docs: Seq<JsonView>,
    customruns: Seq<Seq<char>>,
    replies: Seq<Result<Seq<JsonView>, Seq<char>>>,
)
    ensures
        proxy_search(found, docs, customruns, replies) is Ask ==> replies.len() < 2
            * customruns.len(),
    decreases customruns.len(),
{
    if customruns.len() > 0 {
        let rest = customruns.drop_first();
        if found.contains(proxy_name_of(customruns[0])) {
            law_search_ends(found, docs, rest, replies);
        } else if replies.len() > 0 && replies[0] is Ok {
            let named = replies[0]->Ok_0;
            if named.len() > 0 {
                law_search_ends(found, docs.push(named[0]), rest, replies.skip(1));
            } else if replies.len() > 1 && replies[1] is Ok {
                let more = replies[1]->Ok_0.filter(|d: JsonView| is_new(d, found));
                law_search_ends(found, docs + more, rest, replies.skip(2));
            }
        }
    }
}

// ---------------------------------------------------------------------------
// The run's skeleton
// ---------------------------------------------------------------------------

/// The value that was given last to a key.
pub open spec fn last_value(pairs: Seq<Pair>, key: Seq<char>) -> Option<Seq<char>>
    decreases pairs.len(),
{
    if pairs.len() == 0 {
        None
    } else if pairs.last().0 == key {
        Some(pairs.last().1)
    } else {
        last_value(pairs.drop_last(), key)
    }
}

/// The value that was given last to a key.
fn value_of(pairs: &Vec<(String, String)>, key: &str) -> (r: Option<String>)
    ensures
        opt_text(r) == last_value(pair_views(pairs@), key@),
{
    let ghost all = pair_views(pairs@);
    let mut i: usize = pairs.len();
    assert(all.take(all.len() as int) =~= all);
    while i > 0
        invariant
            all == pair_views(pairs@),
            i <= pairs@.len(),
            last_value(all, key@) == last_value(all.take(i as int), key@),
        decreases i,
    {
        i = i - 1;
        assert(all.take(i + 1).drop_last() =~= all.take(i as int));
        assert(all[i as int] == pair_view(pairs@[i as int]));
        if same(pairs[i].0.as_str(), key) {
            return Some(pairs[i].1.clone());
        }
    }
    None
}

/// A CustomRun and the task that it is within the pipeline.
pub open spec fn customrun_task_of(c: JsonView) -> Option<Pair> {
    match (customrun_of(c), text_at(field(c, "pipelineTaskName"@))) {
        (Some(customrun), Some(task)) => Some((customrun, task)),
        _ => None,
    }
}

/// The CustomRuns of a run, each with the task that it is within the pipeline.
pub open spec fn customrun_tasks_of(pr: JsonView) -> Seq<Pair> {
    items_at(at(field(pr, "status"@), "childReferences"@)).filter_map(
        |c: JsonView| customrun_task_of(c),
    )
}

/// The CustomRuns of a run, each with the task that it is within the pipeline.
fn customrun_tasks(pr_data: &Json) -> (r: Vec<(String, String)>)
    ensures
        pair_views(r@) == customrun_tasks_of(pr_data@),
{
    let list = dig(pr_data.get("status"), "childReferences");
    let ghost all = items_at(opt_tree(list));
    let ghost f = |c: JsonView| customrun_task_of(c);
    let mut out: Vec<(String, String)> = Vec::new();
    let n: usize = item_count(list);
    let mut i: usize = 0;
    assert(pair_views(out@) =~= all.take(0).filter_map(f));
    while i < n
        invariant
            all == items_at(opt_tree(list)),
            n == all.len(),
            f == (|c: JsonView| customrun_task_of(c)),
            i <= n,
            pair_views(out@) == all.take(i as int).filter_map(f),
        decreases n - i,
    {
        proof {
            all.lemma_filter_map_take_succ(f, i as int);
        }
        let ghost before = pair_views(out@);
        let c = item(list, i);
        let name = if is_customrun(c) {
            text_copy(c.get("name"))
        } else {
            None
        };
        if let (Some(customrun), Some(task)) = (name, text_copy(c.get("pipelineTaskName"))) {
            let pair = (customrun, task);
            out.push(pair);
            assert(pair_views(out@) =~= before + seq![pair_view(pair)]);
        } else {
            assert(pair_views(out@) =~= before + Seq::<Pair>::empty());
        }
        i = i + 1;
    }
    assert(all.take(n as int) =~= all);
    out
}

/// What the last declaration of a task says that it runs after.
pub open spec fn depends_on_of(declared: Seq<DeclaredView>, name: Seq<char>) -> Seq<Seq<char>>
    decreases declared.len(),
{
    if declared.len() == 0 {
        Seq::empty()
    } else if declared.last().name == name {
        declared.last().depends_on
    } else {
        depends_on_of(declared.drop_last(), name)
    }
}

/// What the last declaration of a task says that it runs after.
fn depends_on(declared: &Vec<DeclaredTask>, name: &str) -> (r: Vec<String>)
    ensures
        texts(r@) == depends_on_of(declared_views(declared@), name@),
{
    let ghost all = declared_views(declared@);
    let mut i: usize = declared.len();
    assert(all.take(all.len() as int) =~= all);
    while i > 0
        invariant
            all == declared_views(declared@),
            i <= declared@.len(),
            depends_on_of(all, name@) == depends_on_of(all.take(i as int), name@),
        decreases i,
    {
        i = i - 1;
        assert(all.take(i + 1).drop_last() =~= all.take(i as int));
        assert(all[i as int] == declared@[i as int]@);
        if same(declared[i].name.as_str(), name) {
            return copy_texts(&declared[i].depends_on);
        }
    }
    let none: Vec<String> = Vec::new();
    assert(texts(none@) =~= Seq::<Seq<char>>::empty());
    none
}

/// The condition of an object: its status and its reason.
pub fn cond_status_reason(obj: &Json) -> (r: (Option<String>, Option<String>))
    ensures
        opt_text(r.0) == condition_status_of(obj@),
        opt_text(r.1) == condition_reason_of(obj@),
{
    (condition_status(obj), condition_reason(obj))
}

/// A step of an archived TaskRun: terminated, or unknown.
pub open spec fn archived_step_of(s: JsonView) -> StepView {
    let (status, reason) = match field(s, "terminated"@) {
        Some(t) => (terminated_status_of(t), text_at(field(t, "reason"@))),
        None => (RunStatus::Unknown, None),
    };
    StepView { name: step_name_of(s), container: step_container_of(s), status, reason }
}

/// The steps of an archived TaskRun.
pub open spec fn archived_steps_of(tr: JsonView) -> Seq<StepView> {
    items_at(at(field(tr, "status"@), "steps"@)).map_values(|s: JsonView| archived_step_of(s))
}

/// The steps of an archived TaskRun: one for each entry of `steps`.
pub fn steps_from_archived_taskrun(tr_data: &Json) -> (r: Vec<StepMeta>)
    ensures
        step_views(r@) == archived_steps_of(tr_data@),
{
    let list = dig(tr_data.get("status"), "steps");
    let ghost all = items_at(opt_tree(list));
    let mut out: Vec<StepMeta> = Vec::new();
    let n: usize = item_count(list);
    let mut i: usize = 0;
    while i < n
        invariant
            all == items_at(opt_tree(list)),
            n == all.len(),
            i <= n,
            out@.len() == i,
            forall|j: int| 0 <= j < i ==> (#[trigger] out@[j])@ == archived_step_of(all[j]),
        decreases n - i,
    {
        let s = item(list, i);
        let (name, container) = step_identity(s);
        let (status, reason) = match s.get("terminated") {
            Some(t) => (terminated_status(t), text_copy(t.get("reason"))),
            None => (RunStatus::Unknown, None),
        };
        out.push(StepMeta { name, container, status, reason });
        i = i + 1;
    }
    assert(step_views(out@) =~= all.map_values(|s: JsonView| archived_step_of(s)));
    out
}

/// The name of an archived TaskRun.
pub open spec fn archived_taskrun_name_of(tr: JsonView) -> Seq<char> {
    text_or(name_of(tr), "unknown-taskrun"@)
}

/// The task that an archived TaskRun is within the pipeline: by its label; by
/// its CustomRun, where that is known; or else the TaskRun's own name.
pub open spec fn archived_task_name_of(pr: JsonView, tr: JsonView) -> Seq<char> {
    let by_customrun = match text_at(label_at(tr, CUSTOMRUN_LABEL@)) {
        Some(customrun) => last_value(customrun_tasks_of(pr), customrun),
        None => None,
    };
    match text_at(label_at(tr, PIPELINE_TASK_LABEL@)) {
        Some(task) => task,
        None => text_or(by_customrun, archived_taskrun_name_of(tr)),
    }
}

/// The name of the Task that a TaskRun runs.
pub open spec fn task_ref_of(tr: JsonView) -> Option<Seq<char>> {
    text_at(at(at(field(tr, "spec"@), "taskRef"@), "name"@))
}

/// A task of an archived run. What is archived has started.
pub open spec fn archived_task_of(pr: JsonView, tr: JsonView) -> TaskView {
    let taskrun_name = archived_taskrun_name_of(tr);
    let name = archived_task_name_of(pr, tr);
    TaskView {
        name,
        task_ref: task_ref_of(tr),
        taskrun_name,
        pod_name: Some(
            text_or(text_at(at(field(tr, "status"@), "podName"@)), taskrun_name + "-pod"@),
        ),
        status: status_of(condition_status_of(tr), true),
        reason: condition_reason_of(tr),
        steps: archived_steps_of(tr),
        depends_on: depends_on_of(declared_order_of(status_doc(pr)), name),
    }
}

/// An archived run, from its PipelineRun's record and those of its TaskRuns.
pub open spec fn archived_run_of(
    run_name: Seq<char>,
    pr: JsonView,
    taskruns: Seq<JsonView>,
) -> RunView {
    RunView {
        run_name,
        source: RunSource::Archive,
        pipeline_name: pipeline_of(pr),
        status: status_of(condition_status_of(pr), true),
        reason: condition_reason_of(pr),
        tasks: taskruns.map_values(|tr: JsonView| archived_task_of(pr, tr)),
    }
}

/// The name of the Task that a TaskRun runs.
fn task_ref_name(tr_data: &Json) -> (r: Option<String>)
    ensures
        opt_text(r) == task_ref_of(tr_data@),
{
    text_copy(dig(dig(tr_data.get("spec"), "taskRef"), "name"))
}

/// The status of an archived object with the given condition.
fn archived_status(condition: &Option<String>) -> (r: RunStatus)
    ensures
        r == status_of(opt_text(*condition), true),
{
    match condition {
        Some(s) => RunStatus::from_condition(Some(s.as_str()), true),
        None => RunStatus::from_condition(None, true),
    }
}

/// A task of an archived run.
fn archived_task(
    tr_data: &Json,
    declared: &Vec<DeclaredTask>,
    customruns: &Vec<(String, String)>,
) -> (r: TaskMeta)
    ensures
        forall|pr: JsonView|
            declared_views(declared@) == #[trigger] declared_order_of(status_doc(pr))
                && pair_views(customruns@) == customrun_tasks_of(pr) ==> r@ == archived_task_of(
                pr,
                tr_data@,
            ),
{
    let taskrun_name = text_or_default(object_name(tr_data), "unknown-taskrun");
    let name = match text_copy(label(tr_data, PIPELINE_TASK_LABEL)) {
        Some(task) => task,
        None => {
            let by_customrun = match text_ref(label(tr_data, CUSTOMRUN_LABEL)) {
                Some(customrun) => value_of(customruns, customrun),
                None => None,
            };
            text_or_default(by_customrun, taskrun_name.as_str())
        },
    };
    let pod_name = match text_copy(dig(tr_data.get("status"), "podName")) {
        Some(pod) => pod,
        None => cat(taskrun_name.as_str(), "-pod"),
    };
    let (condition, reason) = cond_status_reason(tr_data);
    let depends_on = depends_on(declared, name.as_str());
    TaskMeta {
        name,
        task_ref: task_ref_name(tr_data),
        taskrun_name,
        pod_name: Some(pod_name),
        status: archived_status(&condition),
        reason,
        steps: steps_from_archived_taskrun(tr_data),
        depends_on,
    }
}

/// Puts a run together from its PipelineRun's record and those of its
/// TaskRuns.
pub fn fetch_archived_meta(run_name: &str, pr_data: &Json, taskruns: &Vec<Json>) -> (r: RunMeta)
    ensures
        r@ == archived_run_of(run_name@, pr_data@, trees(taskruns@)),
{
    let pipeline_name = text_copy(dig(dig(pr_data.get("spec"), "pipelineRef"), "name"));
    let (condition, reason) = cond_status_reason(pr_data);
    let declared = declared_tasks(pr_data);
    let customruns = customrun_tasks(pr_data);
    let ghost all = trees(taskruns@);
    let mut tasks: Vec<TaskMeta> = Vec::new();
    let mut i: usize = 0;
    while i < taskruns.len()
        invariant
            all == trees(taskruns@),
            declared_views(declared@) == declared_order_of(status_doc(pr_data@)),
            pair_views(customruns@) == customrun_tasks_of(pr_data@),
            i <= taskruns@.len(),
            tasks@.len() == i,
            forall|j: int|
                0 <= j < i ==> (#[trigger] tasks@[j])@ == archived_task_of(pr_data@, all[j]),
        decreases taskruns@.len() - i,
    {
        tasks.push(archived_task(&taskruns[i], &declared, &customruns));
        i = i + 1;
    }
    assert(task_views(tasks@) =~= all.map_values(
        |tr: JsonView| archived_task_of(pr_data@, tr),
    ));
    RunMeta {
        run_name: run_name.to_owned(),
        source: RunSource::Archive,
        pipeline_name,
        status: archived_status(&condition),
        reason,
        tasks,
    }
}

proof fn lemma_last_is_first(declared: Seq<DeclaredView>, name: Seq<char>)
    requires
        declared_names(declared).no_duplicates(),
    ensures
        match find_declared(declared, name) {
            Some(d) => d.name == name && declared.contains(d) && depends_on_of(declared, name)
                == d.depends_on,
            None => depends_on_of(declared, name) == Seq::<Seq<char>>::empty() && !declared_names(
                declared,
            ).contains(name),
        },
    decreases declared.len(),
{
    let names = declared_names(declared);
    if declared.len() > 0 {
        let rest = declared.drop_first();
        assert(declared_names(rest) =~= names.drop_first());
        lemma_last_is_first(rest, name);
        assert(names[0] == declared[0].name);
        lemma_depends_on_first(declared, name);
        if declared[0].name == name {
            assert(declared.contains(declared[0]));
            if declared_names(rest).contains(name) {
                let k = choose|k: int|
                    0 <= k < rest.len() && declared_names(rest)[k] == name;
                assert(names[k + 1] == name);
            }
            if let Some(d) = find_declared(rest, name) {
                let k = choose|k: int| 0 <= k < rest.len() && rest[k] == d;
                assert(declared_names(rest)[k] == name);
            }
        } else {
            if let Some(d) = find_declared(rest, name) {
                let k = choose|k: int| 0 <= k < rest.len() && rest[k] == d;
                assert(declared[k + 1] == d);
                assert(declared_names(rest)[k] == name);
            } else if names.contains(name) {
                let k = choose|k: int| 0 <= k < names.len() && names[k] == name;
                assert(declared_names(rest)[k - 1] == name);
            }
        }
    }
}

proof fn lemma_depends_on_first(declared: Seq<DeclaredView>, name: Seq<char>)
    requires
        declared.len() > 0,
    ensures
        depends_on_of(declared, name) == (if declared_names(declared.drop_first()).contains(name) {
            depends_on_of(declared.drop_first(), name)
        } else if declared[0].name == name {
            declared[0].depends_on
        } else {
            Seq::empty()
        }),
    decreases declared.len(),
{
    let rest = declared.drop_first();
    if declared.len() == 1 {
        reveal_with_fuel(depends_on_of, 2);
        assert(declared_names(rest).len() == 0);
    } else {
        let front = declared.drop_last();
        lemma_depends_on_first(front, name);
        assert(front.drop_first() =~= rest.drop_last());
        assert(declared_names(rest)[rest.len() - 1] == declared.last().name);
        if declared.last().name != name {
            let inner = declared_names(front.drop_first());
            if inner.contains(name) {
                let k = choose|k: int| 0 <= k < inner.len() && inner[k] == name;
                assert(declared_names(rest)[k] == name);
            }
            if declared_names(rest).contains(name) {
                let k = choose|k: int|
                    0 <= k < rest.len() && declared_names(rest)[k] == name;
                assert(inner[k] == name);
            }
        }
    }
}

/// The archive gives a task the dependencies that the live run gave it, where
/// the pipeline declares no task twice.
pub proof fn law_archive_keeps_dependencies(pr: JsonView, tr: JsonView)
    requires
        declared_names(declared_order_of(status_doc(pr))).no_duplicates(),
    ensures
        archived_task_of(pr, tr).depends_on == planned_of(
            status_doc(pr),
            archived_task_of(pr, tr).name,
        ).depends_on,
{
    lemma_last_is_first(declared_order_of(status_doc(pr)), archived_task_name_of(pr, tr));
}

// ---------------------------------------------------------------------------
// The logs
// ---------------------------------------------------------------------------

/// Where Loki is.
pub const LOKI_BASE_URL: &'static str = "http://loki.logging.svc.cluster.local:3100";

/// The path of Loki's range query.
pub const LOKI_QUERY_PATH: &'static str = "/loki/api/v1/query_range";

/// How many lines Loki is asked for at most.
pub const LOKI_LINE_LIMIT: &'static str = "5000";

/// How long Loki may take to answer, in seconds.
pub const LOKI_TIMEOUT_SECS: u64 = 15;

/// Where Loki is asked.
pub fn loki_url() -> (r: String)
    ensures
        r@ == LOKI_BASE_URL@ + LOKI_QUERY_PATH@,
{
    cat(LOKI_BASE_URL, LOKI_QUERY_PATH)
}

/// What Loki is asked for: the lines of a run within a span, oldest first. The
/// pods of a run carry its name as a label, those of its CustomRuns' TaskRuns
/// too.
pub open spec fn loki_query_of(run_name: Seq<char>, start_ns: nat, end_ns: nat) -> Seq<Pair> {
    seq![
        ("query"@, "{pipelinerun=\""@ + run_name + "\"}"@),
        ("limit"@, LOKI_LINE_LIMIT@),
        ("start"@, decimal_of(start_ns)),
        ("end"@, decimal_of(end_ns)),
        ("direction"@, "forward"@),
    ]
}

/// The parameters of the query for the lines of a run within a span.
pub fn loki_query(run_name: &str, start_ns: u128, end_ns: u128) -> (r: Vec<(String, String)>)
    ensures
        pair_views(r@) == loki_query_of(run_name@, start_ns as nat, end_ns as nat),
{
    let mut out: Vec<(String, String)> = Vec::new();
    out.push(("query".to_owned(), cat3("{pipelinerun=\"", run_name, "\"}")));
    out.push(("limit".to_owned(), LOKI_LINE_LIMIT.to_owned()));
    out.push(("start".to_owned(), decimal(start_ns)));
    out.push(("end".to_owned(), decimal(end_ns)));
    out.push(("direction".to_owned(), "forward".to_owned()));
    assert(pair_views(out@) =~= loki_query_of(run_name@, start_ns as nat, end_ns as nat));
    out
}

/// A status code and its meaning, as `reqwest` writes them.
pub uninterp spec fn status_line_of(code: u16) -> Seq<char>;

/// `reqwest::StatusCode::from_u16`, which takes the codes from 100 to 999, and
/// the code's `Display`: the code, a space, and the code's meaning, or that the
/// meaning is not known. Which meaning each code has is left to `reqwest`.
#[verifier::external_body]
fn status_line(code: u16) -> (r: String)
    requires
        100 <= code <= 999,
    ensures
        r@ == status_line_of(code),
        (decimal_of(code as nat) + " "@).is_prefix_of(r@),
{
    reqwest::StatusCode::from_u16(code).unwrap().to_string()
}

/// What the status of Loki's answer says: nothing where it succeeded, that is,
/// from 200 up to 299.
pub fn loki_refusal(code: u16) -> (r: Option<ArchiveError>)
    requires
        100 <= code <= 999,
    ensures
        200 <= code <= 299 ==> r is None,
        !(200 <= code <= 299) ==> (r matches Some(ArchiveError::Loki(m)) && m@
            == "loki returned HTTP "@ + status_line_of(code)),
{
    if 200 <= code && code <= 299 {
        None
    } else {
        Some(loki_refused(status_line(code)))
    }
}

/// The error of an answer that did not succeed, given its status line.
pub fn loki_refused(line: String) -> (r: ArchiveError)
    ensures
        r matches ArchiveError::Loki(m) && m@ == "loki returned HTTP "@ + line@,
{
    ArchiveError::Loki(cat("loki returned HTTP ", line.as_str()))
}

/// The error of an answer that cannot be read.
pub fn loki_unreadable(e: &str) -> (r: ArchiveError)
    ensures
        r matches ArchiveError::Loki(m) && m@ == "bad JSON from loki: "@ + e@,
{
    ArchiveError::Loki(cat("bad JSON from loki: ", e))
}

/// One of Loki's streams: its labels, and its lines with their timestamps in
/// nanoseconds.
#[derive(Debug)]
pub struct LokiStream {
    pub labels: Vec<(String, String)>,
    pub values: Vec<(String, String)>,
}

/// The view of a `LokiStream`.
#[verifier::ext_equal]
pub struct StreamView {
    pub labels: Seq<Pair>,
    pub values: Seq<Pair>,
}

impl View for LokiStream {
    type V = StreamView;

    open spec fn view(&self) -> StreamView {
        StreamView { labels: pair_views(self.labels@), values: pair_views(self.values@) }
    }
}

/// The views of a list of streams.
pub open spec fn stream_views(v: Seq<LokiStream>) -> Seq<StreamView> {
    v.map_values(|s: LokiStream| s@)
}

/// The timestamp of a stream's first line; "0" where it has no line.
pub open spec fn first_timestamp_of(s: StreamView) -> Seq<char> {
    if s.values.len() > 0 {
        s.values[0].0
    } else {
        "0"@
    }
}

impl Keyed for StreamView {
    open spec fn key(&self) -> Seq<char> {
        first_timestamp_of(*self)
    }
}

impl Keyed for LokiStream {
    open spec fn key(&self) -> Seq<char> {
        first_timestamp_of(self@)
    }
}

impl Sortable for LokiStream {
    fn key_text(&self) -> (r: &str) {
        if self.values.len() > 0 {
            assert(self@.values[0] == pair_view(self.values@[0]));
            self.values[0].0.as_str()
        } else {
            "0"
        }
    }
}

/// The task of a stream's lines; "unknown" where it is not labelled.
pub open spec fn stream_task_of(s: StreamView) -> Seq<char> {
    text_or(last_value(s.labels, "task"@), "unknown"@)
}

/// The step of a stream's lines: its container's name without the `step-` in
/// front; "unknown" where it is not labelled.
pub open spec fn stream_step_of(s: StreamView) -> Seq<char> {
    match last_value(s.labels, "container"@) {
        Some(container) => stripped(container, "step-"@),
        None => "unknown"@,
    }
}

/// What a terminal would show of a line: what stands behind its last carriage
/// return, without the white space around it.
pub open spec fn shown_of(raw: Seq<char>) -> Seq<char> {
    trim_of(split_of(raw, '\r').last())
}

/// A line of a stream; nothing where a terminal would show nothing.
pub open spec fn stream_line_of(
    task: Seq<char>,
    step: Seq<char>,
    value: Pair,
) -> Option<LineView> {
    let line = shown_of(value.1);
    if line.len() == 0 {
        None
    } else {
        Some(LineView { task, step, line, timestamp: Some(value.0) })
    }
}

/// The lines of a stream.
pub open spec fn stream_lines_of(s: StreamView) -> Seq<LineView> {
    s.values.filter_map(
        |value: Pair| stream_line_of(stream_task_of(s), stream_step_of(s), value),
    )
}

/// The lines of streams, one stream behind the other.
pub open spec fn lines_of(streams: Seq<StreamView>) -> Seq<LineView>
    decreases streams.len(),
{
    if streams.len() == 0 {
        Seq::empty()
    } else {
        lines_of(streams.drop_last()) + stream_lines_of(streams.last())
    }
}

/// What a terminal would show of a line.
fn shown(raw: &str) -> (r: String)
    ensures
        r@ == shown_of(raw@),
{
    let pieces = split(raw, '\r');
    proof {
        lemma_split_pieces(raw@, '\r');
    }
    let n: usize = pieces.len();
    assert(texts(pieces@).len() == n);
    assert(texts(pieces@).last() == pieces@[n - 1]@);
    trim(pieces[n - 1].as_str()).to_owned()
}

/// The lines of a stream.
fn stream_lines(s: &LokiStream) -> (r: Vec<LogLine>)
    ensures
        line_views(r@) == stream_lines_of(s@),
{
    let task = text_or_default(value_of(&s.labels, "task"), "unknown");
    let step = match value_of(&s.labels, "container") {
        Some(container) => strip(container.as_str(), "step-").to_owned(),
        None => "unknown".to_owned(),
    };
    let ghost all = s@.values;
    let ghost f = |value: Pair| stream_line_of(stream_task_of(s@), stream_step_of(s@), value);
    let mut out: Vec<LogLine> = Vec::new();
    let mut i: usize = 0;
    assert(line_views(out@) =~= all.take(0).filter_map(f));
    while i < s.values.len()
        invariant
            all == pair_views(s.values@),
            task@ == stream_task_of(s@),
            step@ == stream_step_of(s@),
            f == (|value: Pair|
                stream_line_of(stream_task_of(s@), stream_step_of(s@), value)),
            i <= s.values@.len(),
            line_views(out@) == all.take(i as int).filter_map(f),
        decreases s.values@.len() - i,
    {
        proof {
            all.lemma_filter_map_take_succ(f, i as int);
        }
        let ghost before = line_views(out@);
        assert(all[i as int] == pair_view(s.values@[i as int]));
        let line = shown(s.values[i].1.as_str());
        if line.as_str().is_empty() {
            assert(line_views(out@) =~= before + Seq::<LineView>::empty());
        } else {
            let entry = LogLine {
                task: task.clone(),
                step: step.clone(),
                line,
                timestamp: Some(s.values[i].0.clone()),
            };
            out.push(entry);
            assert(line_views(out@) =~= before + seq![entry@]);
        }
        i = i + 1;
    }
    assert(all.take(all.len() as int) =~= all);
    out
}

/// The lines of Loki's streams. The streams are put in the order of their first
/// lines.
pub fn fetch_archived_logs_raw(streams: Vec<LokiStream>) -> (r: Vec<LogLine>)
    ensures
        line_views(r@) == lines_of(sorted(stream_views(streams@), Direction::Ascending)),
{
    let ghost given = streams@;
    let streams = sort(streams, Direction::Ascending);
    let ghost all = stream_views(streams@);
    proof {
        lemma_sorted_map(given, |s: LokiStream| s@, Direction::Ascending);
    }
    let mut out: Vec<LogLine> = Vec::new();
    let mut i: usize = 0;
    assert(all.take(0) =~= Seq::<StreamView>::empty());
    assert(line_views(out@) =~= Seq::<LineView>::empty());
    while i < streams.len()
        invariant
            all == stream_views(streams@),
            i <= streams@.len(),
            line_views(out@) == lines_of(all.take(i as int)),
        decreases streams@.len() - i,
    {
        let ghost before = line_views(out@);
        assert(all.take(i + 1).drop_last() =~= all.take(i as int));
        assert(all[i as int] == streams@[i as int]@);
        let mut more = stream_lines(&streams[i]);
        let ghost added = line_views(more@);
        out.append(&mut more);
        assert(line_views(out@) =~= before + added);
        i = i + 1;
    }
    assert(all.take(all.len() as int) =~= all);
    out
}

/// A line of the archive is never blank, has no white space around it, and
/// carries a timestamp.
pub proof fn law_archived_lines_are_not_blank(streams: Seq<StreamView>)
    ensures
        forall|k: int|
            #![trigger lines_of(streams)[k]]
            0 <= k < lines_of(streams).len() ==> lines_of(streams)[k].line.len() > 0 && is_trimmed(
                lines_of(streams)[k].line,
            ) && lines_of(streams)[k].timestamp is Some,
    decreases streams.len(),
{
    if streams.len() > 0 {
        let front = lines_of(streams.drop_last());
        let s = streams.last();
        let f = |value: Pair| stream_line_of(stream_task_of(s), stream_step_of(s), value);
        let last = s.values.filter_map(f);
        law_archived_lines_are_not_blank(streams.drop_last());
        assert forall|k: int|
            #![trigger lines_of(streams)[k]]
            0 <= k < lines_of(streams).len() implies lines_of(streams)[k].line.len() > 0
            && is_trimmed(lines_of(streams)[k].line) && lines_of(streams)[k].timestamp is Some by {
            let line = lines_of(streams)[k];
            if k < front.len() {
                assert(line == front[k]);
            } else {
                assert(line == last[k - front.len()]);
                s.values.lemma_filter_map_contains(f, line);
                let value = choose|value: Pair| #[trigger]
                    s.values.contains(value) && f(value) == Some(line);
                lemma_trim(split_of(value.1, '\r').last());
            }
        }
    }
}

/// The Task that a TaskRun runs, and the task that it is within the pipeline.
pub open spec fn task_ref_pair_of(tr: JsonView) -> Option<Pair> {
    match (task_ref_of(tr), text_at(label_at(tr, PIPELINE_TASK_LABEL@))) {
        (Some(task_ref), Some(task)) => Some((task_ref, task)),
        _ => None,
    }
}

/// The name of a TaskRun that stands in for a CustomRun, and the task that it
/// is within the pipeline.
pub open spec fn proxy_pair_of(tr: JsonView) -> Option<Pair> {
    match (name_of(tr), text_at(label_at(tr, PIPELINE_TASK_LABEL@))) {
        (Some(name), Some(task)) => if label_at(tr, CUSTOMRUN_LABEL@) is Some {
            Some((name, task))
        } else {
            None
        },
        _ => None,
    }
}

/// The CustomRun that a TaskRun stands in for, and the task that it is within
/// the pipeline.
pub open spec fn customrun_pair_of(tr: JsonView) -> Option<Pair> {
    match (
        text_at(label_at(tr, CUSTOMRUN_LABEL@)),
        text_at(label_at(tr, PIPELINE_TASK_LABEL@)),
    ) {
        (Some(customrun), Some(task)) => Some((customrun, task)),
        _ => None,
    }
}

/// The task within the pipeline that Loki's `task` label stands for: a Task's
/// name is looked up first, then the name of a CustomRun's TaskRun, and then the
/// CustomRun's own name. What is none of these stays as it is.
pub open spec fn pipeline_task_of(task: Seq<char>, taskruns: Seq<JsonView>) -> Seq<char> {
    let by_ref = last_value(taskruns.filter_map(|tr: JsonView| task_ref_pair_of(tr)), task);
    let by_name = last_value(taskruns.filter_map(|tr: JsonView| proxy_pair_of(tr)), task);
    let by_customrun = last_value(
        taskruns.filter_map(|tr: JsonView| customrun_pair_of(tr)),
        task,
    );
    text_or(by_ref, text_or(by_name, text_or(by_customrun, task)))
}

/// A line, with its task given by the name that it has within the pipeline.
pub open spec fn relabelled(line: LineView, taskruns: Seq<JsonView>) -> LineView {
    LineView { task: pipeline_task_of(line.task, taskruns), ..line }
}

/// The Task of each TaskRun, and the task that it is within the pipeline.
fn task_ref_pairs(taskruns: &Vec<Json>) -> (r: Vec<(String, String)>)
    ensures
        pair_views(r@) == trees(taskruns@).filter_map(|tr: JsonView| task_ref_pair_of(tr)),
{
    let ghost all = trees(taskruns@);
    let ghost f = |tr: JsonView| task_ref_pair_of(tr);
    let mut out: Vec<(String, String)> = Vec::new();
    let mut i: usize = 0;
    assert(pair_views(out@) =~= all.take(0).filter_map(f));
    while i < taskruns.len()
        invariant
            all == trees(taskruns@),
            f == (|tr: JsonView| task_ref_pair_of(tr)),
            i <= taskruns@.len(),
            pair_views(out@) == all.take(i as int).filter_map(f),
        decreases taskruns@.len() - i,
    {
        proof {
            all.lemma_filter_map_take_succ(f, i as int);
        }
        let ghost before = pair_views(out@);
        assert(all[i as int] == taskruns@[i as int]@);
        let task = text_copy(label(&taskruns[i], PIPELINE_TASK_LABEL));
        if let (Some(task_ref), Some(task)) = (task_ref_name(&taskruns[i]), task) {
            let pair = (task_ref, task);
            out.push(pair);
            assert(pair_views(out@) =~= before + seq![pair_view(pair)]);
        } else {
            assert(pair_views(out@) =~= before + Seq::<Pair>::empty());
        }
        i = i + 1;
    }
    assert(all.take(all.len() as int) =~= all);
    out
}

/// The name of each TaskRun that stands in for a CustomRun, and the task that
/// it is within the pipeline.
fn proxy_pairs(taskruns: &Vec<Json>) -> (r: Vec<(String, String)>)
    ensures
        pair_views(r@) == trees(taskruns@).filter_map(|tr: JsonView| proxy_pair_of(tr)),
{
    let ghost all = trees(taskruns@);
    let ghost f = |tr: JsonView| proxy_pair_of(tr);
    let mut out: Vec<(String, String)> = Vec::new();
    let mut i: usize = 0;
    assert(pair_views(out@) =~= all.take(0).filter_map(f));
    while i < taskruns.len()
        invariant
            all == trees(taskruns@),
            f == (|tr: JsonView| proxy_pair_of(tr)),
            i <= taskruns@.len(),
            pair_views(out@) == all.take(i as int).filter_map(f),
        decreases taskruns@.len() - i,
    {
        proof {
            all.lemma_filter_map_take_succ(f, i as int);
        }
        let ghost before = pair_views(out@);
        let ghost mut pushed = false;
        assert(all[i as int] == taskruns@[i as int]@);
        if is_proxy_taskrun(&taskruns[i]) {
            let task = text_copy(label(&taskruns[i], PIPELINE_TASK_LABEL));
            if let (Some(name), Some(task)) = (object_name(&taskruns[i]), task) {
                let pair = (name, task);
                out.push(pair);
                proof {
                    pushed = true;
                }
                assert(pair_views(out@) =~= before + seq![pair_view(pair)]);
            }
        }
        assert(!pushed ==> pair_views(out@) =~= before + Seq::<Pair>::empty());
        i = i + 1;
    }
    assert(all.take(all.len() as int) =~= all);
    out
}

/// The CustomRun that each TaskRun stands in for, and the task that it is within
/// the pipeline.
fn customrun_pairs(taskruns: &Vec<Json>) -> (r: Vec<(String, String)>)
    ensures
        pair_views(r@) == trees(taskruns@).filter_map(|tr: JsonView| customrun_pair_of(tr)),
{
    let ghost all = trees(taskruns@);
    let ghost f = |tr: JsonView| customrun_pair_of(tr);
    let mut out: Vec<(String, String)> = Vec::new();
    let mut i: usize = 0;
    assert(pair_views(out@) =~= all.take(0).filter_map(f));
    while i < taskruns.len()
        invariant
            all == trees(taskruns@),
            f == (|tr: JsonView| customrun_pair_of(tr)),
            i <= taskruns@.len(),
            pair_views(out@) == all.take(i as int).filter_map(f),
        decreases taskruns@.len() - i,
    {
        proof {
            all.lemma_filter_map_take_succ(f, i as int);
        }
        let ghost before = pair_views(out@);
        assert(all[i as int] == taskruns@[i as int]@);
        let customrun = text_copy(label(&taskruns[i], CUSTOMRUN_LABEL));
        let task = text_copy(label(&taskruns[i], PIPELINE_TASK_LABEL));
        if let (Some(customrun), Some(task)) = (customrun, task) {
            let pair = (customrun, task);
            out.push(pair);
            assert(pair_views(out@) =~= before + seq![pair_view(pair)]);
        } else {
            assert(pair_views(out@) =~= before + Seq::<Pair>::empty());
        }
        i = i + 1;
    }
    assert(all.take(all.len() as int) =~= all);
    out
}

/// The lines of a run, with each one's task given by the name that it has
/// within the pipeline. A line of a CustomRun's TaskRun may be labelled with the
/// name of either.
pub fn fetch_archived_logs_for_run(taskruns: &Vec<Json>, lines: Vec<LogLine>) -> (r: Vec<LogLine>)
    ensures
        line_views(r@) == line_views(lines@).map_values(
            |l: LineView| relabelled(l, trees(taskruns@)),
        ),
{
    let task_ref_to_pipeline_task = task_ref_pairs(taskruns);
    let taskrun_name_to_pipeline_task = proxy_pairs(taskruns);
    let customrun_to_pipeline_task = customrun_pairs(taskruns);
    let ghost docs = trees(taskruns@);
    let ghost all = lines@;
    let mut out: Vec<LogLine> = Vec::new();
    for line in it: lines
        invariant
            it.seq() == all,
            docs == trees(taskruns@),
            pair_views(task_ref_to_pipeline_task@) == docs.filter_map(
                |tr: JsonView| task_ref_pair_of(tr),
            ),
            pair_views(taskrun_name_to_pipeline_task@) == docs.filter_map(
                |tr: JsonView| proxy_pair_of(tr),
            ),
            pair_views(customrun_to_pipeline_task@) == docs.filter_map(
                |tr: JsonView| customrun_pair_of(tr),
            ),
            out@.len() == it.index(),
            forall|j: int|
                0 <= j < it.index() ==> (#[trigger] out@[j])@ == relabelled(all[j]@, docs),
    {
        assert(line == all[it.index() as int]);
        let task = match value_of(&task_ref_to_pipeline_task, line.task.as_str()) {
            Some(mapped) => mapped,
            None => match value_of(&taskrun_name_to_pipeline_task, line.task.as_str()) {
                Some(mapped) => mapped,
                None => text_or_default(
                    value_of(&customrun_to_pipeline_task, line.task.as_str()),
                    line.task.as_str(),
                ),
            },
        };
        out.push(LogLine { task, step: line.step, line: line.line, timestamp: line.timestamp });
    }
    assert(line_views(out@) =~= line_views(all).map_values(|l: LineView| relabelled(l, docs)));
    out
}

proof fn lemma_last_value_given(pairs: Seq<Pair>, key: Seq<char>)
    ensures
        last_value(pairs, key) matches Some(value) ==> pairs.contains((key, value)),
    decreases pairs.len(),
{
    if pairs.len() > 0 {
        let front = pairs.drop_last();
        lemma_last_value_given(front, key);
        if pairs.last().0 == key {
            assert(pairs[pairs.len() - 1] == (key, pairs.last().1));
        } else if let Some(value) = last_value(front, key) {
            let k = choose|k: int| 0 <= k < front.len() && front[k] == (key, value);
            assert(pairs[k] == (key, value));
        }
    }
}

proof fn lemma_table_names_a_task(
    pr: JsonView,
    taskruns: Seq<JsonView>,
    f: spec_fn(JsonView) -> Option<Pair>,
    task: Seq<char>,
)
    requires
        forall|tr: JsonView|
            (#[trigger] f(tr)) matches Some(pair) ==> text_at(label_at(tr, PIPELINE_TASK_LABEL@))
                == Some(pair.1),
    ensures
        last_value(taskruns.filter_map(f), task) matches Some(name) ==> exists|i: int|
            0 <= i < taskruns.len() && archived_task_name_of(pr, #[trigger] taskruns[i]) == name,
{
    let pairs = taskruns.filter_map(f);
    lemma_last_value_given(pairs, task);
    if let Some(name) = last_value(pairs, task) {
        taskruns.lemma_filter_map_contains(f, (task, name));
        let tr = choose|tr: JsonView| #[trigger]
            taskruns.contains(tr) && f(tr) == Some((task, name));
        let i = choose|i: int| 0 <= i < taskruns.len() && taskruns[i] == tr;
        assert(archived_task_name_of(pr, taskruns[i]) == name);
    }
}

/// A line that is given another task is given one of the tasks of the run's
/// skeleton.
pub proof fn law_relabelled_lines_find_their_task(
    run_name: Seq<char>,
    pr: JsonView,
    taskruns: Seq<JsonView>,
    line: LineView,
)
    ensures
        relabelled(line, taskruns).task == line.task || exists|i: int|
            0 <= i < taskruns.len() && (#[trigger] archived_run_of(
                run_name,
                pr,
                taskruns,
            ).tasks[i]).name == relabelled(line, taskruns).task,
{
    let by_ref = |tr: JsonView| task_ref_pair_of(tr);
    let by_name = |tr: JsonView| proxy_pair_of(tr);
    let by_customrun = |tr: JsonView| customrun_pair_of(tr);
    lemma_table_names_a_task(pr, taskruns, by_ref, line.task);
    lemma_table_names_a_task(pr, taskruns, by_name, line.task);
    lemma_table_names_a_task(pr, taskruns, by_customrun, line.task);
    let name = relabelled(line, taskruns).task;
    if name != line.task {
        let i = choose|i: int|
            0 <= i < taskruns.len() && archived_task_name_of(pr, #[trigger] taskruns[i]) == name;
        assert(archived_run_of(run_name, pr, taskruns).tasks[i].name == name);
    }
}

} // verus!
