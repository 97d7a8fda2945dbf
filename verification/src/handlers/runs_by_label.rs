//! The runs that carry given labels: those that are live in the cluster, and
//! those that the archive has.
//!
//! The limit is applied to each source before the two are merged: the archive
//! is asked for no more rows than that, and of the live runs the newest are
//! taken. A run that both sources have is listed once, so the merged list can
//! be shorter than the limit.
use vstd::prelude::*;
use vstd::string::*;

use crate::db::k8s_client::KubeError;
use crate::json::{single_entry, value_tree, JsonView};
use crate::models::run_stream::RunSource;
use crate::models::run_summary::{summary_views, RunSummary, SummaryView};
use crate::order::{
    lemma_sorted, lemma_sorted_items, lemma_sorted_map, ordered, precedes, sort, sorted, Direction,
    Keyed, Sortable,
};
use crate::text::{before, cat, cat3, decimal, decimal_of, opt_text, same};

verus! {

/// Why the runs could not be listed.
#[derive(Debug)]
pub enum RunsByLabelError {
    Kube(KubeError),
    Db(String),
}

impl RunsByLabelError {
    /// What is logged.
    pub fn message(&self) -> (r: String)
        ensures
            r@ == (match *self {
                RunsByLabelError::Kube(e) => "error listing PipelineRuns: "@ + e.message@,
                RunsByLabelError::Db(e) => "postgres error: "@ + e@,
            }),
    {
        match self {
            RunsByLabelError::Kube(e) => cat("error listing PipelineRuns: ", e.message.as_str()),
            RunsByLabelError::Db(e) => cat("postgres error: ", e.as_str()),
        }
    }
}

impl From<KubeError> for RunsByLabelError {
    fn from(e: KubeError) -> (r: RunsByLabelError) {
        RunsByLabelError::Kube(e)
    }
}

impl vstd::std_specs::convert::FromSpecImpl<KubeError> for RunsByLabelError {
    open spec fn obeys_from_spec() -> bool {
        true
    }

    open spec fn from_spec(e: KubeError) -> RunsByLabelError {
        RunsByLabelError::Kube(e)
    }
}

impl Keyed for SummaryView {
    open spec fn key(&self) -> Seq<char> {
        self.created_time
    }
}

impl Keyed for RunSummary {
    open spec fn key(&self) -> Seq<char> {
        self.created_time@
    }
}

impl Sortable for RunSummary {
    fn key_text(&self) -> (r: &str) {
        self.created_time.as_str()
    }
}

/// The first `limit` items.
pub open spec fn first<T>(s: Seq<T>, limit: u32) -> Seq<T> {
    if s.len() > limit {
        s.take(limit as int)
    } else {
        s
    }
}

/// The newest `limit` runs, newest first.
pub open spec fn newest_of(runs: Seq<SummaryView>, limit: u32) -> Seq<SummaryView> {
    first(sorted(runs, Direction::Descending), limit)
}

/// The newest `limit` runs, newest first.
pub fn newest(runs: Vec<RunSummary>, limit: u32) -> (r: Vec<RunSummary>)
    ensures
        summary_views(r@) == newest_of(summary_views(runs@), limit),
{
    let ghost given = runs@;
    let mut out = sort(runs, Direction::Descending);
    proof {
        lemma_sorted_map(given, |s: RunSummary| s@, Direction::Descending);
    }
    let ghost all = out@;
    let n: usize = limit as usize;
    if out.len() > n {
        out.truncate(n);
    }
    assert(summary_views(out@) =~= first(summary_views(all), limit));
    out
}

// ---------------------------------------------------------------------------
// Live
// ---------------------------------------------------------------------------

/// A moment: seconds since the epoch, and the nanoseconds beyond them.
#[derive(Debug, Clone, Copy, PartialEq, Eq, Structural)]
pub struct Moment {
    pub second: i64,
    pub nanosecond: i32,
}

/// What is read of a live PipelineRun.
#[derive(Debug)]
pub struct LiveRun {
    pub name: Option<String>,
    pub created: Option<Moment>,
}

/// How `jiff` writes a moment, if it is within its range.
pub uninterp spec fn moment_text_of(second: i64, nanosecond: i32) -> Option<Seq<char>>;

/// `jiff::Timestamp::new`, which fails for a moment outside its range, and the
/// timestamp's `Display`, which writes it in RFC 3339. Both depend on the
/// moment alone.
#[verifier::external_body]
fn moment_text(second: i64, nanosecond: i32) -> (r: Option<String>)
    ensures
        opt_text(r) == moment_text_of(second, nanosecond),
{
    match k8s_openapi::jiff::Timestamp::new(second, nanosecond) {
        Ok(t) => Some(t.to_string()),
        Err(_) => None,
    }
}

/// When a live run was created, in RFC 3339.
pub open spec fn created_text_of(run: LiveRun) -> Option<Seq<char>> {
    match run.created {
        Some(m) => moment_text_of(m.second, m.nanosecond),
        None => None,
    }
}

/// The run with the name and the creation time; none without both.
pub open spec fn summary_of(
    name: Option<Seq<char>>,
    created_time: Option<Seq<char>>,
    source: RunSource,
) -> Option<SummaryView> {
    match (name, created_time) {
        (Some(name), Some(created_time)) => Some(SummaryView { name, created_time, source }),
        _ => None,
    }
}

/// The run with the name and the creation time; none without both.
pub fn summary(name: Option<String>, created_time: Option<String>, source: RunSource) -> (r: Option<
    RunSummary,
>)
    ensures
        match r {
            Some(s) => Some(s@),
            None => None,
        } == summary_of(opt_text(name), opt_text(created_time), source),
{
    match (name, created_time) {
        (Some(name), Some(created_time)) => Some(RunSummary { name, created_time, source }),
        _ => None,
    }
}

/// A live run; none for one without a name or a creation time.
pub open spec fn live_summary_of(run: LiveRun) -> Option<SummaryView> {
    summary_of(opt_text(run.name), created_text_of(run), RunSource::Tekton)
}

/// The newest `limit` live runs. The cluster lists them in no useful order, so
/// they are put in order first: the limit means the most recent ones.
pub fn live_summaries(runs: Vec<LiveRun>, limit: u32) -> (r: Vec<RunSummary>)
    ensures
        summary_views(r@) == newest_of(
            runs@.filter_map(|run: LiveRun| live_summary_of(run)),
            limit,
        ),
{
    let ghost all = runs@;
    let ghost f = |run: LiveRun| live_summary_of(run);
    let mut out: Vec<RunSummary> = Vec::new();
    assert(summary_views(out@) =~= all.take(0).filter_map(f));
    for run in it: runs
        invariant
            it.seq() == all,
            f == (|run: LiveRun| live_summary_of(run)),
            summary_views(out@) == all.take(it.index() as int).filter_map(f),
    {
        proof {
            all.lemma_filter_map_take_succ(f, it.index() as int);
        }
        assert(run == all[it.index() as int]);
        let ghost before = summary_views(out@);
        let created_time = match run.created {
            Some(m) => moment_text(m.second, m.nanosecond),
            None => None,
        };
        if let Some(s) = summary(run.name, created_time, RunSource::Tekton) {
            out.push(s);
            assert(summary_views(out@) =~= before + seq![s@]);
        } else {
            assert(summary_views(out@) =~= before + Seq::<SummaryView>::empty());
        }
    }
    assert(all.take(all.len() as int) =~= all);
    newest(out, limit)
}

// ---------------------------------------------------------------------------
// Archived
// ---------------------------------------------------------------------------

/// The query for the archived runs of a namespace that carry given labels, and
/// what is bound to it: `$1` is the namespace, then one value for each label,
/// and the limit last.
pub struct RunsQuery {
    pub sql: String,
    pub namespace: String,
    pub labels: Vec<serde_json::Value>,
    pub limit: i64,
}

pub const RUNS_SQL_HEAD: &'static str = "SELECT data->'metadata'->>'name' AS name, data->'metadata'->>'creationTimestamp' AS created_time FROM records WHERE type = 'tekton.dev/v1.PipelineRun' AND data->'metadata'->>'namespace' = $1::text ";

pub const LABEL_CLAUSE: &'static str = " AND data->'metadata'->'labels' @> $";

pub const RUNS_SQL_ORDER: &'static str = " ORDER BY created_time DESC LIMIT $";

/// The conditions on `n` labels: the labels of a run contain each of the
/// values from `$2` on.
pub open spec fn label_clauses(n: nat) -> Seq<char>
    decreases n,
{
    if n == 0 {
        Seq::empty()
    } else {
        label_clauses((n - 1) as nat) + (LABEL_CLAUSE@ + decimal_of(n + 1))
    }
}

/// The query for runs with `n` labels.
pub open spec fn runs_sql(n: nat) -> Seq<char> {
    RUNS_SQL_HEAD@ + label_clauses(n) + (RUNS_SQL_ORDER@ + decimal_of(n + 2) + "::int8"@)
}

/// The query for the archived runs of a namespace that carry all the labels.
/// Each label is a condition of its own, so a key that is given twice has to
/// match both times. The rows come newest first, and no more than `limit`.
pub fn archive_query(namespace: &str, pairs: &[(String, String)], limit: u32) -> (r: RunsQuery)
    ensures
        r.sql@ == runs_sql(pairs@.len()),
        r.namespace@ == namespace@,
        r.labels@.len() == pairs@.len(),
        forall|i: int|
            0 <= i < pairs@.len() ==> value_tree(#[trigger] r.labels@[i]) == JsonView::Object(
                seq![(pairs@[i].0@, JsonView::Text(pairs@[i].1@))],
            ),
        r.limit == limit,
{
    let mut clauses = String::new();
    let mut labels: Vec<serde_json::Value> = Vec::new();
    let mut i: usize = 0;
    while i < pairs.len()
        invariant
            i <= pairs@.len(),
            clauses@ == label_clauses(i as nat),
            labels@.len() == i,
            forall|j: int|
                0 <= j < i ==> value_tree(#[trigger] labels@[j]) == JsonView::Object(
                    seq![(pairs@[j].0@, JsonView::Text(pairs@[j].1@))],
                ),
        decreases pairs@.len() - i,
    {
        let placeholder: u128 = i as u128 + 2;
        clauses.append(cat(LABEL_CLAUSE, decimal(placeholder).as_str()).as_str());
        labels.push(single_entry(pairs[i].0.clone(), pairs[i].1.clone()));
        i = i + 1;
    }
    let limit_placeholder: u128 = pairs.len() as u128 + 2;
    let tail = cat3(RUNS_SQL_ORDER, decimal(limit_placeholder).as_str(), "::int8");
    RunsQuery {
        sql: cat3(RUNS_SQL_HEAD, clauses.as_str(), tail.as_str()),
        namespace: namespace.to_owned(),
        labels,
        limit: limit as i64,
    }
}

/// An archived run; none for a row without a name or a creation time.
pub open spec fn archived_summary_of(row: (Option<String>, Option<String>)) -> Option<
    SummaryView,
> {
    summary_of(opt_text(row.0), opt_text(row.1), RunSource::Archive)
}

/// The archived runs, in the order of their rows.
pub fn archived_summaries(rows: Vec<(Option<String>, Option<String>)>) -> (r: Vec<RunSummary>)
    ensures
        summary_views(r@) == rows@.filter_map(
            |row: (Option<String>, Option<String>)| archived_summary_of(row),
        ),
{
    let ghost all = rows@;
    let ghost f = |row: (Option<String>, Option<String>)| archived_summary_of(row);
    let mut out: Vec<RunSummary> = Vec::new();
    assert(summary_views(out@) =~= all.take(0).filter_map(f));
    for row in it: rows
        invariant
            it.seq() == all,
            f == (|row: (Option<String>, Option<String>)| archived_summary_of(row)),
            summary_views(out@) == all.take(it.index() as int).filter_map(f),
    {
        proof {
            all.lemma_filter_map_take_succ(f, it.index() as int);
        }
        assert(row == all[it.index() as int]);
        let ghost before = summary_views(out@);
        let (name, created_time) = row;
        if let Some(s) = summary(name, created_time, RunSource::Archive) {
            out.push(s);
            assert(summary_views(out@) =~= before + seq![s@]);
        } else {
            assert(summary_views(out@) =~= before + Seq::<SummaryView>::empty());
        }
    }
    assert(all.take(all.len() as int) =~= all);
    out
}

// ---------------------------------------------------------------------------
// Merged
// ---------------------------------------------------------------------------

/// Whether a run with the name is listed.
pub open spec fn lists(runs: Seq<SummaryView>, name: Seq<char>) -> bool {
    exists|i: int| 0 <= i < runs.len() && (#[trigger] runs[i]).name == name
}

/// The live runs, and behind them the archived ones whose names are not listed
/// yet.
pub open spec fn merged(live: Seq<SummaryView>, archived: Seq<SummaryView>) -> Seq<SummaryView>
    decreases archived.len(),
{
    if archived.len() == 0 {
        live
    } else {
        let so_far = merged(live, archived.drop_last());
        if lists(so_far, archived.last().name) {
            so_far
        } else {
            so_far.push(archived.last())
        }
    }
}

/// The view of a list of runs that could not be had.
pub open spec fn runs_or_none(r: Result<Vec<RunSummary>, RunsByLabelError>) -> Seq<SummaryView> {
    match r {
        Ok(runs) => summary_views(runs@),
        Err(_) => Seq::empty(),
    }
}

/// Whether a run with the name is listed.
fn is_listed(runs: &Vec<RunSummary>, name: &str) -> (r: bool)
    ensures
        r == lists(summary_views(runs@), name@),
{
    let ghost all = summary_views(runs@);
    let mut i: usize = 0;
    while i < runs.len()
        invariant
            all == summary_views(runs@),
            i <= runs@.len(),
            forall|j: int| 0 <= j < i ==> (#[trigger] all[j]).name != name@,
        decreases runs@.len() - i,
    {
        if same(runs[i].name.as_str(), name) {
            assert(all[i as int].name == name@);
            return true;
        }
        i = i + 1;
    }
    false
}

/// The newest `limit` runs of both sources, newest first. Without the live runs
/// there is no answer; without the archived ones there still is.
pub fn fetch_runs_by_label(
    live: Result<Vec<RunSummary>, RunsByLabelError>,
    archived: Result<Vec<RunSummary>, RunsByLabelError>,
    limit: u32,
) -> (r: Result<Vec<RunSummary>, RunsByLabelError>)
    ensures
        match live {
            Err(e) => r == Err::<Vec<RunSummary>, RunsByLabelError>(e),
            Ok(runs) => r matches Ok(all) && summary_views(all@) == newest_of(
                merged(summary_views(runs@), runs_or_none(archived)),
                limit,
            ),
        },
{
    let live = match live {
        Ok(runs) => runs,
        Err(e) => {
            return Err(e);
        },
    };
    let archived: Vec<RunSummary> = match archived {
        Ok(runs) => runs,
        Err(_) => Vec::new(),
    };
    let ghost ours = summary_views(live@);
    let ghost all = archived@;
    let ghost theirs = summary_views(all);
    assert(theirs =~= runs_or_none(Ok(archived)));
    let mut out = live;
    assert(theirs.take(0) =~= Seq::<SummaryView>::empty());
    for run in it: archived
        invariant
            it.seq() == all,
            theirs == summary_views(all),
            summary_views(out@) == merged(ours, theirs.take(it.index() as int)),
    {
        assert(run == all[it.index() as int]);
        let ghost before = summary_views(out@);
        assert(theirs.take(it.index() + 1).drop_last() =~= theirs.take(it.index() as int));
        assert(theirs[it.index() as int] == run@);
        if !is_listed(&out, run.name.as_str()) {
            out.push(run);
            assert(summary_views(out@) =~= before.push(run@));
        }
    }
    assert(theirs.take(theirs.len() as int) =~= theirs);
    Ok(newest(out, limit))
}

// ---------------------------------------------------------------------------
// What holds of every listing
// ---------------------------------------------------------------------------

/// No two runs of a list have the same name.
pub open spec fn names_differ(runs: Seq<SummaryView>) -> bool {
    forall|i: int, j: int|
        0 <= i < j < runs.len() ==> (#[trigger] runs[i]).name != (#[trigger] runs[j]).name
}

proof fn lemma_merged(live: Seq<SummaryView>, archived: Seq<SummaryView>)
    ensures
        live.is_prefix_of(merged(live, archived)),
        forall|i: int|
            live.len() <= i < merged(live, archived).len() ==> archived.contains(
                #[trigger] merged(live, archived)[i],
            ),
        forall|i: int, j: int|
            live.len() <= i < merged(live, archived).len() && 0 <= j < i ==> (
            #[trigger] merged(live, archived)[i]).name != (#[trigger] merged(
                live,
                archived,
            )[j]).name,
        forall|k: int|
            0 <= k < archived.len() ==> lists(
                merged(live, archived),
                (#[trigger] archived[k]).name,
            ),
    decreases archived.len(),
{
    let all = merged(live, archived);
    if archived.len() > 0 {
        let front = archived.drop_last();
        let last = archived.last();
        let so_far = merged(live, front);
        lemma_merged(live, front);
        assert forall|i: int| live.len() <= i < all.len() implies archived.contains(
            #[trigger] all[i],
        ) by {
            if i < so_far.len() {
                assert(all[i] == so_far[i]);
                let k = choose|k: int| 0 <= k < front.len() && front[k] == so_far[i];
                assert(archived[k] == all[i]);
            } else {
                assert(archived[archived.len() - 1] == all[i]);
            }
        }
        assert forall|i: int, j: int| live.len() <= i < all.len() && 0 <= j < i implies (
        #[trigger] all[i]).name != (#[trigger] all[j]).name by {
            assert(all[j] == so_far[j]);
            if i < so_far.len() {
                assert(all[i] == so_far[i]);
            } else if all[i].name == all[j].name {
                assert(so_far[j].name == last.name);
                assert(lists(so_far, last.name));
            }
        }
        assert forall|k: int| 0 <= k < archived.len() implies lists(
            all,
            (#[trigger] archived[k]).name,
        ) by {
            if k < front.len() {
                assert(front[k] == archived[k]);
                let i = choose|i: int|
                    0 <= i < so_far.len() && (#[trigger] so_far[i]).name == front[k].name;
                assert(all[i].name == archived[k].name);
            } else if lists(so_far, last.name) {
                let i = choose|i: int|
                    0 <= i < so_far.len() && (#[trigger] so_far[i]).name == last.name;
                assert(all[i].name == last.name);
            } else {
                assert(all[so_far.len() as int].name == last.name);
            }
        }
    }
}

/// Merging keeps every live run and loses no archived one: each archived run is
/// there, or another run of its name is. Live wins: a run whose name is that of
/// a live run is a live run.
pub proof fn law_live_wins(live: Seq<SummaryView>, archived: Seq<SummaryView>)
    ensures
        live.is_prefix_of(merged(live, archived)),
        forall|k: int|
            0 <= k < archived.len() ==> lists(
                merged(live, archived),
                (#[trigger] archived[k]).name,
            ),
        forall|i: int|
            0 <= i < merged(live, archived).len() && lists(
                live,
                (#[trigger] merged(live, archived)[i]).name,
            ) ==> live.contains(merged(live, archived)[i]),
        forall|i: int|
            0 <= i < merged(live, archived).len() ==> live.contains(
                #[trigger] merged(live, archived)[i],
            ) || archived.contains(merged(live, archived)[i]),
{
    lemma_merged(live, archived);
    let all = merged(live, archived);
    assert forall|i: int| 0 <= i < all.len() && lists(live, (#[trigger] all[i]).name) implies live.contains(
        all[i],
    ) by {
        if i < live.len() {
            assert(live[i] == all[i]);
        } else {
            let j = choose|j: int| 0 <= j < live.len() && (#[trigger] live[j]).name == all[i].name;
            assert(live[j] == all[j]);
        }
    }
    assert forall|i: int| 0 <= i < all.len() implies live.contains(#[trigger] all[i])
        || archived.contains(all[i]) by {
        if i < live.len() {
            assert(live[i] == all[i]);
        }
    }
}

/// A merged list holds each name once, if the live runs have different names.
pub proof fn law_names_differ(live: Seq<SummaryView>, archived: Seq<SummaryView>)
    requires
        names_differ(live),
    ensures
        names_differ(merged(live, archived)),
{
    lemma_merged(live, archived);
    let all = merged(live, archived);
    assert forall|i: int, j: int| 0 <= i < j < all.len() implies (#[trigger] all[i]).name != (
    #[trigger] all[j]).name by {
        if j < live.len() {
            assert(all[i] == live[i] && all[j] == live[j]);
        }
    }
}

/// A list never exceeds the limit; it is in order, newest first; it only holds
/// runs that were given, and a name twice only if it was given twice; and no
/// run that was left out is newer than one that was not.
pub proof fn law_newest(runs: Seq<SummaryView>, limit: u32)
    ensures
        newest_of(runs, limit).len() <= limit,
        newest_of(runs, limit).len() == runs.len() || newest_of(runs, limit).len() == limit,
        ordered(newest_of(runs, limit), Direction::Descending),
        forall|x: SummaryView| #[trigger]
            newest_of(runs, limit).contains(x) ==> runs.contains(x),
        forall|x: SummaryView, y: SummaryView|
            runs.contains(x) && !newest_of(runs, limit).contains(x) && newest_of(
                runs,
                limit,
            ).contains(y) ==> !before(#[trigger] y.created_time, #[trigger] x.created_time),
        names_differ(runs) ==> names_differ(newest_of(runs, limit)),
{
    let dir = Direction::Descending;
    let all = sorted(runs, dir);
    let out = newest_of(runs, limit);
    lemma_sorted(runs, dir);
    lemma_sorted_items(runs, dir);
    assert forall|i: int| 0 <= i < out.len() implies #[trigger] out[i] == all[i] by {}
    assert forall|x: SummaryView| #[trigger] out.contains(x) implies runs.contains(x) by {
        let i = choose|i: int| 0 <= i < out.len() && out[i] == x;
        assert(all[i] == x);
        assert(all.contains(x));
    }
    assert forall|x: SummaryView, y: SummaryView|
        runs.contains(x) && !out.contains(x) && out.contains(y) implies !before(
        #[trigger] y.created_time,
        #[trigger] x.created_time,
    ) by {
        assert(all.contains(x));
        let j = choose|j: int| 0 <= j < all.len() && all[j] == x;
        let i = choose|i: int| 0 <= i < out.len() && out[i] == y;
        if j < out.len() {
            assert(out[j] == x);
        }
        assert(all[i] == y);
        assert(!precedes(all[j].key(), all[i].key(), dir));
    }
    if names_differ(runs) {
        assert(runs.no_duplicates()) by {
            assert forall|i: int, j: int| 0 <= i < j < runs.len() implies runs[i] != runs[j] by {
                assert(runs[i].name != runs[j].name);
            }
        }
        runs.lemma_multiset_has_no_duplicates();
        all.lemma_multiset_has_no_duplicates_conv();
        assert forall|i: int, j: int| 0 <= i < j < out.len() implies (#[trigger] out[i]).name != (
        #[trigger] out[j]).name by {
            let a = all[i];
            let b = all[j];
            assert(all.contains(a) && all.contains(b));
            assert(runs.contains(a) && runs.contains(b));
            assert(a != b);
            let m = choose|m: int| 0 <= m < runs.len() && runs[m] == a;
            let n = choose|n: int| 0 <= n < runs.len() && runs[n] == b;
            assert(m != n);
            if m < n {
                assert(runs[m].name != runs[n].name);
            } else {
                assert(runs[n].name != runs[m].name);
            }
        }
    }
}

} // verus!
