//! The runs that carry given labels.
use vstd::prelude::*;
use vstd::string::*;

use crate::handlers::label_selector::{
    pair_of, pair_text, pair_views, pairs_of, parse_label_selector, segment_of, segments_of,
    to_k8s_selector, LabelSelectorError, Pair,
};
use crate::handlers::runs_by_label::{
    archive_query, archived_summaries, archived_summary_of, fetch_runs_by_label, label_clauses,
    law_live_wins, law_newest, lists, live_summaries, live_summary_of, merged, moment_text_of,
    newest, newest_of, summary, LiveRun, RunsByLabelError, RunsQuery,
};
use crate::json::{value_tree, JsonView};
use crate::laws::lists::lemma_pick;
use crate::models::run_stream::RunSource;
use crate::models::run_summary::{summary_views, RunSummary, SummaryView};
use crate::order::{lemma_sorted, lemma_sorted_map, precedes, sort, Direction, Keyed};
use crate::routes::runs_by_label::{answer, requested_labels, requested_limit, ApiError};
use crate::text::{before, char_index, decimal_of, join_of, lemma_char_index, split_of, trim_of};

verus! {

// ---------------------------------------------------------------------------
// The labels of a request
// ---------------------------------------------------------------------------

/// The pieces between commas that hold more than white space, without what
/// stands around them.
pub open spec fn pieces(raw: Seq<char>) -> Seq<Seq<char>> {
    split_of(raw, ',').filter(|p: Seq<char>| trim_of(p).len() > 0).map_values(
        |p: Seq<char>| trim_of(p),
    )
}

/// The piece is a pair: it holds a `=`, and does not begin with one.
pub open spec fn is_pair(piece: Seq<char>) -> bool {
    piece.contains('=') && piece[0] != '='
}

/// The key and the value are what stands before and behind the piece's first
/// `=`.
pub open spec fn writes(piece: Seq<char>, key: Seq<char>, value: Seq<char>) -> bool {
    key.len() > 0 && !key.contains('=') && piece == key.push('=') + value
}

proof fn lemma_pieces(raw: Seq<char>)
    ensures
        segments_of(raw) == pieces(raw),
{
    lemma_pick(
        split_of(raw, ','),
        |p: Seq<char>| segment_of(p),
        |p: Seq<char>| trim_of(p).len() > 0,
        |p: Seq<char>| trim_of(p),
    );
}

proof fn lemma_pair(piece: Seq<char>)
    ensures
        pair_of(piece) is Some <==> is_pair(piece),
        pair_of(piece) matches Some(p) ==> writes(piece, p.0, p.1),
{
    lemma_char_index(piece, '=');
    let i = char_index(piece, '=');
    if 0 < i < piece.len() {
        assert(piece[i] == '=');
        assert(piece.take(i).push('=') + piece.skip(i + 1) =~= piece);
        assert(!piece.take(i).contains('='));
    } else if piece.contains('=') {
        let k = choose|k: int| 0 <= k < piece.len() && piece[k] == '=';
        assert(i <= k);
    }
}

proof fn lemma_pairs(segments: Seq<Seq<char>>)
    ensures
        pairs_of(segments) matches Ok(pairs) ==> pairs.len() == segments.len() && forall|i: int|
            0 <= i < pairs.len() ==> is_pair(segments[i]) && writes(
                segments[i],
                (#[trigger] pairs[i]).0,
                pairs[i].1,
            ),
        pairs_of(segments) is Err ==> exists|i: int|
            is_first_bad(segments, i, pairs_of(segments)->Err_0),
    decreases segments.len(),
{
    if segments.len() > 0 {
        let front = segments.drop_last();
        let n = segments.len() - 1;
        lemma_pairs(front);
        lemma_pair(segments.last());
        match pairs_of(front) {
            Err(bad) => {
                let i = choose|i: int| is_first_bad(front, i, bad);
                assert(front[i] == segments[i]);
                assert forall|k: int| 0 <= k < i implies is_pair(#[trigger] segments[k]) by {
                    assert(front[k] == segments[k]);
                }
                assert(bad == pairs_of(segments)->Err_0);
                assert(is_first_bad(segments, i, bad));
            },
            Ok(pairs) => {
                assert forall|k: int| 0 <= k < n implies is_pair(#[trigger] segments[k]) by {
                    assert(front[k] == segments[k]);
                    assert(writes(front[k], pairs[k].0, pairs[k].1));
                }
                if pair_of(segments.last()) is None {
                    assert(segments.last() == pairs_of(segments)->Err_0);
                    assert(is_first_bad(segments, n, segments.last()));
                } else {
                    let all = pairs_of(segments)->Ok_0;
                    assert forall|i: int| 0 <= i < all.len() implies is_pair(segments[i]) && writes(
                        segments[i],
                        (#[trigger] all[i]).0,
                        all[i].1,
                    ) by {
                        if i < n {
                            assert(all[i] == pairs[i]);
                            assert(front[i] == segments[i]);
                        }
                    }
                }
            },
        }
    }
}

/// The piece at `i` is the first one that is no pair.
pub open spec fn is_first_bad(segments: Seq<Seq<char>>, i: int, bad: Seq<char>) -> bool {
    &&& 0 <= i < segments.len()
    &&& segments[i] == bad
    &&& !is_pair(bad)
    &&& forall|k: int| 0 <= k < i ==> is_pair(#[trigger] segments[k])
}

/// Each piece of the parameter gives its key and value, in order. The first
/// piece that is no pair is the error; and there is one only where there is
/// such a piece.
pub proof fn law_labels_are_read(
    raw: &str,
    r: Result<Vec<(String, String)>, LabelSelectorError>,
    i: int,
)
    requires
        call_ensures(parse_label_selector, (raw,), r),
    ensures
        r is Ok <==> forall|k: int| 0 <= k < pieces(raw@).len() ==> is_pair(#[trigger] pieces(raw@)[k]),
        r matches Ok(pairs) ==> pairs@.len() == pieces(raw@).len(),
        r matches Ok(pairs) ==> (0 <= i < pairs@.len() ==> writes(
            pieces(raw@)[i],
            pairs@[i].0@,
            pairs@[i].1@,
        )),
        r matches Err(e) ==> exists|k: int| is_first_bad(pieces(raw@), k, e.bad_pair@),
{
    let all = pieces(raw@);
    lemma_pieces(raw@);
    lemma_pairs(all);
    match r {
        Ok(pairs) => {
            let v = pair_views(pairs@);
            assert(v.len() == pairs@.len());
            assert forall|k: int| 0 <= k < all.len() implies is_pair(#[trigger] all[k]) by {
                assert(writes(all[k], v[k].0, v[k].1));
            }
            if 0 <= i < pairs@.len() {
                assert(v[i] == (pairs@[i].0@, pairs@[i].1@));
            }
        },
        Err(e) => {
            let k = choose|k: int| is_first_bad(all, k, e.bad_pair@);
            assert(!is_pair(all[k]));
        },
    }
}

/// The error quotes the piece.
pub proof fn law_label_error(e: &LabelSelectorError, r: String)
    requires
        call_ensures(LabelSelectorError::message, (e,), r),
    ensures
        r@ == "invalid label selector segment '"@ + e.bad_pair@ + "', expected key=value"@,
{
}

/// A selector is each key, a `=` and its value, with commas between them.
pub proof fn law_labels_are_written(pairs: &[(String, String)], r: String)
    requires
        call_ensures(to_k8s_selector, (pairs,), r),
    ensures
        r@ == join_of(
            pairs@.map_values(|p: (String, String)| p.0@ + "="@ + p.1@),
            ","@,
        ),
{
    assert(pair_views(pairs@).map_values(|p: Pair| pair_text(p)) =~= pairs@.map_values(
        |p: (String, String)| p.0@ + "="@ + p.1@,
    ));
}

/// A request has to name at least one label. Its labels are those that the
/// parameter gives; and what is wrong with it is told as a bad request.
pub proof fn law_requested_labels(
    labels: &str,
    read: Result<Vec<(String, String)>, LabelSelectorError>,
    r: Result<Vec<(String, String)>, ApiError>,
)
    requires
        call_ensures(parse_label_selector, (labels,), read),
        call_ensures(requested_labels, (labels,), r),
    ensures
        r is Ok <==> (read matches Ok(pairs) && pairs@.len() > 0),
        r matches Ok(pairs) ==> pair_views(pairs@) == pair_views(read->Ok_0@),
        r matches Err(e) ==> e.status == 400 && (match read {
            Ok(_) => e.body.message@
                == "labels query param must contain at least one key=value pair"@,
            Err(bad) => e.body.message@ == "invalid label selector segment '"@ + bad.bad_pair@
                + "', expected key=value"@,
        }),
{
    if let Ok(pairs) = read {
        assert(pair_views(pairs@).len() == pairs@.len());
    }
}

/// The view of a list of labels is their keys and values.
pub proof fn law_label_views(v: Vec<(String, String)>, i: int)
    requires
        0 <= i < v@.len(),
    ensures
        pair_views(v@).len() == v@.len(),
        pair_views(v@)[i].0 == v@[i].0@,
        pair_views(v@)[i].1 == v@[i].1@,
{
}

/// A request that does not say how many runs it wants gets seven at most.
pub proof fn law_requested_limit(limit: Option<u32>, r: u32)
    requires
        call_ensures(requested_limit, (limit,), r),
    ensures
        limit matches Some(n) ==> r == n,
        limit is None ==> r == 7,
{
}

/// Runs that were had are the answer; and a source that could not answer is told
/// as a bad gateway.
pub proof fn law_answer(
    runs: Result<Vec<RunSummary>, RunsByLabelError>,
    r: Result<Vec<RunSummary>, ApiError>,
)
    requires
        call_ensures(answer, (runs,), r),
    ensures
        runs matches Ok(v) ==> r == Ok::<Vec<RunSummary>, ApiError>(v),
        runs is Err ==> (r matches Err(e) && e.status == 502),
        runs matches Err(RunsByLabelError::Kube(e)) ==> (r matches Err(a) && a.body.message@
            == "error reading PipelineRuns from cluster: "@ + e.message@),
        runs matches Err(RunsByLabelError::Db(e)) ==> (r matches Err(a) && a.body.message@
            == "postgres error: "@ + e@),
{
}

/// An error is answered with its status and says its message.
pub proof fn law_api_errors(message: String, bad: ApiError, down: ApiError)
    requires
        call_ensures(ApiError::bad_request, (message,), bad),
        call_ensures(ApiError::bad_gateway, (message,), down),
    ensures
        bad.status == 400 && bad.body.message@ == message@,
        down.status == 502 && down.body.message@ == message@,
{
}

/// What is logged of a failure names its source.
pub proof fn law_listing_errors(e: &RunsByLabelError, r: String)
    requires
        call_ensures(RunsByLabelError::message, (e,), r),
    ensures
        e matches RunsByLabelError::Kube(k) ==> r@ == "error listing PipelineRuns: "@ + k.message@,
        e matches RunsByLabelError::Db(m) ==> r@ == "postgres error: "@ + m@,
{
}

// ---------------------------------------------------------------------------
// The runs
// ---------------------------------------------------------------------------

/// Runs are sorted by when they were created.
pub proof fn law_runs_are_sorted_by_creation(view: SummaryView, run: RunSummary)
    ensures
        view.key() == view.created_time,
        run.key() == run.created_time@,
{
}

/// The newest runs are the first of all, sorted with the newest first, as many
/// as the limit allows.
pub proof fn law_newest_come_first(
    runs: Vec<RunSummary>,
    limit: u32,
    all: Vec<RunSummary>,
    r: Vec<RunSummary>,
)
    requires
        call_ensures(sort::<RunSummary>, (runs, Direction::Descending), all),
        call_ensures(newest, (runs, limit), r),
    ensures
        all@.len() == runs@.len(),
        r@.len() == (if runs@.len() < limit {
            runs@.len()
        } else {
            limit as nat
        }),
        summary_views(r@) == summary_views(all@).take(r@.len() as int),
{
    lemma_sorted(runs@, Direction::Descending);
    lemma_sorted_map(runs@, |s: RunSummary| s@, Direction::Descending);
    assert(summary_views(r@).len() == r@.len());
    assert(summary_views(all@).len() == all@.len());
    assert(summary_views(r@) =~= summary_views(all@).take(r@.len() as int));
}

/// A run is listed with its name, creation time and source; without a name or a
/// creation time it is not.
pub proof fn law_summary(
    name: Option<String>,
    created_time: Option<String>,
    source: RunSource,
    r: Option<RunSummary>,
)
    requires
        call_ensures(summary, (name, created_time, source), r),
    ensures
        r is Some <==> name is Some && created_time is Some,
        r matches Some(s) ==> s.name@ == name->0@ && s.created_time@ == created_time->0@ && s.source
            == source,
{
}

/// A live run that can be listed: it has a name, and a creation time that can be
/// written.
pub open spec fn is_listable(run: LiveRun) -> bool {
    run.name is Some && (run.created matches Some(m) && moment_text_of(
        m.second,
        m.nanosecond,
    ) is Some)
}

/// The live runs that are listed are the newest of those that can be.
pub proof fn law_live_runs(
    runs: Vec<LiveRun>,
    limit: u32,
    all: Vec<RunSummary>,
    newest_ones: Vec<RunSummary>,
    r: Vec<RunSummary>,
)
    requires
        call_ensures(live_summaries, (runs, limit), r),
        summary_views(all@) == runs@.filter(|run: LiveRun| is_listable(run)).map_values(
            |run: LiveRun|
                SummaryView {
                    name: run.name->0@,
                    created_time: moment_text_of(
                        run.created->0.second,
                        run.created->0.nanosecond,
                    )->0,
                    source: RunSource::Tekton,
                },
        ),
        call_ensures(newest, (all, limit), newest_ones),
    ensures
        summary_views(r@) == summary_views(newest_ones@),
{
    lemma_pick(
        runs@,
        |run: LiveRun| live_summary_of(run),
        |run: LiveRun| is_listable(run),
        |run: LiveRun|
            SummaryView {
                name: run.name->0@,
                created_time: moment_text_of(
                    run.created->0.second,
                    run.created->0.nanosecond,
                )->0,
                source: RunSource::Tekton,
            },
    );
}

/// The archived runs are the rows that have a name and a creation time, in
/// order.
pub proof fn law_archived_runs(
    rows: Vec<(Option<String>, Option<String>)>,
    r: Vec<RunSummary>,
)
    requires
        call_ensures(archived_summaries, (rows,), r),
    ensures
        summary_views(r@) == rows@.filter(
            |row: (Option<String>, Option<String>)| row.0 is Some && row.1 is Some,
        ).map_values(
            |row: (Option<String>, Option<String>)|
                SummaryView {
                    name: row.0->0@,
                    created_time: row.1->0@,
                    source: RunSource::Archive,
                },
        ),
{
    lemma_pick(
        rows@,
        |row: (Option<String>, Option<String>)| archived_summary_of(row),
        |row: (Option<String>, Option<String>)| row.0 is Some && row.1 is Some,
        |row: (Option<String>, Option<String>)|
            SummaryView {
                name: row.0->0@,
                created_time: row.1->0@,
                source: RunSource::Archive,
            },
    );
}

/// The conditions on `n` labels, one behind the other, numbered from two.
pub open spec fn conditions(n: nat) -> Seq<char>
    decreases n,
{
    if n == 0 {
        Seq::empty()
    } else {
        conditions((n - 1) as nat) + (" AND data->'metadata'->'labels' @> $"@ + decimal_of(n + 1))
    }
}

proof fn lemma_conditions(n: nat)
    ensures
        label_clauses(n) == conditions(n),
    decreases n,
{
    if n > 0 {
        lemma_conditions((n - 1) as nat);
    }
}

/// The archive is asked for the PipelineRuns of the namespace that carry each
/// of the labels, newest first, and no more than the limit.
pub proof fn law_archive_query(
    namespace: &str,
    pairs: &[(String, String)],
    limit: u32,
    r: RunsQuery,
    i: int,
)
    requires
        call_ensures(archive_query, (namespace, pairs, limit), r),
    ensures
        r.namespace@ == namespace@,
        r.limit == limit,
        r.labels@.len() == pairs@.len(),
        0 <= i < pairs@.len() ==> value_tree(r.labels@[i]) == JsonView::Object(
            seq![(pairs@[i].0@, JsonView::Text(pairs@[i].1@))],
        ),
        r.sql@
            == "SELECT data->'metadata'->>'name' AS name, data->'metadata'->>'creationTimestamp' AS created_time FROM records WHERE type = 'tekton.dev/v1.PipelineRun' AND data->'metadata'->>'namespace' = $1::text "@
            + conditions(pairs@.len()) + (" ORDER BY created_time DESC LIMIT $"@ + decimal_of(
            pairs@.len() + 2,
        ) + "::int8"@),
{
    lemma_conditions(pairs@.len());
    if 0 <= i < pairs@.len() {
        let v = r.labels@[i];
        assert(value_tree(v) == JsonView::Object(
            seq![(pairs@[i].0@, JsonView::Text(pairs@[i].1@))],
        ));
    }
}

// ---------------------------------------------------------------------------
// Both sources
// ---------------------------------------------------------------------------

/// The archived run at `k` is listed: no live run has its name, and no archived
/// run before it has.
pub open spec fn is_kept(live: Seq<SummaryView>, archived: Seq<SummaryView>, k: int) -> bool {
    &&& forall|j: int| 0 <= j < live.len() ==> (#[trigger] live[j]).name != archived[k].name
    &&& forall|j: int| 0 <= j < k ==> (#[trigger] archived[j]).name != archived[k].name
}

/// The archived runs among the first `n` that are listed, in order.
pub open spec fn kept(live: Seq<SummaryView>, archived: Seq<SummaryView>, n: int) -> Seq<
    SummaryView,
>
    decreases n,
{
    if n <= 0 {
        Seq::empty()
    } else if is_kept(live, archived, n - 1) {
        kept(live, archived, n - 1).push(archived[n - 1])
    } else {
        kept(live, archived, n - 1)
    }
}

proof fn lemma_kept(live: Seq<SummaryView>, archived: Seq<SummaryView>, n: int)
    requires
        0 <= n <= archived.len(),
    ensures
        merged(live, archived.take(n)) == live + kept(live, archived, n),
    decreases n,
{
    let early = archived.take(n);
    if n > 0 {
        lemma_kept(live, archived, n - 1);
        let front = archived.take(n - 1);
        assert(early.drop_last() =~= front);
        let so_far = merged(live, front);
        let run = archived[n - 1];
        assert(early.last() == run);
        law_live_wins(live, front);
        if is_kept(live, archived, n - 1) {
            if lists(so_far, run.name) {
                let i = choose|i: int|
                    0 <= i < so_far.len() && (#[trigger] so_far[i]).name == run.name;
                if live.contains(so_far[i]) {
                    let j = choose|j: int| 0 <= j < live.len() && live[j] == so_far[i];
                    assert(live[j].name == run.name);
                } else {
                    let j = choose|j: int| 0 <= j < front.len() && front[j] == so_far[i];
                    assert(archived[j].name == run.name);
                }
            }
            assert(so_far.push(run) =~= live + kept(live, archived, n));
        } else {
            if exists|j: int| 0 <= j < live.len() && (#[trigger] live[j]).name == run.name {
                let j = choose|j: int| 0 <= j < live.len() && (#[trigger] live[j]).name == run.name;
                assert(so_far[j] == live[j]);
            } else {
                let j = choose|j: int|
                    0 <= j < n - 1 && (#[trigger] archived[j]).name == run.name;
                assert(front[j].name == run.name);
                assert(lists(so_far, front[j].name));
            }
        }
    } else {
        assert(early =~= Seq::<SummaryView>::empty());
        assert(live + kept(live, archived, n) =~= live);
    }
}

/// Without the live runs there is no answer. With them, the answer is the newest
/// of all live runs and of those archived ones whose names neither a live run
/// nor an earlier archived one has. An archive that failed adds none.
pub proof fn law_both_sources(
    live: Result<Vec<RunSummary>, RunsByLabelError>,
    archived: Result<Vec<RunSummary>, RunsByLabelError>,
    limit: u32,
    all: Vec<RunSummary>,
    newest_ones: Vec<RunSummary>,
    r: Result<Vec<RunSummary>, RunsByLabelError>,
)
    requires
        call_ensures(fetch_runs_by_label, (live, archived, limit), r),
        live is Ok && archived is Ok ==> summary_views(all@)
            == summary_views(live->Ok_0@) + kept(
            summary_views(live->Ok_0@),
            summary_views(archived->Ok_0@),
            archived->Ok_0@.len() as int,
        ),
        live is Ok && archived is Err ==> summary_views(all@) == summary_views(live->Ok_0@),
        call_ensures(newest, (all, limit), newest_ones),
    ensures
        live matches Err(e) ==> r == Err::<Vec<RunSummary>, RunsByLabelError>(e),
        live is Ok ==> (r matches Ok(runs) && summary_views(runs@) == summary_views(newest_ones@)),
{
    if let Ok(runs) = live {
        let ours = summary_views(runs@);
        if let Ok(more) = archived {
            let theirs = summary_views(more@);
            lemma_kept(ours, theirs, theirs.len() as int);
            assert(theirs.take(theirs.len() as int) =~= theirs);
            assert(theirs.len() == more@.len());
        }
    }
}

/// A run is listed or not by its name alone: the live runs all stand for
/// themselves, and an archived one stands where its name is new. The list is in
/// order, newest first, as long as the limit allows; and no run that was left
/// out is newer than one that was not.
pub proof fn law_listing(
    live: Vec<RunSummary>,
    archived: Vec<RunSummary>,
    limit: u32,
    r: Vec<RunSummary>,
)
    requires
        call_ensures(fetch_runs_by_label, (Ok(live), Ok(archived), limit), Ok(r)),
    ensures
        ({
            let all = summary_views(live@) + kept(
                summary_views(live@),
                summary_views(archived@),
                archived@.len() as int,
            );
            &&& r@.len() == (if all.len() < limit {
                all.len()
            } else {
                limit as nat
            })
            &&& forall|i: int| 0 <= i < r@.len() ==> all.contains((#[trigger] r@[i])@)
            &&& forall|i: int, j: int|
                0 <= i < j < r@.len() ==> !before(
                    (#[trigger] r@[i]).created_time@,
                    (#[trigger] r@[j]).created_time@,
                )
            &&& forall|k: int, i: int|
                0 <= k < all.len() && !summary_views(r@).contains(#[trigger] all[k]) && 0 <= i
                    < r@.len() ==> !before((#[trigger] r@[i]).created_time@, all[k].created_time)
        }),
{
    let ours = summary_views(live@);
    let theirs = summary_views(archived@);
    lemma_kept(ours, theirs, theirs.len() as int);
    assert(theirs.take(theirs.len() as int) =~= theirs);
    let all = ours + kept(ours, theirs, archived@.len() as int);
    assert(all == merged(ours, theirs));
    law_newest(all, limit);
    let out = summary_views(r@);
    assert(out == newest_of(all, limit));
    assert(out.len() == r@.len());
    lemma_sorted(all, Direction::Descending);
    assert forall|i: int| 0 <= i < r@.len() implies out[i] == (#[trigger] r@[i])@ by {}
    assert forall|i: int| 0 <= i < r@.len() implies all.contains((#[trigger] r@[i])@) by {
        assert(out[i] == r@[i]@);
        assert(out.contains(out[i]));
    }
    assert forall|i: int, j: int| 0 <= i < j < r@.len() implies !before(
        (#[trigger] r@[i]).created_time@,
        (#[trigger] r@[j]).created_time@,
    ) by {
        assert(out[i] == r@[i]@);
        assert(out[j] == r@[j]@);
        assert(!precedes(out[j].key(), out[i].key(), Direction::Descending));
    }
    assert forall|k: int, i: int|
        0 <= k < all.len() && !out.contains(#[trigger] all[k]) && 0 <= i < r@.len() implies !before(
        (#[trigger] r@[i]).created_time@,
        all[k].created_time,
    ) by {
        assert(out[i] == r@[i]@);
        assert(out.contains(out[i]));
        assert(all.contains(all[k]));
        assert(!before(out[i].created_time, all[k].created_time));
    }
}

} // verus!
