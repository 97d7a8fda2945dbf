//! The item that a listing of runs is made of: enough to identify a run and
//! to order it.
use vstd::prelude::*;

use crate::models::run_stream::RunSource;

verus! {

/// A run, by name and creation time.
#[derive(Debug, Clone)]
pub struct RunSummary {
    pub name: String,
    /// RFC 3339, whatever the source.
    pub created_time: String,
    pub source: RunSource,
}

/// The view of a `RunSummary`.
pub struct SummaryView {
    pub name: Seq<char>,
    pub created_time: Seq<char>,
    pub source: RunSource,
}

impl View for RunSummary {
    type V = SummaryView;

    open spec fn view(&self) -> SummaryView {
        SummaryView { name: self.name@, created_time: self.created_time@, source: self.source }
    }
}

/// The views of a list of summaries.
pub open spec fn summary_views(v: Seq<RunSummary>) -> Seq<SummaryView> {
    v.map_values(|r: RunSummary| r@)
}

} // verus!
