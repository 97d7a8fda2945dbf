//! `GET /<namespace>/runs-by-label?labels=k1=v1,k2=v2&limit=7`: the runs of a
//! namespace that carry all the labels.
use vstd::prelude::*;
use vstd::string::*;

use crate::handlers::label_selector::{
    pair_views, pairs_of, parse_label_selector, segments_of, Pair,
};
use crate::handlers::runs_by_label::RunsByLabelError;
use crate::models::run_summary::RunSummary;
use crate::text::cat;

verus! {

pub const BAD_REQUEST: u16 = 400;

pub const BAD_GATEWAY: u16 = 502;

/// How many runs are listed where the request does not say.
pub const DEFAULT_LIMIT: u32 = 7;

/// What a client is told of an error.
#[derive(Debug)]
pub struct ErrorBody {
    pub message: String,
}

/// An error, with the HTTP status that it is answered with.
#[derive(Debug)]
pub struct ApiError {
    pub status: u16,
    pub body: ErrorBody,
}

impl ApiError {
    /// The request makes no sense.
    pub fn bad_request(message: String) -> (r: ApiError)
        ensures
            r.status == BAD_REQUEST,
            r.body.message == message,
    {
        ApiError { status: BAD_REQUEST, body: ErrorBody { message } }
    }

    /// The cluster or the archive could not answer.
    pub fn bad_gateway(message: String) -> (r: ApiError)
        ensures
            r.status == BAD_GATEWAY,
            r.body.message == message,
    {
        ApiError { status: BAD_GATEWAY, body: ErrorBody { message } }
    }
}

/// What a client is told of labels that cannot be used.
pub open spec fn labels_refused(labels: Seq<char>) -> Option<Seq<char>> {
    match pairs_of(segments_of(labels)) {
        Ok(pairs) => if pairs.len() == 0 {
            Some("labels query param must contain at least one key=value pair"@)
        } else {
            None
        },
        Err(bad) => Some("invalid label selector segment '"@ + bad + "', expected key=value"@),
    }
}

/// The labels of a request. There must be at least one.
pub fn requested_labels(labels: &str) -> (r: Result<Vec<(String, String)>, ApiError>)
    ensures
        match labels_refused(labels@) {
            Some(message) => r matches Err(e) && e.status == BAD_REQUEST && e.body.message@
                == message,
            None => r matches Ok(pairs) && pairs_of(segments_of(labels@)) == Ok::<
                Seq<Pair>,
                Seq<char>,
            >(pair_views(pairs@)),
        },
{
    match parse_label_selector(labels) {
        Ok(pairs) => {
            assert(pair_views(pairs@).len() == pairs@.len());
            if pairs.len() == 0 {
                Err(
                    ApiError::bad_request(
                        "labels query param must contain at least one key=value pair".to_owned(),
                    ),
                )
            } else {
                Ok(pairs)
            }
        },
        Err(e) => Err(ApiError::bad_request(e.message())),
    }
}

/// How many runs a request asks for at most.
pub fn requested_limit(limit: Option<u32>) -> (r: u32)
    ensures
        r == (match limit {
            Some(n) => n,
            None => DEFAULT_LIMIT,
        }),
{
    match limit {
        Some(n) => n,
        None => DEFAULT_LIMIT,
    }
}

/// The answer to a request: the runs, or why they could not be had.
pub fn answer(runs: Result<Vec<RunSummary>, RunsByLabelError>) -> (r: Result<
    Vec<RunSummary>,
    ApiError,
>)
    ensures
        match runs {
            Ok(v) => r == Ok::<Vec<RunSummary>, ApiError>(v),
            Err(RunsByLabelError::Kube(e)) => r matches Err(a) && a.status == BAD_GATEWAY
                && a.body.message@ == "error reading PipelineRuns from cluster: "@ + e.message@,
            Err(RunsByLabelError::Db(e)) => r matches Err(a) && a.status == BAD_GATEWAY
                && a.body.message@ == "postgres error: "@ + e@,
        },
{
    match runs {
        Ok(v) => Ok(v),
        Err(RunsByLabelError::Kube(e)) => Err(
            ApiError::bad_gateway(
                cat("error reading PipelineRuns from cluster: ", e.message.as_str()),
            ),
        ),
        Err(RunsByLabelError::Db(e)) => Err(
            ApiError::bad_gateway(cat("postgres error: ", e.as_str())),
        ),
    }
}

} // verus!
