//! Batches of requests.
use vstd::prelude::*;
use crate::error::Response;

verus! {

/// A GraphQL request.
#[derive(Clone, Debug, PartialEq)]
pub struct Request {
    pub query: String,
    pub operation_name: Option<String>,
}

/// One request, or several sent together.
#[derive(Debug, PartialEq)]
pub enum BatchRequest {
    Single(Request),
    Batch(Vec<Request>),
}

/// The response to a batch: one response per request, in order.
#[derive(Debug, PartialEq)]
pub enum BatchResponse {
    Single(Response),
    Batch(Vec<Response>),
}

impl BatchRequest {
    /// The requests of the batch, in order, and whether it was a single one.
    pub fn into_requests(self) -> (r: (Vec<Request>, bool))
        ensures
            match self {
                BatchRequest::Single(q) => r.0@ == seq![q] && r.1,
                BatchRequest::Batch(qs) => r.0@ == qs@ && !r.1,
            },
    {
        match self {
            BatchRequest::Single(q) => {
                let mut v: Vec<Request> = Vec::new();
                v.push(q);
                (v, true)
            },
            BatchRequest::Batch(qs) => (qs, false),
        }
    }
}

/// The response to a batch from the responses to its requests, taken in
/// the order of the requests.
pub fn batch_response(single: bool, responses: Vec<Response>) -> (r: BatchResponse)
    requires
        single ==> responses@.len() == 1,
    ensures
        single ==> r == BatchResponse::Single(responses@[0]),
        !single ==> (r matches BatchResponse::Batch(rs) && rs@ == responses@),
{
    if single {
        let mut responses = responses;
        let resp = responses.pop().unwrap();
        BatchResponse::Single(resp)
    } else {
        BatchResponse::Batch(responses)
    }
}

} // verus!
