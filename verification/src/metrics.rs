//! Label types for the ingress's request counters.
//!
//! The operational surface only ever increments a counter per label set;
//! the types here carry no behaviour of their own.

use vstd::prelude::*;

verus! {

/// The label set of one observed HTTP request.
#[derive(Clone, Hash, PartialEq, Eq)]
pub struct HttpLabels {
    pub method: HttpMethod,
    pub status: HttpStatus,
    pub success: Success,
    pub type_id: u32,
    pub writer_id: u32,
}

/// The request method, as far as the ingress distinguishes it.
#[derive(Clone, Hash, PartialEq, Eq)]
pub enum HttpMethod {
    GET,
    POST,
}

/// The response status class.
#[derive(Clone, Hash, PartialEq, Eq)]
pub enum HttpStatus {
    Status2xx,
    Status3xx,
    Status4xx,
    Status5xx,
}

/// Whether the request was accepted into a type channel.
#[derive(Clone, Hash, PartialEq, Eq)]
pub enum Success {
    Yes,
    No,
}

} // verus!
