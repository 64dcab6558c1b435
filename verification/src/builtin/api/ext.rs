//! The additional data that the gateway sends with each request; a request
//! made from an event carries each of them.
use vstd::prelude::*;

use super::Dict;

verus! {

/// Additional request context sent by the gateway with each request.
#[derive(Debug, Clone)]
pub struct RequestContext {
    /// `serviceId`
    pub service_id: String,
    pub path: String,
    /// `httpMethod`
    pub method: String,
    /// `requestId`
    pub request_id: String,
    pub identity: Dict,
    /// `sourceIp`
    pub source_ip: String,
    pub stage: String,
}

impl Default for RequestContext {
    /// A context whose texts and identity are all empty.
    fn default() -> (res: Self)
        ensures
            res.service_id@.len() == 0,
            res.path@.len() == 0,
            res.method@.len() == 0,
            res.request_id@.len() == 0,
            res.identity@.len() == 0,
            res.source_ip@.len() == 0,
            res.stage@.len() == 0,
    {
        RequestContext {
            service_id: String::new(),
            path: String::new(),
            method: String::new(),
            request_id: String::new(),
            identity: Dict::new(),
            source_ip: String::new(),
            stage: String::new(),
        }
    }
}

/// Path parameters defined in the gateway's dashboard.
#[derive(Debug, Clone, PartialEq, Eq)]
pub struct PathParameters(pub Dict);

/// The query string of the request, already parsed by the gateway.
#[derive(Debug, Clone, PartialEq, Eq)]
pub struct QueryString(pub Dict);

/// Query string parameters defined in the gateway's dashboard.
#[derive(Debug, Clone, PartialEq, Eq)]
pub struct QueryStringParameters(pub Dict);

/// Header parameters defined in the gateway's dashboard.
#[derive(Debug, Clone, PartialEq, Eq)]
pub struct HeaderParameters(pub Dict);

} // verus!
