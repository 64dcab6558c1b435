//! Runtime support for serverless compute functions on Tencent Cloud.
//!
//! The crate holds the decisions of the runtime: how an invocation's headers
//! become a [`Context`], how an event of the API gateway becomes a request and
//! a response becomes the gateway's record, and what the runtime asks for at
//! each step of its loop.
pub mod builtin;
pub mod codec;
pub mod context;
pub mod convert;
pub mod decimal;
pub mod http_rules;
pub mod runtime;

pub use builtin::api::{
    ApiRequest, ApiResponse, Event, RequestHead, RequestParseError, ResponseEncodeError, WebResponse,
};
pub use context::{Context, EnvContext};
pub use runtime::{Action, Endpoints, PanicPolicy, Phase, Report, Runtime};
