use vstd::prelude::*;

verus! {

/// The part of an invocation's context that the runtime takes from its
/// environment once, at start-up.
#[derive(Debug, Clone)]
pub struct EnvContext {
    /// environment variable `SCF_NAMESPACE`
    pub namespace: String,
    /// environment variable `SCF_FUNCTIONNAME`
    pub function_name: String,
    /// environment variable `SCF_FUNCTIONVERSION`
    pub function_version: String,
    /// environment variable `TENCENTCLOUD_REGION`
    pub region: String,
    /// environment variable `TENCENTCLOUD_APPID`
    pub appid: String,
    /// environment variable `TENCENTCLOUD_UIN`
    pub uin: String,
}

/// The context of one invocation, assembled from the invocation's headers and
/// from the environment.
#[derive(Debug, Clone, PartialEq, Eq)]
pub struct Context {
    /// from header `memory_limit_in_mb`
    pub memory_limit_in_mb: usize,
    /// from header `time_limit_in_ms`
    pub time_limit_in_ms: usize,
    /// from header `request_id`
    pub request_id: String,
    /// from environment variable `SCF_NAMESPACE`
    pub namespace: String,
    /// from environment variable `SCF_FUNCTIONNAME`
    pub function_name: String,
    /// from environment variable `SCF_FUNCTIONVERSION`
    pub function_version: String,
    /// from environment variable `TENCENTCLOUD_REGION`
    pub region: String,
    /// from environment variable `TENCENTCLOUD_APPID`
    pub appid: String,
    /// from environment variable `TENCENTCLOUD_UIN`
    pub uin: String,
}

impl Context {
    /// Creates a context from the values of the invocation's headers and from
    /// the environment part `env_context`.
    pub fn new(
        memory_limit_in_mb: usize,
        time_limit_in_ms: usize,
        request_id: String,
        env_context: &EnvContext,
    ) -> (res: Self)
        ensures
            res.memory_limit_in_mb == memory_limit_in_mb,
            res.time_limit_in_ms == time_limit_in_ms,
            res.request_id@ == request_id@,
            res.namespace@ == env_context.namespace@,
            res.function_name@ == env_context.function_name@,
            res.function_version@ == env_context.function_version@,
            res.region@ == env_context.region@,
            res.appid@ == env_context.appid@,
            res.uin@ == env_context.uin@,
    {
        Context {
            memory_limit_in_mb,
            time_limit_in_ms,
            request_id,
            namespace: env_context.namespace.clone(),
            function_name: env_context.function_name.clone(),
            function_version: env_context.function_version.clone(),
            region: env_context.region.clone(),
            appid: env_context.appid.clone(),
            uin: env_context.uin.clone(),
        }
    }
}

} // verus!
