use vstd::prelude::*;
use vstd::string::*;
use vstd::utf8::*;

use crate::context::{Context, EnvContext};
use crate::decimal::{decimal_value, int_error_message, int_error_text, parse_usize};

verus! {

/// The address of one endpoint of the cloud's runtime API.
pub open spec fn endpoint_url(api_server: Seq<char>, api_port: Seq<char>, path: Seq<char>) -> Seq<char> {
    "http://"@ + api_server + ":"@ + api_port + path
}

/// The four endpoints of the cloud's runtime API that the runtime talks to.
#[derive(Debug, Clone)]
pub struct Endpoints {
    /// where the runtime announces that it is ready
    pub ready_url: String,
    /// where the runtime fetches the next invocation
    pub next_url: String,
    /// where the runtime sends the response of an invocation
    pub response_url: String,
    /// where the runtime sends an error message
    pub error_url: String,
}

impl Endpoints {
    /// The endpoints of the runtime API served at `api_server`, port `api_port`.
    pub fn new(api_server: &str, api_port: &str) -> (res: Self)
        ensures
            res.ready_url@ == endpoint_url(api_server@, api_port@, "/runtime/init/ready"@),
            res.next_url@ == endpoint_url(api_server@, api_port@, "/runtime/invocation/next"@),
            res.response_url@ == endpoint_url(
                api_server@,
                api_port@,
                "/runtime/invocation/response"@,
            ),
            res.error_url@ == endpoint_url(api_server@, api_port@, "/runtime/invocation/error"@),
    {
        Endpoints {
            ready_url: Self::url(api_server, api_port, "/runtime/init/ready"),
            next_url: Self::url(api_server, api_port, "/runtime/invocation/next"),
            response_url: Self::url(api_server, api_port, "/runtime/invocation/response"),
            error_url: Self::url(api_server, api_port, "/runtime/invocation/error"),
        }
    }

    fn url(api_server: &str, api_port: &str, path: &str) -> (res: String)
        ensures
            res@ == endpoint_url(api_server@, api_port@, path@),
    {
        let mut url = String::from_str("http://");
        url.append(api_server);
        url.append(":");
        url.append(api_port);
        url.append(path);
        url
    }
}

/// The message sent to the cloud when the invocation lacks the header `header`.
pub open spec fn missing_header_text(header: Seq<char>) -> Seq<char> {
    "header "@ + header + " is not present in the incoming invocation"@
}

/// The message sent to the cloud when the value of the header `header` cannot
/// be read; `reason` says why.
pub open spec fn bad_header_text(header: Seq<char>, reason: Seq<char>) -> Seq<char> {
    "fail to parse value of header "@ + header + " of incoming invocation: "@ + reason
}

/// What reading the header `header`, whose value is `value` if it is present,
/// as a number gives: the number, or the message that explains the failure.
pub open spec fn header_number(header: Seq<char>, value: Option<Seq<char>>) -> Result<int, Seq<char>> {
    match value {
        None => Err(missing_header_text(header)),
        Some(v) => match decimal_value(encode_utf8(v)) {
            Ok(n) => Ok(n),
            Err(kind) => Err(bad_header_text(header, int_error_text(kind))),
        },
    }
}

fn missing_header_message(header: &str) -> (res: String)
    ensures
        res@ == missing_header_text(header@),
{
    let mut message = String::from_str("header ");
    message.append(header);
    message.append(" is not present in the incoming invocation");
    message
}

/// Reads the header `header` of an invocation as a number; `value` is the
/// header's value if the invocation has it.
pub fn parse_header_number(header: &str, value: Option<&str>) -> (res: Result<usize, String>)
    ensures
        match (res, header_number(header@, value.deep_view())) {
            (Ok(n), Ok(m)) => n == m,
            (Err(e), Err(f)) => e@ == f,
            _ => false,
        },
{
    match value {
        None => Err(missing_header_message(header)),
        Some(v) => match parse_usize(v) {
            Ok(n) => Ok(n),
            Err(kind) => {
                let mut message = String::from_str("fail to parse value of header ");
                message.append(header);
                message.append(" of incoming invocation: ");
                let reason = int_error_message(kind);
                message.append(reason.as_str());
                Err(message)
            },
        },
    }
}

/// Reads the header `header` of an invocation as text; `value` is the header's
/// value if the invocation has it.
pub fn parse_header_text(header: &str, value: Option<&str>) -> (res: Result<String, String>)
    ensures
        match value {
            None => res matches Err(e) && e@ == missing_header_text(header@),
            Some(v) => res matches Ok(s) && s@ == v@,
        },
{
    match value {
        None => Err(missing_header_message(header)),
        Some(v) => Ok(String::from_str(v)),
    }
}


/// What the runtime does when the function it runs panics.
#[derive(Debug, Clone, Copy, PartialEq, Eq)]
pub enum PanicPolicy {
    /// The panic is reported to the cloud as the invocation's error, and the
    /// runtime goes on with the next invocation.
    Catch,
    /// The panic is reported to the cloud, then the runtime panics too, and
    /// the cloud restarts it.
    Propagate,
}

/// Where the runtime stands in its loop.
#[derive(Debug, Clone)]
pub enum Phase {
    /// nothing has happened yet
    Starting,
    /// a request to the cloud is under way; the next invocation is fetched
    /// after it
    Sending,
    /// the next invocation is being fetched
    Fetching,
    /// the payload of an invocation with the given context is being parsed
    ParsingPayload(Context),
    /// the function is running
    Invoking,
    /// the function's response is being turned into bytes
    Encoding,
    /// a panic of the function is being reported; the runtime panics with
    /// this message after it
    Aborting(String),
    /// the runtime has panicked
    Stopped,
}

/// What the surrounding program reports back after it did what the runtime
/// asked.
#[derive(Debug, Clone)]
pub enum Report {
    /// the program started the runtime
    Started,
    /// a request to the cloud completed
    Sent,
    /// the next invocation arrived, with the values of its headers
    /// `memory_limit_in_mb`, `time_limit_in_ms` and `request_id`
    Fetched {
        memory_limit_in_mb: Option<String>,
        time_limit_in_ms: Option<String>,
        request_id: Option<String>,
    },
    /// the payload was parsed into an event
    PayloadParsed,
    /// the payload could not be parsed; the error's text
    PayloadRejected(String),
    /// the function returned a response
    Returned,
    /// the function returned an error; the error's text
    Failed(String),
    /// the function panicked; the panic's message
    Panicked(String),
    /// the response was turned into these bytes
    Encoded(Vec<u8>),
    /// the response could not be turned into bytes; the error's text
    EncodeRejected(String),
}

/// What the runtime asks the surrounding program to do next.
#[derive(Debug, Clone)]
pub enum Action {
    /// send `text` to `url` by a POST request
    SendText { url: String, text: String },
    /// send `bytes` to `url` by a POST request
    SendBytes { url: String, bytes: Vec<u8> },
    /// fetch the next invocation from `url` by a GET request
    Fetch { url: String },
    /// parse the payload of the fetched invocation into an event
    ParsePayload,
    /// call the function with the parsed event and this context
    Invoke(Context),
    /// turn the function's response into bytes
    Encode,
    /// panic with this message
    Panic(String),
    /// nothing: the report does not fit where the runtime stands
    Nothing,
}

/// The runtime's state: the endpoints of the cloud, the environment part of
/// every context, the panic policy, and where it stands in its loop.
#[derive(Debug, Clone)]
pub struct Runtime {
    pub endpoints: Endpoints,
    pub env_context: EnvContext,
    pub policy: PanicPolicy,
    pub phase: Phase,
}

/// `ctx` is the context of an invocation whose headers read as
/// `memory_limit_in_mb`, `time_limit_in_ms` and `request_id`, in the
/// environment `env`.
pub open spec fn context_from(
    ctx: Context,
    memory_limit_in_mb: int,
    time_limit_in_ms: int,
    request_id: Seq<char>,
    env: EnvContext,
) -> bool {
    &&& ctx.memory_limit_in_mb == memory_limit_in_mb
    &&& ctx.time_limit_in_ms == time_limit_in_ms
    &&& ctx.request_id@ == request_id
    &&& ctx.namespace@ == env.namespace@
    &&& ctx.function_name@ == env.function_name@
    &&& ctx.function_version@ == env.function_version@
    &&& ctx.region@ == env.region@
    &&& ctx.appid@ == env.appid@
    &&& ctx.uin@ == env.uin@
}

/// `action` sends `text` to the error endpoint of `rt`.
pub open spec fn sends_error(rt: Runtime, action: Action, text: Seq<char>) -> bool {
    action matches Action::SendText { url, text: t } && url@ == rt.endpoints.error_url@ && t@ == text
}

/// The message sent to the cloud when the payload cannot be parsed.
pub open spec fn payload_error_text(reason: Seq<char>) -> Seq<char> {
    "failed to parse incoming invocation payload: "@ + reason
}

/// The message sent to the cloud when the function returns an error.
pub open spec fn function_error_text(reason: Seq<char>) -> Seq<char> {
    "function failed with error: "@ + reason
}

/// The message sent to the cloud when the response cannot be turned into bytes.
pub open spec fn encode_error_text(reason: Seq<char>) -> Seq<char> {
    "fail to encode function response: "@ + reason
}

/// What the runtime does, where it stands in `before`, on `report`: `after` is
/// its next state and `action` what it asks for. Endpoints, environment and
/// policy never change.
pub open spec fn step_spec(before: Runtime, report: Report, after: Runtime, action: Action) -> bool {
    &&& after.endpoints == before.endpoints
    &&& after.env_context == before.env_context
    &&& after.policy == before.policy
    &&& match (before.phase, report) {
        (Phase::Starting, Report::Started) => {
            &&& after.phase is Sending
            &&& action matches Action::SendText { url, text }
            &&& url@ == before.endpoints.ready_url@
            &&& text@ == " "@
        },
        (Phase::Sending, Report::Sent) => {
            &&& after.phase is Fetching
            &&& action matches Action::Fetch { url } && url@ == before.endpoints.next_url@
        },
        (Phase::Fetching, Report::Fetched { memory_limit_in_mb, time_limit_in_ms, request_id }) => {
            match (
                header_number("memory_limit_in_mb"@, memory_limit_in_mb.deep_view()),
                header_number("time_limit_in_ms"@, time_limit_in_ms.deep_view()),
                request_id,
            ) {
                (Err(e), _, _) => after.phase is Sending && sends_error(before, action, e),
                (Ok(_), Err(e), _) => after.phase is Sending && sends_error(before, action, e),
                (Ok(_), Ok(_), None) => after.phase is Sending && sends_error(
                    before,
                    action,
                    missing_header_text("request_id"@),
                ),
                (Ok(m), Ok(t), Some(r)) => {
                    &&& action is ParsePayload
                    &&& after.phase matches Phase::ParsingPayload(ctx)
                    &&& context_from(ctx, m, t, r@, before.env_context)
                },
            }
        },
        (Phase::ParsingPayload(ctx), Report::PayloadParsed) => {
            &&& after.phase is Invoking
            &&& action == Action::Invoke(ctx)
        },
        (Phase::ParsingPayload(_), Report::PayloadRejected(reason)) => {
            &&& after.phase is Sending
            &&& sends_error(before, action, payload_error_text(reason@))
        },
        (Phase::Invoking, Report::Returned) => after.phase is Encoding && action is Encode,
        (Phase::Invoking, Report::Failed(reason)) => {
            &&& after.phase is Sending
            &&& sends_error(before, action, function_error_text(reason@))
        },
        (Phase::Invoking, Report::Panicked(message)) => {
            &&& sends_error(before, action, message@)
            &&& match before.policy {
                PanicPolicy::Catch => after.phase is Sending,
                PanicPolicy::Propagate => after.phase matches Phase::Aborting(m) && m@ == message@,
            }
        },
        (Phase::Encoding, Report::Encoded(bytes)) => {
            &&& after.phase is Sending
            &&& action matches Action::SendBytes { url, bytes: b }
            &&& url@ == before.endpoints.response_url@
            &&& b@ == bytes@
        },
        (Phase::Encoding, Report::EncodeRejected(reason)) => {
            &&& after.phase is Sending
            &&& sends_error(before, action, encode_error_text(reason@))
        },
        (Phase::Aborting(message), Report::Sent) => {
            &&& after.phase is Stopped
            &&& action matches Action::Panic(m) && m@ == message@
        },
        _ => after.phase == before.phase && action is Nothing,
    }
}

fn prefixed(prefix: &str, reason: &str) -> (res: String)
    ensures
        res@ == prefix@ + reason@,
{
    let mut message = String::from_str(prefix);
    message.append(reason);
    message
}

impl Runtime {
    /// A runtime that has not started yet, for the runtime API served at
    /// `api_server`, port `api_port`.
    pub fn new(api_server: &str, api_port: &str, env_context: EnvContext, policy: PanicPolicy) -> (res: Self)
        ensures
            res.endpoints.ready_url@ == endpoint_url(api_server@, api_port@, "/runtime/init/ready"@),
            res.endpoints.next_url@ == endpoint_url(api_server@, api_port@, "/runtime/invocation/next"@),
            res.endpoints.response_url@ == endpoint_url(
                api_server@,
                api_port@,
                "/runtime/invocation/response"@,
            ),
            res.endpoints.error_url@ == endpoint_url(
                api_server@,
                api_port@,
                "/runtime/invocation/error"@,
            ),
            res.env_context == env_context,
            res.policy == policy,
            res.phase is Starting,
    {
        Runtime { endpoints: Endpoints::new(api_server, api_port), env_context, policy, phase: Phase::Starting }
    }

    /// Reads the headers of an invocation into its context: `memory_limit_in_mb`
    /// and `time_limit_in_ms` as numbers, `request_id` as text, in this order;
    /// the first that is missing or unreadable gives the error message.
    pub fn break_parts(
        &self,
        memory_limit_in_mb: Option<&str>,
        time_limit_in_ms: Option<&str>,
        request_id: Option<&str>,
    ) -> (res: Result<Context, String>)
        ensures
            match (
                header_number("memory_limit_in_mb"@, memory_limit_in_mb.deep_view()),
                header_number("time_limit_in_ms"@, time_limit_in_ms.deep_view()),
                request_id,
            ) {
                (Err(e), _, _) => res matches Err(f) && f@ == e,
                (Ok(_), Err(e), _) => res matches Err(f) && f@ == e,
                (Ok(_), Ok(_), None) => res matches Err(f) && f@ == missing_header_text("request_id"@),
                (Ok(m), Ok(t), Some(r)) => res matches Ok(ctx) && context_from(ctx, m, t, r@, self.env_context),
            },
    {
        let memory = parse_header_number("memory_limit_in_mb", memory_limit_in_mb)?;
        let time = parse_header_number("time_limit_in_ms", time_limit_in_ms)?;
        let id = parse_header_text("request_id", request_id)?;
        Ok(Context::new(memory, time, id, &self.env_context))
    }

    fn send_error(&self, text: String) -> (res: Action)
        ensures
            sends_error(*self, res, text@),
    {
        Action::SendText { url: self.endpoints.error_url.clone(), text }
    }

    /// Moves the runtime one step on: where it stands and `report` decide its
    /// next state and the action it asks for.
    pub fn step(&mut self, report: Report) -> (action: Action)
        ensures
            step_spec(*old(self), report, *final(self), action),
            report matches Report::Encoded(bytes) ==> (old(self).phase is Encoding ==> (action matches Action::SendBytes {
                url,
                bytes: sent,
            } && sent@ == bytes@ && url@ == old(self).endpoints.response_url@)),
    {
        let mut phase = Phase::Stopped;
        std::mem::swap(&mut phase, &mut self.phase);
        match (phase, report) {
            (Phase::Starting, Report::Started) => {
                self.phase = Phase::Sending;
                Action::SendText { url: self.endpoints.ready_url.clone(), text: String::from_str(" ") }
            },
            (Phase::Sending, Report::Sent) => {
                self.phase = Phase::Fetching;
                Action::Fetch { url: self.endpoints.next_url.clone() }
            },
            (Phase::Fetching, Report::Fetched { memory_limit_in_mb, time_limit_in_ms, request_id }) => {
                let parts = self.break_parts(
                    as_text(&memory_limit_in_mb),
                    as_text(&time_limit_in_ms),
                    as_text(&request_id),
                );
                match parts {
                    Ok(ctx) => {
                        self.phase = Phase::ParsingPayload(ctx);
                        Action::ParsePayload
                    },
                    Err(message) => {
                        self.phase = Phase::Sending;
                        self.send_error(message)
                    },
                }
            },
            (Phase::ParsingPayload(ctx), Report::PayloadParsed) => {
                self.phase = Phase::Invoking;
                Action::Invoke(ctx)
            },
            (Phase::ParsingPayload(_), Report::PayloadRejected(reason)) => {
                self.phase = Phase::Sending;
                self.send_error(prefixed("failed to parse incoming invocation payload: ", reason.as_str()))
            },
            (Phase::Invoking, Report::Returned) => {
                self.phase = Phase::Encoding;
                Action::Encode
            },
            (Phase::Invoking, Report::Failed(reason)) => {
                self.phase = Phase::Sending;
                self.send_error(prefixed("function failed with error: ", reason.as_str()))
            },
            (Phase::Invoking, Report::Panicked(message)) => {
                match self.policy {
                    PanicPolicy::Catch => {
                        self.phase = Phase::Sending;
                    },
                    PanicPolicy::Propagate => {
                        self.phase = Phase::Aborting(message.clone());
                    },
                }
                self.send_error(message)
            },
            (Phase::Encoding, Report::Encoded(bytes)) => {
                self.phase = Phase::Sending;
                Action::SendBytes { url: self.endpoints.response_url.clone(), bytes }
            },
            (Phase::Encoding, Report::EncodeRejected(reason)) => {
                self.phase = Phase::Sending;
                self.send_error(prefixed("fail to encode function response: ", reason.as_str()))
            },
            (Phase::Aborting(message), Report::Sent) => {
                self.phase = Phase::Stopped;
                Action::Panic(message)
            },
            (phase, _) => {
                self.phase = phase;
                Action::Nothing
            },
        }
    }
}

fn as_text(value: &Option<String>) -> (res: Option<&str>)
    ensures
        res.deep_view() == value.deep_view(),
{
    match value {
        Some(s) => Some(s.as_str()),
        None => None,
    }
}

/// A runtime started with `PanicPolicy::Catch` never panics: from any state in
/// which it has not begun to abort, no step asks for a panic or leads to an
/// aborting or stopped state, whatever the function does.
pub proof fn catching_runtime_never_stops(before: Runtime, report: Report, after: Runtime, action: Action)
    requires
        step_spec(before, report, after, action),
        before.policy == PanicPolicy::Catch,
        !(before.phase is Aborting),
        !(before.phase is Stopped),
    ensures
        !(action is Panic),
        !(after.phase is Aborting),
        !(after.phase is Stopped),
        after.policy == PanicPolicy::Catch,
{
}

/// With `PanicPolicy::Catch`, a panic of the function is sent to the cloud as
/// the invocation's error, and once that request completes the runtime fetches
/// the next invocation.
pub proof fn caught_panic_is_reported_then_loop_goes_on(
    rt0: Runtime,
    message: String,
    rt1: Runtime,
    a1: Action,
    rt2: Runtime,
    a2: Action,
)
    requires
        rt0.phase is Invoking,
        rt0.policy == PanicPolicy::Catch,
        step_spec(rt0, Report::Panicked(message), rt1, a1),
        step_spec(rt1, Report::Sent, rt2, a2),
    ensures
        sends_error(rt0, a1, message@),
        rt2.phase is Fetching,
        a2 matches Action::Fetch { url } && url@ == rt0.endpoints.next_url@,
{
}

/// With `PanicPolicy::Propagate`, a panic of the function is first sent to the
/// cloud as the invocation's error; once that request completes the runtime
/// panics with the same message and stops.
pub proof fn propagated_panic_is_reported_before_stopping(
    rt0: Runtime,
    message: String,
    rt1: Runtime,
    a1: Action,
    rt2: Runtime,
    a2: Action,
)
    requires
        rt0.phase is Invoking,
        rt0.policy == PanicPolicy::Propagate,
        step_spec(rt0, Report::Panicked(message), rt1, a1),
        step_spec(rt1, Report::Sent, rt2, a2),
    ensures
        sends_error(rt0, a1, message@),
        rt2.phase is Stopped,
        a2 matches Action::Panic(m) && m@ == message@,
{
}

/// The bytes that a response was turned into are sent to the response endpoint
/// as they are, none added, dropped or changed (no bytes at all for an empty
/// response), and the runtime then waits for that request to complete.
pub proof fn encoded_response_is_sent_as_is(before: Runtime, bytes: Vec<u8>, after: Runtime, action: Action)
    requires
        before.phase is Encoding,
        step_spec(before, Report::Encoded(bytes), after, action),
    ensures
        action matches Action::SendBytes { url, bytes: sent } && sent@ == bytes@ && url@
            == before.endpoints.response_url@,
        after.phase is Sending,
        bytes@.len() == 0 ==> (action matches Action::SendBytes { bytes: sent, .. } && sent@.len() == 0),
{
}

/// Once started, the runtime announces that it is ready by sending a single
/// space to the ready endpoint, then waits for that request to complete.
pub proof fn ready_is_announced_with_a_single_space(before: Runtime, after: Runtime, action: Action)
    requires
        before.phase is Starting,
        step_spec(before, Report::Started, after, action),
    ensures
        action matches Action::SendText { url, text } && url@ == before.endpoints.ready_url@ && text@ == seq![' '],
        after.phase is Sending,
{
    reveal_strlit(" ");
}

/// A runtime that has panicked stays so: whatever is reported, it asks for
/// nothing more.
pub proof fn stopped_runtime_stays_stopped(before: Runtime, report: Report, after: Runtime, action: Action)
    requires
        before.phase is Stopped,
        step_spec(before, report, after, action),
    ensures
        after.phase is Stopped,
        action is Nothing,
{
}

/// While a request to the cloud is under way, only its completion moves the
/// runtime on: any other report leaves it waiting and asks for nothing.
pub proof fn sending_runtime_waits_for_completion(before: Runtime, report: Report, after: Runtime, action: Action)
    requires
        before.phase is Sending,
        !(report is Sent),
        step_spec(before, report, after, action),
    ensures
        after.phase is Sending,
        action is Nothing,
{
}

/// Every way an invocation can end, once its headers are read, is answered by
/// exactly one request to the cloud: the encoded response to the response
/// endpoint, or a message to the error endpoint. After that request the runtime
/// (unless it aborts) fetches the next invocation.
pub proof fn every_outcome_is_sent_once(before: Runtime, report: Report, after: Runtime, action: Action)
    requires
        step_spec(before, report, after, action),
        before.phase is ParsingPayload || before.phase is Invoking || before.phase is Encoding,
        action is SendText || action is SendBytes,
    ensures
        after.phase is Sending || after.phase is Aborting,
        action matches Action::SendBytes { url, bytes } ==> url@ == before.endpoints.response_url@,
        action matches Action::SendText { url, text } ==> url@ == before.endpoints.error_url@,
{
}

/// The context that the function receives for an invocation holds the numbers
/// and the request id read from that invocation's headers, and the environment
/// that the runtime was started with.
pub proof fn invoked_context_comes_from_headers_and_environment(
    rt0: Runtime,
    memory_limit_in_mb: Option<String>,
    time_limit_in_ms: Option<String>,
    request_id: Option<String>,
    rt1: Runtime,
    a1: Action,
    rt2: Runtime,
    a2: Action,
)
    requires
        rt0.phase is Fetching,
        step_spec(rt0, Report::Fetched { memory_limit_in_mb, time_limit_in_ms, request_id }, rt1, a1),
        step_spec(rt1, Report::PayloadParsed, rt2, a2),
        a2 is Invoke,
    ensures
        header_number("memory_limit_in_mb"@, memory_limit_in_mb.deep_view()) matches Ok(m)
            && header_number("time_limit_in_ms"@, time_limit_in_ms.deep_view()) matches Ok(t)
            && request_id matches Some(r) && context_from(a2->Invoke_0, m, t, r@, rt0.env_context),
{
}

/// True when `states`, `reports` and `actions` make a run of the runtime: each
/// step goes from one state to the next on its report and asks for its action.
pub open spec fn is_run(states: Seq<Runtime>, reports: Seq<Report>, actions: Seq<Action>) -> bool {
    &&& states.len() == reports.len() + 1
    &&& actions.len() == reports.len()
    &&& forall|i: int|
        0 <= i < reports.len() ==> #[trigger] step_spec(states[i], reports[i], states[i + 1], actions[i])
}

/// True when `action` answers an invocation: it sends a text or bytes.
pub open spec fn is_answer(action: Action) -> bool {
    action is SendText || action is SendBytes
}

/// How many of `actions` answer an invocation.
pub open spec fn count_answers(actions: Seq<Action>) -> nat
    decreases actions.len(),
{
    if actions.len() == 0 {
        0
    } else {
        count_answers(actions.drop_last()) + if is_answer(actions.last()) {
            1nat
        } else {
            0nat
        }
    }
}

/// How many of `actions` call the function.
pub open spec fn count_invocations(actions: Seq<Action>) -> nat
    decreases actions.len(),
{
    if actions.len() == 0 {
        0
    } else {
        count_invocations(actions.drop_last()) + if actions.last() is Invoke {
            1nat
        } else {
            0nat
        }
    }
}

/// Where the runtime stands between fetching an invocation and answering it.
pub open spec fn before_answer(phase: Phase) -> bool {
    phase is Fetching || phase is ParsingPayload || phase is Invoking || phase is Encoding
}

/// What holds after the first `k` steps of a run that starts by fetching an
/// invocation and has not fetched again.
pub open spec fn answer_progress(states: Seq<Runtime>, actions: Seq<Action>, k: int) -> bool {
    let done = actions.take(k);
    &&& states[k].endpoints == states[0].endpoints
    &&& forall|i: int|
        0 <= i < k && is_answer(#[trigger] actions[i]) ==> {
            &&& actions[i] matches Action::SendBytes { url, bytes } ==> url@ == states[0].endpoints.response_url@
            &&& actions[i] matches Action::SendText { url, text } ==> url@ == states[0].endpoints.error_url@
        }
    &&& if before_answer(states[k].phase) {
        &&& count_answers(done) == 0
        &&& (states[k].phase is Fetching || states[k].phase is ParsingPayload) ==> count_invocations(done) == 0
        &&& (states[k].phase is Invoking || states[k].phase is Encoding) ==> count_invocations(done) == 1
    } else {
        &&& count_answers(done) == 1
        &&& count_invocations(done) <= 1
        &&& states[k].phase is Sending || states[k].phase is Aborting || states[k].phase is Stopped
    }
}

proof fn lemma_answer_progress(states: Seq<Runtime>, reports: Seq<Report>, actions: Seq<Action>, k: int)
    requires
        is_run(states, reports, actions),
        states[0].phase is Fetching,
        0 <= k <= reports.len(),
        forall|i: int| 0 <= i < k ==> !(#[trigger] actions[i] is Fetch),
    ensures
        answer_progress(states, actions, k),
    decreases k,
{
    if k == 0 {
        assert(actions.take(0) =~= Seq::<Action>::empty());
    } else {
        lemma_answer_progress(states, reports, actions, k - 1);
        let i = k - 1;
        assert(step_spec(states[i], reports[i], states[i + 1], actions[i]));
        assert(actions.take(k).drop_last() =~= actions.take(i));
        assert(actions.take(k).last() == actions[i]);
        assert(!(actions[i] is Fetch));
    }
}

/// Each invocation that the runtime fetches is answered by exactly one request
/// to the cloud before it fetches the next one: in a run that starts right
/// after a fetch and ends with the next fetch, exactly one action sends, the
/// encoded response to the response endpoint or a message to the error
/// endpoint, and the function is called at most once.
pub proof fn each_invocation_is_answered_once(states: Seq<Runtime>, reports: Seq<Report>, actions: Seq<Action>)
    requires
        is_run(states, reports, actions),
        reports.len() > 0,
        states[0].phase is Fetching,
        actions.last() is Fetch,
        forall|i: int| 0 <= i < actions.len() - 1 ==> !(#[trigger] actions[i] is Fetch),
    ensures
        count_answers(actions) == 1,
        count_invocations(actions) <= 1,
        forall|i: int|
            0 <= i < actions.len() && is_answer(#[trigger] actions[i]) ==> {
                &&& actions[i] matches Action::SendBytes { url, bytes } ==> url@ == states[0].endpoints.response_url@
                &&& actions[i] matches Action::SendText { url, text } ==> url@ == states[0].endpoints.error_url@
            },
{
    let n = reports.len() as int;
    lemma_answer_progress(states, reports, actions, n - 1);
    let i = n - 1;
    assert(step_spec(states[i], reports[i], states[i + 1], actions[i]));
    assert(actions.drop_last() =~= actions.take(i));
}

} // verus!
