use tencent_scf::runtime::{parse_header_number, parse_header_text};
use tencent_scf::{Action, Context, Endpoints, EnvContext, PanicPolicy, Phase, Report, Runtime};

fn env() -> EnvContext {
    EnvContext {
        namespace: "ns".to_string(),
        function_name: "fn".to_string(),
        function_version: "1".to_string(),
        region: "ap-beijing".to_string(),
        appid: "app".to_string(),
        uin: "uin".to_string(),
    }
}

fn runtime(policy: PanicPolicy) -> Runtime {
    Runtime::new("127.0.0.1", "9001", env(), policy)
}

fn fetched(memory: Option<&str>, time: Option<&str>, id: Option<&str>) -> Report {
    Report::Fetched {
        memory_limit_in_mb: memory.map(str::to_string),
        time_limit_in_ms: time.map(str::to_string),
        request_id: id.map(str::to_string),
    }
}

fn expect_text(action: Action) -> (String, String) {
    match action {
        Action::SendText { url, text } => (url, text),
        other => panic!("expected a text to send, got {:?}", other),
    }
}

#[test]
fn endpoints_are_built_from_server_and_port() {
    let e = Endpoints::new("127.0.0.1", "9001");
    assert_eq!(e.ready_url, "http://127.0.0.1:9001/runtime/init/ready");
    assert_eq!(e.next_url, "http://127.0.0.1:9001/runtime/invocation/next");
    assert_eq!(e.response_url, "http://127.0.0.1:9001/runtime/invocation/response");
    assert_eq!(e.error_url, "http://127.0.0.1:9001/runtime/invocation/error");
}

#[test]
fn header_number_messages() {
    assert_eq!(parse_header_number("time_limit_in_ms", Some("3000")), Ok(3000));
    assert_eq!(
        parse_header_number("time_limit_in_ms", None),
        Err("header time_limit_in_ms is not present in the incoming invocation".to_string())
    );
    assert_eq!(
        parse_header_number("memory_limit_in_mb", Some("12MB")),
        Err("fail to parse value of header memory_limit_in_mb of incoming invocation: invalid digit found in string"
            .to_string())
    );
    assert_eq!(
        parse_header_number("memory_limit_in_mb", Some("")),
        Err("fail to parse value of header memory_limit_in_mb of incoming invocation: cannot parse integer from empty string"
            .to_string())
    );
    assert_eq!(parse_header_text("request_id", Some("abc")), Ok("abc".to_string()));
    assert_eq!(
        parse_header_text("request_id", None),
        Err("header request_id is not present in the incoming invocation".to_string())
    );
}

#[test]
fn break_parts_checks_headers_in_order() {
    let rt = runtime(PanicPolicy::Catch);
    let ctx = rt.break_parts(Some("128"), Some("3000"), Some("id-7")).unwrap();
    assert_eq!(ctx, Context::new(128, 3000, "id-7".to_string(), &env()));
    assert_eq!(
        rt.break_parts(Some("x"), None, None).unwrap_err(),
        "fail to parse value of header memory_limit_in_mb of incoming invocation: invalid digit found in string"
    );
    assert_eq!(
        rt.break_parts(Some("1"), None, None).unwrap_err(),
        "header time_limit_in_ms is not present in the incoming invocation"
    );
    assert_eq!(
        rt.break_parts(Some("1"), Some("2"), None).unwrap_err(),
        "header request_id is not present in the incoming invocation"
    );
}

#[test]
fn runtime_announces_readiness_with_a_space() {
    let mut rt = runtime(PanicPolicy::Catch);
    let (url, text) = expect_text(rt.step(Report::Started));
    assert_eq!(url, "http://127.0.0.1:9001/runtime/init/ready");
    assert_eq!(text, " ");
    match rt.step(Report::Sent) {
        Action::Fetch { url } => assert_eq!(url, "http://127.0.0.1:9001/runtime/invocation/next"),
        other => panic!("unexpected {:?}", other),
    }
}

#[test]
fn runtime_full_invocation_sends_response() {
    let mut rt = runtime(PanicPolicy::Catch);
    rt.step(Report::Started);
    rt.step(Report::Sent);
    assert!(matches!(rt.step(fetched(Some("64"), Some("100"), Some("r1"))), Action::ParsePayload));
    match rt.step(Report::PayloadParsed) {
        Action::Invoke(ctx) => {
            assert_eq!(ctx.memory_limit_in_mb, 64);
            assert_eq!(ctx.time_limit_in_ms, 100);
            assert_eq!(ctx.request_id, "r1");
            assert_eq!(ctx.region, "ap-beijing");
        }
        other => panic!("unexpected {:?}", other),
    }
    assert!(matches!(rt.step(Report::Returned), Action::Encode));
    match rt.step(Report::Encoded(b"{\"ok\":1}".to_vec())) {
        Action::SendBytes { url, bytes } => {
            assert_eq!(url, "http://127.0.0.1:9001/runtime/invocation/response");
            assert_eq!(bytes, b"{\"ok\":1}".to_vec());
        }
        other => panic!("unexpected {:?}", other),
    }
    assert!(matches!(rt.step(Report::Sent), Action::Fetch { .. }));
    assert!(matches!(rt.phase, Phase::Fetching));
}

#[test]
fn runtime_reports_errors_to_error_endpoint() {
    let error_url = "http://127.0.0.1:9001/runtime/invocation/error";
    let mut rt = runtime(PanicPolicy::Catch);
    rt.step(Report::Started);
    rt.step(Report::Sent);
    let (url, text) = expect_text(rt.step(fetched(None, Some("1"), Some("r"))));
    assert_eq!(url, error_url);
    assert_eq!(text, "header memory_limit_in_mb is not present in the incoming invocation");
    rt.step(Report::Sent);
    rt.step(fetched(Some("1"), Some("1"), Some("r")));
    let (url, text) = expect_text(rt.step(Report::PayloadRejected("expected value at line 1 column 1".to_string())));
    assert_eq!(url, error_url);
    assert_eq!(text, "failed to parse incoming invocation payload: expected value at line 1 column 1");
    rt.step(Report::Sent);
    rt.step(fetched(Some("1"), Some("1"), Some("r")));
    rt.step(Report::PayloadParsed);
    let (_, text) = expect_text(rt.step(Report::Failed("boom".to_string())));
    assert_eq!(text, "function failed with error: boom");
    rt.step(Report::Sent);
    rt.step(fetched(Some("1"), Some("1"), Some("r")));
    rt.step(Report::PayloadParsed);
    rt.step(Report::Returned);
    let (_, text) = expect_text(rt.step(Report::EncodeRejected("key must be a string".to_string())));
    assert_eq!(text, "fail to encode function response: key must be a string");
}

#[test]
fn caught_panic_keeps_the_runtime_running() {
    let mut rt = runtime(PanicPolicy::Catch);
    rt.step(Report::Started);
    rt.step(Report::Sent);
    rt.step(fetched(Some("1"), Some("1"), Some("r")));
    rt.step(Report::PayloadParsed);
    let (url, text) = expect_text(rt.step(Report::Panicked("function panicked: oops\n".to_string())));
    assert_eq!(url, "http://127.0.0.1:9001/runtime/invocation/error");
    assert_eq!(text, "function panicked: oops\n");
    assert!(matches!(rt.step(Report::Sent), Action::Fetch { .. }));
}

#[test]
fn propagated_panic_is_sent_then_raised() {
    let mut rt = runtime(PanicPolicy::Propagate);
    rt.step(Report::Started);
    rt.step(Report::Sent);
    rt.step(fetched(Some("1"), Some("1"), Some("r")));
    rt.step(Report::PayloadParsed);
    let (_, text) = expect_text(rt.step(Report::Panicked("oops".to_string())));
    assert_eq!(text, "oops");
    match rt.step(Report::Sent) {
        Action::Panic(message) => assert_eq!(message, "oops"),
        other => panic!("unexpected {:?}", other),
    }
    assert!(matches!(rt.phase, Phase::Stopped));
    assert!(matches!(rt.step(Report::Started), Action::Nothing));
}

#[test]
fn unexpected_report_changes_nothing() {
    let mut rt = runtime(PanicPolicy::Catch);
    assert!(matches!(rt.step(Report::Returned), Action::Nothing));
    assert!(matches!(rt.phase, Phase::Starting));
}

#[test]
fn each_fetched_invocation_gets_one_answer() {
    let scripts: Vec<Vec<Report>> = vec![
        vec![fetched(None, None, None), Report::Sent],
        vec![fetched(Some("1"), Some("2"), Some("r")), Report::PayloadRejected("bad".to_string()), Report::Sent],
        vec![
            fetched(Some("1"), Some("2"), Some("r")),
            Report::Returned,
            Report::PayloadParsed,
            Report::Failed("e".to_string()),
            Report::Sent,
        ],
        vec![
            fetched(Some("1"), Some("2"), Some("r")),
            Report::PayloadParsed,
            Report::Returned,
            Report::Sent,
            Report::Encoded(vec![1]),
            Report::Sent,
        ],
    ];
    for script in scripts {
        let mut rt = runtime(PanicPolicy::Catch);
        rt.step(Report::Started);
        rt.step(Report::Sent);
        let mut answers = 0;
        let mut invocations = 0;
        let mut fetched_again = false;
        for report in script {
            match rt.step(report) {
                Action::SendText { .. } | Action::SendBytes { .. } => answers += 1,
                Action::Invoke(_) => invocations += 1,
                Action::Fetch { .. } => fetched_again = true,
                _ => {}
            }
        }
        assert!(fetched_again);
        assert_eq!(answers, 1);
        assert!(invocations <= 1);
    }
}
