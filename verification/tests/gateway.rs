use tencent_scf::builtin::api::{break_response, Dict};
use tencent_scf::builtin::api::ext::{
    HeaderParameters, PathParameters, QueryString, QueryStringParameters, RequestContext,
};
use tencent_scf::{ApiResponse, Event, RequestParseError, ResponseEncodeError, WebResponse};

fn pairs(items: &[(&str, &str)]) -> Vec<(String, String)> {
    items.iter().map(|(k, v)| (k.to_string(), v.to_string())).collect()
}

fn dict(items: &[(&str, &str)]) -> Dict {
    let mut d = Dict::new();
    for (k, v) in items {
        d.insert(k.to_string(), v.to_string());
    }
    d
}

fn event(method: &str, path: &str, headers: &[(&str, &str)], body: &str) -> Event {
    let mut context = RequestContext::default();
    context.service_id = "service-1".to_string();
    context.request_id = "req-1".to_string();
    context.identity = dict(&[("secretId", "abc")]);
    Event {
        context,
        method: method.to_string(),
        path: path.to_string(),
        path_parameters: PathParameters(dict(&[("id", "7")])),
        query_string: QueryString(dict(&[("platform", "android")])),
        query_string_parameters: QueryStringParameters(dict(&[])),
        headers: dict(headers),
        header_parameters: HeaderParameters(dict(&[("h", "v")])),
        body: body.to_string(),
    }
}

#[test]
fn request_context_default_is_empty() {
    let c = RequestContext::default();
    assert!(c.service_id.is_empty() && c.path.is_empty() && c.method.is_empty());
    assert!(c.request_id.is_empty() && c.identity.len() == 0 && c.source_ip.is_empty());
    assert!(c.stage.is_empty());
}

#[test]
fn text_request_keeps_event_data() {
    let e = event("GET", "/hello", &[("Content-Type", "text/plain"), ("X-Custom", "é ok")], "hi");
    let req = e.into_text_request().unwrap();
    assert_eq!(req.head.method, "GET");
    assert_eq!(req.head.uri, "/hello");
    assert_eq!(req.head.headers, pairs(&[("content-type", "text/plain"), ("x-custom", "é ok")]));
    assert_eq!(req.head.context.service_id, "service-1");
    assert_eq!(req.head.context.identity, dict(&[("secretId", "abc")]));
    assert_eq!(req.head.path_parameters, PathParameters(dict(&[("id", "7")])));
    assert_eq!(req.head.query_string, QueryString(dict(&[("platform", "android")])));
    assert_eq!(req.head.query_string_parameters, QueryStringParameters(Dict::new()));
    assert_eq!(req.head.header_parameters, HeaderParameters(dict(&[("h", "v")])));
    assert_eq!(req.body, "hi");
}

#[test]
fn text_request_refuses_bad_header_name() {
    let e = event("POST", "/", &[("ok", "1"), ("bad name", "2"), ("bad\nvalue", "3")], "");
    match e.into_text_request() {
        Err(RequestParseError::InvalidHeaderName(name)) => assert_eq!(name, "bad name"),
        other => panic!("unexpected {:?}", other),
    }
}

#[test]
fn text_request_refuses_bad_header_value() {
    let e = event("POST", "/", &[("X-Trace", "a\nb"), ("bad name", "2")], "");
    match e.into_text_request() {
        Err(RequestParseError::InvalidHeaderValue(name)) => assert_eq!(name, "x-trace"),
        other => panic!("unexpected {:?}", other),
    }
}

#[test]
fn text_request_refuses_bad_method_before_headers() {
    let e = event("GE T", "/", &[("bad name", "2")], "");
    assert!(matches!(e.into_text_request(), Err(RequestParseError::AssembleError(_))));
    let e = event("GET", "not a uri", &[("bad name", "2")], "");
    assert!(matches!(e.into_text_request(), Err(RequestParseError::AssembleError(_))));
    let e = event("", "/", &[], "");
    assert!(matches!(e.into_text_request(), Err(RequestParseError::AssembleError(_))));
}

#[test]
fn extension_methods_are_accepted() {
    let e = event("PURGE", "/cache?x=1", &[], "");
    let req = e.into_text_request().unwrap();
    assert_eq!(req.head.method, "PURGE");
    assert_eq!(req.head.uri, "/cache?x=1");
}

#[test]
fn binary_request_decodes_base64() {
    let e = event("PUT", "/upload", &[("Content-Length", "5")], "aGVsbG8=");
    let req = e.into_binary_request().unwrap();
    assert_eq!(req.body, b"hello".to_vec());
    assert_eq!(req.head.headers, pairs(&[("content-length", "5")]));
}

#[test]
fn binary_request_error_order() {
    let e = event("PUT", "/", &[], "not base64!");
    assert!(matches!(e.into_binary_request(), Err(RequestParseError::Base64DecodeError(_))));
    let e = event("PU T", "/", &[("bad name", "x")], "not base64!");
    assert!(matches!(e.into_binary_request(), Err(RequestParseError::Base64DecodeError(_))));
    let e = event("PU T", "/", &[], "aGVsbG8=");
    assert!(matches!(e.into_binary_request(), Err(RequestParseError::AssembleError(_))));
    let e = event("PUT", "/", &[("bad name", "x")], "not base64!");
    assert!(matches!(e.into_binary_request(), Err(RequestParseError::InvalidHeaderName(_))));
}

fn response<B>(headers: &[(&str, &[u8])], body: B) -> ApiResponse<B> {
    ApiResponse {
        status: 200,
        headers: headers.iter().map(|(k, v)| (k.to_string(), v.to_vec())).collect(),
        body,
    }
}

#[test]
fn break_response_groups_every_header() {
    let r = response(
        &[("set-cookie", b"a=1"), ("set-cookie", b"b=2"), ("content-type", b"text/html"), ("x", b"\tv")],
        "body".to_string(),
    );
    let (status, headers, body) = break_response(r).unwrap();
    assert_eq!(status, 200);
    assert_eq!(body, "body");
    assert_eq!(
        headers,
        vec![
            ("set-cookie".to_string(), vec!["a=1".to_string(), "b=2".to_string()]),
            ("content-type".to_string(), vec!["text/html".to_string()]),
            ("x".to_string(), vec!["\tv".to_string()]),
        ]
    );
}

#[test]
fn break_response_refuses_non_ascii_value() {
    let r = response(&[("a", b"ok"), ("b", &[0xe4, 0xbd, 0xa0]), ("c", &[0x7f])], ());
    match break_response(r) {
        Err(ResponseEncodeError::InvalidHeaderValue(name)) => assert_eq!(name, "b"),
        other => panic!("unexpected {:?}", other.map(|_| ())),
    }
}

#[test]
fn web_response_from_text() {
    let mut r = response(&[("content-type", b"text/plain")], "Hello World".to_string());
    r.status = 404;
    let web = WebResponse::try_from_text_response(r).unwrap();
    assert!(!web.base64);
    assert_eq!(web.status, 404);
    assert_eq!(web.body, "Hello World");
    assert_eq!(web.headers, vec![("content-type".to_string(), vec!["text/plain".to_string()])]);
}

#[test]
fn web_response_from_bytes_is_base64() {
    for (input, expected) in [
        (&b""[..], ""),
        (&b"h"[..], "aA=="),
        (&b"he"[..], "aGU="),
        (&b"hello"[..], "aGVsbG8="),
        (&[0xfb, 0xff, 0xfe][..], "+//+"),
    ] {
        let web = WebResponse::try_from_binary_response(response(&[], input.to_vec())).unwrap();
        assert!(web.base64);
        assert_eq!(web.body, expected);
    }
}

#[test]
fn web_response_reports_bad_header_before_encoding() {
    let r = response(&[("x", &[0x01])], b"abc".to_vec());
    assert!(matches!(
        WebResponse::try_from_binary_response(r),
        Err(ResponseEncodeError::InvalidHeaderValue(n)) if n == "x"
    ));
}

#[test]
fn dict_keeps_each_name_once() {
    let mut d = Dict::new();
    assert_eq!(d.insert("a".to_string(), "1".to_string()), None);
    assert_eq!(d.insert("b".to_string(), "2".to_string()), None);
    assert_eq!(d.insert("a".to_string(), "3".to_string()), Some("1".to_string()));
    assert_eq!(d.len(), 2);
    assert_eq!(d.get("a"), Some(&"3".to_string()));
    assert_eq!(d.get("b"), Some(&"2".to_string()));
    assert_eq!(d.get("c"), None);
    assert_eq!(d.entries(), &pairs(&[("a", "3"), ("b", "2")]));
    let copy = d.clone();
    assert_eq!(copy, d);
}

#[test]
fn header_names_are_lowercased_and_checked() {
    let e = event("GET", "/", &[("X-MiXeD-Case", "v")], "");
    let req = e.into_text_request().unwrap();
    assert_eq!(req.head.headers, pairs(&[("x-mixed-case", "v")]));
    let e = event("GET", "/", &[("", "v")], "");
    assert!(matches!(e.into_text_request(), Err(RequestParseError::InvalidHeaderName(n)) if n.is_empty()));
    let e = event("GET", "/", &[("caf\u{e9}", "v")], "");
    assert!(matches!(e.into_text_request(), Err(RequestParseError::InvalidHeaderName(_))));
    let long = "a".repeat(65536);
    let e = event("GET", "/", &[(long.as_str(), "v")], "");
    assert!(matches!(e.into_text_request(), Err(RequestParseError::InvalidHeaderName(_))));
    let longest = "A".repeat(65535);
    let e = event("GET", "/", &[(longest.as_str(), "v")], "");
    let req = e.into_text_request().unwrap();
    assert_eq!(req.head.headers[0].0, "a".repeat(65535));
}

#[test]
fn binary_round_trip_of_a_binary_response() {
    let bytes: Vec<u8> = (0u8..=255).collect();
    let web = WebResponse::try_from_binary_response(response(&[], bytes.clone())).unwrap();
    let e = event("POST", "/", &[], &web.body);
    assert_eq!(e.into_binary_request().unwrap().body, bytes);
}
