use mikan_proxy::gate::{admits, find_token, TokenFuture, TokenLayer};
use mikan_proxy::proxy::{assemble, failure, handle, sanitize_headers, target_url, Header, InboundRequest, Step, UpstreamResponse};
use mikan_proxy::rewrite::{content_is_xml, rewrite_body, RewriteError};

fn b(s: &str) -> Vec<u8> {
    s.as_bytes().to_vec()
}

fn header(name: &str, value: &str) -> Header {
    Header { name: b(name), value: b(value) }
}

fn request(path: Option<&str>, query: Option<&str>, headers: Vec<Header>) -> InboundRequest {
    InboundRequest {
        method: b("GET"),
        path: path.map(b),
        query: query.map(b),
        headers,
        body: Vec::new(),
    }
}

fn names(hs: &[Header]) -> Vec<String> {
    hs.iter().map(|h| String::from_utf8(h.name.clone()).unwrap()).collect()
}

#[test]
fn forwards_rss_request_with_matching_token() {
    let token = Some(b("abc"));
    match handle(&token, request(Some("rss/1234"), Some("token=abc"), vec![])) {
        Step::Forward(out) => {
            assert_eq!(out.url, b("https://mikanani.me/rss/1234?token=abc"));
            assert_eq!(out.method, b("GET"));
        }
        Step::Reject(_) => panic!("request was refused"),
    }
}

#[test]
fn wrong_token_is_refused_with_not_found() {
    let token = Some(b("abc"));
    match handle(&token, request(Some("rss/1234"), Some("token=wrong"), vec![])) {
        Step::Reject(resp) => {
            assert_eq!(resp.status, 404);
            assert!(resp.body.is_empty());
            assert!(resp.headers.is_empty());
        }
        Step::Forward(_) => panic!("request went upstream"),
    }
}

#[test]
fn missing_query_or_key_is_refused() {
    let token = Some(b("abc"));
    assert!(matches!(handle(&token, request(None, None, vec![])), Step::Reject(_)));
    assert!(matches!(handle(&token, request(None, Some("other=abc"), vec![])), Step::Reject(_)));
    assert!(!admits(&token, &Some(b("token=abc&token=abc"))));
}

#[test]
fn open_gate_forwards_everything() {
    assert!(matches!(handle(&None, request(None, None, vec![])), Step::Forward(_)));
    assert!(matches!(handle(&None, request(Some("x"), Some("token=nope"), vec![])), Step::Forward(_)));
}

#[test]
fn token_is_percent_decoded() {
    let token = Some(b("a c"));
    assert!(admits(&token, &Some(b("x=1&token=a%20c"))));
    assert!(admits(&token, &Some(b("token=a+c"))));
    let pairs = vec![(b("a"), b("1")), (b("token"), b("t"))];
    assert_eq!(find_token(&pairs), Some(b("t")));
}

#[test]
fn root_and_query_only_targets() {
    assert_eq!(target_url(&None, &None), b("https://mikanani.me/"));
    assert_eq!(target_url(&None, &Some(b("a=1"))), b("https://mikanani.me/?a=1"));
    assert_eq!(target_url(&Some(b("a/b")), &None), b("https://mikanani.me/a/b"));
}

#[test]
fn edge_headers_are_stripped() {
    let hs = vec![
        header("x-forwarded-host", "h"),
        header("CF-Connecting-IP", "1.2.3.4"),
        header("cf-ipcountry", "JP"),
        header("accept-encoding", "gzip"),
        header("user-agent", "feed"),
    ];
    let out = sanitize_headers(&hs);
    assert_eq!(names(&out), vec!["user-agent".to_string(), "accept-encoding".to_string()]);
    assert_eq!(out[1].value, b("br"));
    assert_eq!(out[0].value, b("feed"));
}

#[test]
fn redirect_is_passed_through() {
    let up = UpstreamResponse {
        status: 302,
        headers: vec![header("location", "https://mikanani.me/x")],
        body: Vec::new(),
    };
    let resp = assemble(b"https://proxy.example.com", up).unwrap();
    assert_eq!(resp.status, 302);
    assert_eq!(resp.headers.len(), 1);
    assert_eq!(resp.headers[0].value, b("https://mikanani.me/x"));
}

#[test]
fn xml_feed_link_is_rewritten() {
    let body = b("<link>https://mikanani.me/feed</link>");
    let out = rewrite_body(b"application/xml; charset=utf-8", body, b"https://proxy.example.com").unwrap();
    assert_eq!(out, b("<link>https://proxy.example.com/feed</link>"));
}

#[test]
fn both_schemes_are_rewritten_and_other_bytes_kept() {
    let body = b("a http://mikanani.me/1 b https://mikanani.me c mikanani.me $1");
    let out = rewrite_body(b"Application/XML", body, b"P$1").unwrap();
    assert_eq!(out, b("a P$1/1 b P$1 c mikanani.me $1"));
}

#[test]
fn non_xml_body_is_identity() {
    let body = vec![0u8, 255, 104, 116, 116, 112];
    let text = b("https://mikanani.me/");
    assert_eq!(rewrite_body(b"application/octet-stream", body.clone(), b"X").unwrap(), body);
    assert_eq!(rewrite_body(b"text/html", text.clone(), b"X").unwrap(), text);
    assert!(!content_is_xml(b""));
    assert!(content_is_xml(b"text/plain, APPLICATION/xml"));
}

#[test]
fn invalid_utf8_xml_is_an_error() {
    let r = rewrite_body(b"application/xml", vec![0xff, 0xfe], b"X");
    assert_eq!(r, Err(RewriteError::Decode));
    let up = UpstreamResponse { status: 200, headers: vec![header("Content-Type", "application/xml")], body: vec![0xc3] };
    assert!(matches!(assemble(b"X", up), Err(RewriteError::Decode)));
}

#[test]
fn assemble_rewrites_xml_and_keeps_status() {
    let up = UpstreamResponse {
        status: 200,
        headers: vec![header("content-type", "application/xml"), header("content-length", "30")],
        body: b("<a>http://mikanani.me</a>"),
    };
    let resp = assemble(b"https://p", up).unwrap();
    assert_eq!(resp.status, 200);
    assert_eq!(resp.body, b("<a>https://p</a>"));
    assert_eq!(resp.headers.len(), 2);
}

#[test]
fn transport_failure_is_500() {
    let resp = failure(b("connection refused"));
    assert_eq!(resp.status, 500);
    assert_eq!(resp.body, b("connection refused"));
    assert_eq!(names(&resp.headers), vec!["content-type".to_string()]);
    assert_eq!(resp.headers[0].value, b("text/plain; charset=utf-8"));
}

#[test]
fn layer_and_future() {
    let layer = TokenLayer::new(Some(b("abc")));
    let mw = layer.layer(7u32);
    assert_eq!(mw.inner, 7);
    assert!(mw.admits(&Some(b("token=abc"))));
    assert!(!mw.admits(&None));
    assert_eq!(TokenFuture::future(5u8).resolve().ok(), Some(5));
    let refused = TokenFuture::<u8>::invalid().resolve();
    match refused {
        Err(resp) => assert_eq!(resp.status, 404),
        Ok(_) => panic!("refusal resolved to work"),
    }
}
