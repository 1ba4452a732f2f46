use ren_desktop::proxy::{
    build_upstream_url, response_head, response_head_with_reason, route_request, upstream_request,
    ClientRequest, RequestRoute,
};

fn forward(raw: &str) -> ClientRequest {
    match route_request(raw.as_bytes()) {
        RequestRoute::Forward(r) => r,
        RequestRoute::Ignore => panic!("ignored"),
        RequestRoute::NotFound(_) => panic!("not found"),
    }
}

fn pairs(v: &[(&str, &str)]) -> Vec<(String, String)> {
    v.iter().map(|(a, b)| (a.to_string(), b.to_string())).collect()
}

#[test]
fn parses_method_path_headers_and_body() {
    let r = forward("POST /v1/chat/completions HTTP/1.1\r\nHost: x\r\nContent-Type:  application/json \r\n\r\n{\"a\":1}");
    assert_eq!(r.method, "POST");
    assert_eq!(r.path, "/v1/chat/completions");
    assert_eq!(r.headers, pairs(&[("Host", "x"), ("Content-Type", "application/json")]));
    assert_eq!(r.body, "{\"a\":1}");
}

#[test]
fn body_lines_are_joined_with_crlf() {
    let r = forward("POST /v1 HTTP/1.1\nA: b\n\nline1\nline2\r\nline3\n");
    assert_eq!(r.path, "/v1");
    assert_eq!(r.body, "line1\r\nline2\r\nline3");
}

#[test]
fn without_blank_line_the_body_is_the_whole_request() {
    let r = forward("GET /v1/models HTTP/1.1\r\nAccept: */*");
    assert_eq!(r.headers, pairs(&[("Accept", "*/*")]));
    assert_eq!(r.body, "GET /v1/models HTTP/1.1\r\nAccept: */*");
}

#[test]
fn lines_without_colon_are_skipped() {
    let r = forward("GET /v1/x HTTP/1.1\r\nnot a header\r\nK: v:w\r\n\r\n");
    assert_eq!(r.headers, pairs(&[("K", "v:w")]));
    assert_eq!(r.body, "");
}

#[test]
fn other_paths_get_404() {
    match route_request(b"GET /v2/models HTTP/1.1\r\n\r\n") {
        RequestRoute::NotFound(resp) => assert_eq!(
            resp,
            "HTTP/1.1 404 Not Found\r\nContent-Type: text/plain\r\n\r\nOnly /v1/* endpoints are supported"
        ),
        _ => panic!("expected 404"),
    }
    assert!(matches!(route_request(b"GET /v1x HTTP/1.1\r\n"), RequestRoute::NotFound(_)));
    assert!(matches!(route_request(b"GET / HTTP/1.1\r\n"), RequestRoute::NotFound(_)));
}

#[test]
fn empty_or_short_requests_are_ignored() {
    assert!(matches!(route_request(b""), RequestRoute::Ignore));
    assert!(matches!(route_request(b"GET\r\n"), RequestRoute::Ignore));
    assert!(matches!(route_request(b"   \r\nHost: x"), RequestRoute::Ignore));
}

#[test]
fn request_line_split_on_any_whitespace() {
    let r = forward("  PUT\t/v1/files \u{a0}HTTP/1.1\n\n");
    assert_eq!(r.method, "PUT");
    assert_eq!(r.path, "/v1/files");
}

#[test]
fn invalid_utf8_is_decoded_lossily() {
    let mut raw = b"POST /v1/a HTTP/1.1\r\n\r\n".to_vec();
    raw.push(0xff);
    let r = match route_request(&raw) {
        RequestRoute::Forward(r) => r,
        _ => panic!(),
    };
    assert_eq!(r.body, "\u{fffd}");
}

#[test]
fn upstream_url_avoids_double_v1() {
    assert_eq!(build_upstream_url("https://api.openai.com", "/v1/chat"), "https://api.openai.com/v1/chat");
    assert_eq!(build_upstream_url("https://api.x.ai/v1", "/v1/chat"), "https://api.x.ai/v1/chat");
    assert_eq!(build_upstream_url("https://api.x.ai/v1///", "/v1/chat"), "https://api.x.ai/v1/chat");
    assert_eq!(build_upstream_url("https://api.x.ai/v1", "/v1"), "https://api.x.ai/v1");
    assert_eq!(build_upstream_url("http://localhost:11434/", "/v1/models"), "http://localhost:11434/v1/models");
}

#[test]
fn upstream_request_replaces_credentials() {
    let req = ClientRequest {
        method: "POST".to_string(),
        path: "/v1/chat".to_string(),
        headers: pairs(&[
            ("Host", "me"),
            ("authorization", "Bearer client"),
            ("Content-Type", "application/json"),
            ("CONNECTION", "keep-alive"),
            ("Transfer-Encoding", "chunked"),
            ("X-Trace", "1"),
        ]),
        body: "{}".to_string(),
    };
    let up = upstream_request(&req, "https://api.openai.com/", "sk-1");
    assert_eq!(up.method, "POST");
    assert_eq!(up.url, "https://api.openai.com/v1/chat");
    assert_eq!(
        up.headers,
        pairs(&[("Content-Type", "application/json"), ("X-Trace", "1"), ("Authorization", "Bearer sk-1")])
    );
    assert_eq!(up.body, "{}");
}

#[test]
fn kelvin_sign_header_is_forwarded() {
    // "\u{212a}" lower-cases to 'k', but none of the dropped names holds a 'k'.
    let req = ClientRequest {
        method: "GET".to_string(),
        path: "/v1".to_string(),
        headers: pairs(&[("Hos\u{212a}", "a")]),
        body: String::new(),
    };
    let up = upstream_request(&req, "u", "k");
    assert_eq!(up.headers.len(), 2);
}

#[test]
fn response_head_lists_visible_headers() {
    let headers = vec![
        ("content-type".to_string(), b"application/json".to_vec()),
        ("x-bin".to_string(), vec![0x80, 0x41]),
        ("x-tab".to_string(), b"a\tb".to_vec()),
    ];
    assert_eq!(
        response_head(200, &headers),
        "HTTP/1.1 200 OK\r\ncontent-type: application/json\r\nx-tab: a\tb\r\n\r\n"
    );
}

#[test]
fn response_head_unknown_reason() {
    assert_eq!(response_head(599, &Vec::new()), "HTTP/1.1 599 Unknown\r\n\r\n");
    assert_eq!(response_head(404, &Vec::new()), "HTTP/1.1 404 Not Found\r\n\r\n");
    assert_eq!(
        response_head_with_reason(7, Some("Odd".to_string()), &Vec::new()),
        "HTTP/1.1 7 Odd\r\n\r\n"
    );
}

#[test]
fn only_the_authorization_header_depends_on_the_key() {
    let req = ClientRequest {
        method: "POST".to_string(),
        path: "/v1/x".to_string(),
        headers: pairs(&[("A", "1")]),
        body: "b".to_string(),
    };
    let one = upstream_request(&req, "https://u/v1", "k1");
    let two = upstream_request(&req, "https://u/v1", "k2");
    assert_eq!(one.url, two.url);
    assert_eq!(one.body, two.body);
    assert_eq!(one.method, two.method);
    assert_eq!(one.headers[..1], two.headers[..1]);
    assert_eq!(one.headers[1], ("Authorization".to_string(), "Bearer k1".to_string()));
    assert_eq!(two.headers[1], ("Authorization".to_string(), "Bearer k2".to_string()));
}
