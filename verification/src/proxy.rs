//! How the proxy treats one client connection: which requests it forwards,
//! what it sends upstream, and the head of the response it relays back.
use vstd::prelude::*;
use vstd::utf8::*;
use crate::text::{
    decimal, decimal_chars,
    ends_with, has_suffix, lowercase_equals, lowercases_to,
    chars_of, has_prefix, join_from, same_chars, split_lines, split_words, join, lines, split_once, split_once_char, starts_with, string_from_chars, trim, trim_chars, views,
    words,
};

verus! {

/// A header as text: name and value.
pub type SpecHeader = (Seq<char>, Seq<char>);

/// A client request the proxy forwards, as text.
pub struct SpecRequest {
    pub method: Seq<char>,
    pub path: Seq<char>,
    pub headers: Seq<SpecHeader>,
    pub body: Seq<char>,
}

/// What the proxy does with what a client sent.
pub enum SpecRoute {
    Ignore,
    NotFound(Seq<char>),
    Forward(SpecRequest),
}

/// A client request that the proxy forwards upstream.
pub struct ClientRequest {
    pub method: String,
    pub path: String,
    pub headers: Vec<(String, String)>,
    pub body: String,
}

/// What the proxy does with the bytes a client sent.
pub enum RequestRoute {
    /// Nothing is answered: no line, or a request line of fewer than two words.
    Ignore,
    /// A path outside `/v1`: this response is written back.
    NotFound(String),
    /// The request is forwarded upstream.
    Forward(ClientRequest),
}

pub open spec fn header_views(h: Seq<(String, String)>) -> Seq<SpecHeader> {
    h.map_values(|p: (String, String)| (p.0@, p.1@))
}

impl View for ClientRequest {
    type V = SpecRequest;

    open spec fn view(&self) -> SpecRequest {
        SpecRequest {
            method: self.method@,
            path: self.path@,
            headers: header_views(self.headers@),
            body: self.body@,
        }
    }
}

impl View for RequestRoute {
    type V = SpecRoute;

    open spec fn view(&self) -> SpecRoute {
        match self {
            RequestRoute::Ignore => SpecRoute::Ignore,
            RequestRoute::NotFound(resp) => SpecRoute::NotFound(resp@),
            RequestRoute::Forward(r) => SpecRoute::Forward(r@),
        }
    }
}

/// The response to a request for a path outside `/v1`.
pub open spec fn not_found_response() -> Seq<char> {
    "HTTP/1.1 404 Not Found\r\nContent-Type: text/plain\r\n\r\nOnly /v1/* endpoints are supported"@
}

/// The headers in `lines[i..]`, up to the first empty line, and the index of the
/// line where the body starts: the one after that empty line, or 0 where there
/// is none. A line without `:` is passed over; name and value are trimmed.
pub open spec fn parse_headers(lines: Seq<Seq<char>>, i: int) -> (Seq<SpecHeader>, int)
    decreases lines.len() - i,
{
    if i < 0 || i >= lines.len() {
        (Seq::empty(), 0)
    } else if lines[i].len() == 0 {
        (Seq::empty(), i + 1)
    } else {
        let rest = parse_headers(lines, i + 1);
        match split_once(lines[i], ':') {
            Some((k, v)) => (seq![(trim(k), trim(v))] + rest.0, rest.1),
            None => rest,
        }
    }
}

/// Only `/v1` and the paths under `/v1/` are served.
pub open spec fn served_path(path: Seq<char>) -> bool {
    starts_with(path, "/v1/"@) || path == "/v1"@
}

/// What the proxy does with the request text `text`.
pub open spec fn spec_route(text: Seq<char>) -> SpecRoute {
    let ls = lines(text);
    if ls.len() == 0 {
        SpecRoute::Ignore
    } else {
        let ws = words(ls[0]);
        if ws.len() < 2 {
            SpecRoute::Ignore
        } else if !served_path(ws[1]) {
            SpecRoute::NotFound(not_found_response())
        } else {
            let (headers, body_start) = parse_headers(ls, 1);
            SpecRoute::Forward(SpecRequest {
                method: ws[0],
                path: ws[1],
                headers: headers,
                body: join(ls.subrange(body_start, ls.len() as int), "\r\n"@),
            })
        }
    }
}

/// The headers of the request whose lines are `ls`, and where its body starts.
fn read_headers(ls: &Vec<Vec<char>>) -> (r: (Vec<(String, String)>, usize))
    requires
        ls@.len() >= 1,
    ensures
        (header_views(r.0@), r.1 as int) == parse_headers(views(ls@), 1),
        r.1 <= ls@.len(),
{
    let ghost all = views(ls@);
    let mut headers: Vec<(String, String)> = Vec::new();
    let mut body_start: usize = 0;
    let mut i: usize = 1;
    while i < ls.len()
        invariant_except_break
            1 <= i <= ls@.len(),
            all == views(ls@),
            body_start == 0,
            parse_headers(all, 1) == (header_views(headers@) + parse_headers(all, i as int).0,
                parse_headers(all, i as int).1),
        ensures
            parse_headers(all, 1) == (header_views(headers@), body_start as int),
            body_start <= ls@.len(),
        decreases ls@.len() - i,
    {
        let line = &ls[i];
        if line.len() == 0 {
            body_start = i + 1;
            assert(parse_headers(all, i as int) == (Seq::<SpecHeader>::empty(), i + 1));
            assert(header_views(headers@) + Seq::<SpecHeader>::empty() =~= header_views(headers@));
            break;
        }
        let ghost before = header_views(headers@);
        match split_once_char(line, ':') {
            Some((k, v)) => {
                let name = string_from_chars(&trim_chars(&k));
                let value = string_from_chars(&trim_chars(&v));
                headers.push((name, value));
                assert(header_views(headers@) =~= before.push((trim(k@), trim(v@))));
                assert(before.push((trim(k@), trim(v@))) + parse_headers(all, i + 1).0
                    =~= before + (seq![(trim(k@), trim(v@))] + parse_headers(all, i + 1).0));
            },
            None => {},
        }
        i = i + 1;
    }
    proof {
        if i >= ls@.len() {
            assert(header_views(headers@) + Seq::<SpecHeader>::empty() =~= header_views(headers@));
        }
    }
    (headers, body_start)
}


/// What the proxy does with the request text `text`; a path outside `/v1` is
/// answered with `not_found_response()`.
pub fn route_text(text: &Vec<char>) -> (r: RequestRoute)
    ensures
        r@ == spec_route(text@),
        r matches RequestRoute::NotFound(resp) ==> resp@ == not_found_response(),
{
    let ls = split_lines(text);
    if ls.len() == 0 {
        return RequestRoute::Ignore;
    }
    let ws = split_words(&ls[0]);
    if ws.len() < 2 {
        return RequestRoute::Ignore;
    }
    let v1_dir = chars_of("/v1/");
    let v1 = chars_of("/v1");
    if !has_prefix(&ws[1], &v1_dir) && !same_chars(&ws[1], &v1) {
        return RequestRoute::NotFound(String::from_str(
            "HTTP/1.1 404 Not Found\r\nContent-Type: text/plain\r\n\r\nOnly /v1/* endpoints are supported",
        ));
    }
    let (headers, body_start) = read_headers(&ls);
    let crlf = chars_of("\r\n");
    let body = join_from(&ls, body_start, &crlf);
    let req = ClientRequest {
        method: string_from_chars(&ws[0]),
        path: string_from_chars(&ws[1]),
        headers: headers,
        body: string_from_chars(&body),
    };
    RequestRoute::Forward(req)
}

/// Text of `bytes` with each invalid UTF-8 sequence replaced by U+FFFD, as
/// `String::from_utf8_lossy` decodes it.
pub uninterp spec fn utf8_lossy(bytes: Seq<u8>) -> Seq<char>;

/// `String::from_utf8_lossy`, as characters: for valid UTF-8 the decoded text.
#[verifier::external_body]
fn decode_lossy(bytes: &[u8]) -> (r: Vec<char>)
    ensures
        r@ == utf8_lossy(bytes@),
        valid_utf8(bytes@) ==> r@ == decode_utf8(bytes@),
{
    String::from_utf8_lossy(bytes).chars().collect()
}

/// What the proxy does with the bytes `data` that a client sent.
pub fn route_request(data: &[u8]) -> (r: RequestRoute)
    ensures
        r@ == spec_route(utf8_lossy(data@)),
        valid_utf8(data@) ==> r@ == spec_route(decode_utf8(data@)),
        r matches RequestRoute::NotFound(resp) ==> resp@ == not_found_response(),
{
    let text = decode_lossy(data);
    route_text(&text)
}


/// End of `s[..j]` once trailing `c`s are dropped.
pub open spec fn trim_end_at(s: Seq<char>, j: int, c: char) -> int
    decreases j,
{
    if 0 < j <= s.len() && s[j - 1] == c {
        trim_end_at(s, j - 1, c)
    } else {
        j
    }
}

/// `str::trim_end_matches` with a character.
pub open spec fn trim_end_char(s: Seq<char>, c: char) -> Seq<char> {
    s.subrange(0, trim_end_at(s, s.len() as int, c))
}

/// The client path as appended to the upstream base: where the base already
/// ends in `/v1`, the path's own leading `/v1` is dropped.
pub open spec fn forward_path(base: Seq<char>, path: Seq<char>) -> Seq<char> {
    if ends_with(base, "/v1"@) && starts_with(path, "/v1"@) {
        path.subrange(3, path.len() as int)
    } else {
        path
    }
}

/// The upstream URL for a client path: the configured upstream without
/// trailing slashes, then the forwarded path.
pub open spec fn upstream_url(upstream: Seq<char>, path: Seq<char>) -> Seq<char> {
    let base = trim_end_char(upstream, '/');
    base + forward_path(base, path)
}

/// Client headers that are never forwarded: hop-by-hop ones, the host, and
/// the client's own credentials.
pub open spec fn dropped_header(name: Seq<char>) -> bool {
    ||| lowercases_to(name, "host"@)
    ||| lowercases_to(name, "connection"@)
    ||| lowercases_to(name, "transfer-encoding"@)
    ||| lowercases_to(name, "authorization"@)
}

/// The client headers that are forwarded, in their order.
pub open spec fn forwarded_headers(hs: Seq<SpecHeader>) -> Seq<SpecHeader>
    decreases hs.len(),
{
    if hs.len() == 0 {
        Seq::empty()
    } else {
        let rest = forwarded_headers(hs.drop_last());
        if dropped_header(hs.last().0) {
            rest
        } else {
            rest.push(hs.last())
        }
    }
}

/// The header that carries the proxy's own API key.
pub open spec fn auth_header(api_key: Seq<char>) -> SpecHeader {
    ("Authorization"@, "Bearer "@ + api_key)
}

/// A request to send upstream, as text.
pub struct SpecUpstream {
    pub method: Seq<char>,
    pub url: Seq<char>,
    pub headers: Seq<SpecHeader>,
    pub body: Seq<char>,
}

/// The upstream request for client request `req`: same method and body, the
/// URL under `upstream`, the forwarded client headers and then the
/// `Authorization` header with `api_key`.
pub open spec fn spec_upstream(req: SpecRequest, upstream: Seq<char>, api_key: Seq<char>) -> SpecUpstream {
    SpecUpstream {
        method: req.method,
        url: upstream_url(upstream, req.path),
        headers: forwarded_headers(req.headers).push(auth_header(api_key)),
        body: req.body,
    }
}

/// A request to send upstream.
pub struct UpstreamRequest {
    pub method: String,
    pub url: String,
    pub headers: Vec<(String, String)>,
    pub body: String,
}

impl View for UpstreamRequest {
    type V = SpecUpstream;

    open spec fn view(&self) -> SpecUpstream {
        SpecUpstream {
            method: self.method@,
            url: self.url@,
            headers: header_views(self.headers@),
            body: self.body@,
        }
    }
}

fn is_dropped_header(name: &String) -> (b: bool)
    ensures
        b == dropped_header(name@),
{
    let n = chars_of(name.as_str());
    lowercase_equals(&n, &chars_of("host")) || lowercase_equals(&n, &chars_of("connection"))
        || lowercase_equals(&n, &chars_of("transfer-encoding"))
        || lowercase_equals(&n, &chars_of("authorization"))
}

fn forward_client_headers(hs: &Vec<(String, String)>) -> (r: Vec<(String, String)>)
    ensures
        header_views(r@) == forwarded_headers(header_views(hs@)),
{
    let ghost all = header_views(hs@);
    let mut r: Vec<(String, String)> = Vec::new();
    let mut i: usize = 0;
    while i < hs.len()
        invariant
            i <= hs@.len(),
            all == header_views(hs@),
            header_views(r@) == forwarded_headers(all.subrange(0, i as int)),
        decreases hs@.len() - i,
    {
        let ghost before = header_views(r@);
        proof {
            assert(all.subrange(0, i + 1).drop_last() =~= all.subrange(0, i as int));
        }
        if !is_dropped_header(&hs[i].0) {
            r.push((hs[i].0.clone(), hs[i].1.clone()));
            assert(header_views(r@) =~= before.push(all[i as int]));
        }
        i = i + 1;
    }
    assert(all.subrange(0, hs@.len() as int) =~= all);
    r
}

fn push_all(dst: &mut Vec<char>, src: &Vec<char>)
    ensures
        final(dst)@ == old(dst)@ + src@,
{
    let mut k: usize = 0;
    while k < src.len()
        invariant
            k <= src@.len(),
            dst@ == old(dst)@ + src@.subrange(0, k as int),
        decreases src@.len() - k,
    {
        dst.push(src[k]);
        k = k + 1;
    }
    assert(src@.subrange(0, src@.len() as int) =~= src@);
}

/// The upstream URL for client path `path` under the configured `upstream`.
pub fn build_upstream_url(upstream: &str, path: &str) -> (r: String)
    ensures
        r@ == upstream_url(upstream@, path@),
{
    let u = chars_of(upstream);
    let mut end = u.len();
    while end > 0 && u[end - 1] == '/'
        invariant
            end <= u@.len(),
            trim_end_at(u@, u@.len() as int, '/') == trim_end_at(u@, end as int, '/'),
        decreases end,
    {
        end = end - 1;
    }
    let mut url = crate::text::copy_range(&u, 0, end);
    let p = chars_of(path);
    let v1 = chars_of("/v1");
    proof {
        reveal_strlit("/v1");
    }
    if has_suffix(&url, &v1) && has_prefix(&p, &v1) {
        let rest = crate::text::copy_range(&p, 3, p.len());
        push_all(&mut url, &rest);
    } else {
        push_all(&mut url, &p);
    }
    string_from_chars(&url)
}

/// The request that forwards `req` upstream, authorized with `api_key`.
pub fn upstream_request(req: &ClientRequest, upstream: &str, api_key: &str) -> (r: UpstreamRequest)
    ensures
        r@ == spec_upstream(req@, upstream@, api_key@),
{
    let mut headers = forward_client_headers(&req.headers);
    let mut bearer = String::from_str("Bearer ");
    bearer.append(api_key);
    let ghost before = header_views(headers@);
    headers.push((String::from_str("Authorization"), bearer));
    assert(header_views(headers@) =~= before.push(auth_header(api_key@)));
    UpstreamRequest {
        method: req.method.clone(),
        url: build_upstream_url(upstream, req.path.as_str()),
        headers: headers,
        body: req.body.clone(),
    }
}


/// Only `/v1` and the paths under it are forwarded, with the method and path
/// of the request line; every other path of a well-formed request line is
/// answered with the 404 response.
pub proof fn law_only_v1_forwarded(text: Seq<char>)
    ensures
        spec_route(text) matches SpecRoute::Forward(r) ==> {
            &&& served_path(r.path)
            &&& lines(text).len() > 0
            &&& r.method == words(lines(text)[0])[0]
            &&& r.path == words(lines(text)[0])[1]
        },
        spec_route(text) is NotFound <==> (lines(text).len() > 0 && words(lines(text)[0]).len() >= 2
            && !served_path(words(lines(text)[0])[1])),
{
}

/// A client header is forwarded exactly when the client sent it and it is
/// neither hop-by-hop, nor the host, nor the client's own credentials.
pub proof fn law_forwarded_headers(hs: Seq<SpecHeader>, h: SpecHeader)
    ensures
        forwarded_headers(hs).contains(h) <==> (hs.contains(h) && !dropped_header(h.0)),
    decreases hs.len(),
{
    if hs.len() > 0 {
        let init = hs.drop_last();
        law_forwarded_headers(init, h);
        assert(hs =~= init.push(hs.last()));
        if hs.contains(h) && !dropped_header(h.0) {
            let k = choose|k: int| 0 <= k < hs.len() && hs[k] == h;
            if k < hs.len() - 1 {
                assert(init[k] == h);
            }
        }
        if init.contains(h) {
            let k = choose|k: int| 0 <= k < init.len() && init[k] == h;
            assert(hs[k] == h);
        }
        let f = forwarded_headers(init);
        if !dropped_header(hs.last().0) {
            if f.push(hs.last()).contains(h) {
                let k = choose|k: int| 0 <= k < f.len() + 1 && f.push(hs.last())[k] == h;
                if k < f.len() {
                    assert(f[k] == h);
                }
            }
            if f.contains(h) {
                let k = choose|k: int| 0 <= k < f.len() && f[k] == h;
                assert(f.push(hs.last())[k] == h);
            }
            assert(f.push(hs.last())[f.len() as int] == hs.last());
        }
    }
}

/// The request sent upstream carries exactly one `Authorization` header: the
/// last one, with the proxy's own key; whatever credentials the client sent
/// are not passed on.
pub proof fn law_single_authorization(req: SpecRequest, upstream: Seq<char>, api_key: Seq<char>)
    ensures
        ({
            let hs = spec_upstream(req, upstream, api_key).headers;
            &&& hs.len() >= 1
            &&& hs.last() == auth_header(api_key)
            &&& forall|j: int| 0 <= j < hs.len() - 1 ==> !lowercases_to(#[trigger] hs[j].0, "authorization"@)
        }),
{
    let f = forwarded_headers(req.headers);
    let hs = f.push(auth_header(api_key));
    assert forall|j: int| 0 <= j < hs.len() - 1 implies !lowercases_to(#[trigger] hs[j].0, "authorization"@) by {
        assert(hs[j] == f[j]);
        assert(f.contains(f[j]));
        law_forwarded_headers(req.headers, f[j]);
    }
}

/// The upstream base without a trailing `/v1`.
pub open spec fn base_stem(base: Seq<char>) -> Seq<char> {
    if ends_with(base, "/v1"@) {
        base.subrange(0, base.len() - 3)
    } else {
        base
    }
}

/// For a served path, the upstream URL is the base (without trailing slashes
/// and without its own `/v1`) followed by the whole client path: `/v1` is
/// never doubled.
pub proof fn law_single_v1(upstream: Seq<char>, path: Seq<char>)
    requires
        served_path(path),
    ensures
        upstream_url(upstream, path) == base_stem(trim_end_char(upstream, '/')) + path,
{
    reveal_strlit("/v1");
    reveal_strlit("/v1/");
    let base = trim_end_char(upstream, '/');
    assert(starts_with(path, "/v1"@)) by {
        if path == "/v1"@ {
            assert(path.subrange(0, 3) =~= path);
        } else {
            assert(path.subrange(0, 3) =~= path.subrange(0, 4).subrange(0, 3));
            assert("/v1/"@.subrange(0, 3) =~= "/v1"@);
        }
    }
    if ends_with(base, "/v1"@) {
        assert(base =~= base.subrange(0, base.len() - 3) + "/v1"@);
        assert(path =~= "/v1"@ + path.subrange(3, path.len() as int));
        assert(base + path.subrange(3, path.len() as int) =~= base.subrange(0, base.len() - 3) + path);
    }
}


/// A byte that `HeaderValue::to_str` accepts: visible ASCII or a tab.
pub open spec fn visible_byte(b: u8) -> bool {
    (32 <= b && b < 127) || b == 9
}

/// `HeaderValue::to_str`: the value as text where every byte is visible ASCII
/// (or a tab), else nothing.
pub open spec fn header_text(v: Seq<u8>) -> Option<Seq<char>> {
    if forall|i: int| 0 <= i < v.len() ==> visible_byte(#[trigger] v[i]) {
        Some(v.map_values(|b: u8| b as char))
    } else {
        None
    }
}

/// The `name: value` lines of the upstream response headers relayed to the
/// client; a header whose value is not visible ASCII is left out.
pub open spec fn header_lines(hs: Seq<(Seq<char>, Seq<u8>)>) -> Seq<char>
    decreases hs.len(),
{
    if hs.len() == 0 {
        Seq::empty()
    } else {
        let init = header_lines(hs.drop_last());
        match header_text(hs.last().1) {
            Some(t) => init + hs.last().0 + ": "@ + t + "\r\n"@,
            None => init,
        }
    }
}

/// The head of the response relayed to the client: status line with the
/// reason phrase (`Unknown` where there is none), the headers, an empty line.
pub open spec fn spec_response_head(code: u16, reason: Option<Seq<char>>, hs: Seq<(Seq<char>, Seq<u8>)>) -> Seq<char> {
    let phrase = match reason {
        Some(r) => r,
        None => "Unknown"@,
    };
    "HTTP/1.1 "@ + decimal(code as nat) + " "@ + phrase + "\r\n"@ + header_lines(hs) + "\r\n"@
}

pub open spec fn response_header_views(hs: Seq<(String, Vec<u8>)>) -> Seq<(Seq<char>, Seq<u8>)> {
    hs.map_values(|h: (String, Vec<u8>)| (h.0@, h.1@))
}

/// The standard reason phrase of status `code`, where it has one: the table of
/// registered HTTP status codes that the `http` crate carries.
pub open spec fn canonical_reason(code: u16) -> Option<Seq<char>> {
    match code {
        100 => Some("Continue"@),
        101 => Some("Switching Protocols"@),
        102 => Some("Processing"@),
        103 => Some("Early Hints"@),
        200 => Some("OK"@),
        201 => Some("Created"@),
        202 => Some("Accepted"@),
        203 => Some("Non Authoritative Information"@),
        204 => Some("No Content"@),
        205 => Some("Reset Content"@),
        206 => Some("Partial Content"@),
        207 => Some("Multi-Status"@),
        208 => Some("Already Reported"@),
        226 => Some("IM Used"@),
        300 => Some("Multiple Choices"@),
        301 => Some("Moved Permanently"@),
        302 => Some("Found"@),
        303 => Some("See Other"@),
        304 => Some("Not Modified"@),
        305 => Some("Use Proxy"@),
        307 => Some("Temporary Redirect"@),
        308 => Some("Permanent Redirect"@),
        400 => Some("Bad Request"@),
        401 => Some("Unauthorized"@),
        402 => Some("Payment Required"@),
        403 => Some("Forbidden"@),
        404 => Some("Not Found"@),
        405 => Some("Method Not Allowed"@),
        406 => Some("Not Acceptable"@),
        407 => Some("Proxy Authentication Required"@),
        408 => Some("Request Timeout"@),
        409 => Some("Conflict"@),
        410 => Some("Gone"@),
        411 => Some("Length Required"@),
        412 => Some("Precondition Failed"@),
        413 => Some("Payload Too Large"@),
        414 => Some("URI Too Long"@),
        415 => Some("Unsupported Media Type"@),
        416 => Some("Range Not Satisfiable"@),
        417 => Some("Expectation Failed"@),
        418 => Some("I'm a teapot"@),
        421 => Some("Misdirected Request"@),
        422 => Some("Unprocessable Entity"@),
        423 => Some("Locked"@),
        424 => Some("Failed Dependency"@),
        425 => Some("Too Early"@),
        426 => Some("Upgrade Required"@),
        428 => Some("Precondition Required"@),
        429 => Some("Too Many Requests"@),
        431 => Some("Request Header Fields Too Large"@),
        451 => Some("Unavailable For Legal Reasons"@),
        500 => Some("Internal Server Error"@),
        501 => Some("Not Implemented"@),
        502 => Some("Bad Gateway"@),
        503 => Some("Service Unavailable"@),
        504 => Some("Gateway Timeout"@),
        505 => Some("HTTP Version Not Supported"@),
        506 => Some("Variant Also Negotiates"@),
        507 => Some("Insufficient Storage"@),
        508 => Some("Loop Detected"@),
        510 => Some("Not Extended"@),
        511 => Some("Network Authentication Required"@),
        _ => None,
    }
}

/// The status codes that carry a standard reason phrase, by range: the
/// informational 100-103, success 200-208 and 226, redirection 300-305 and
/// 307-308, client errors 400-418, 421-426, 428, 429, 431 and 451, and server
/// errors 500-508, 510 and 511. Every other code is relayed as `Unknown`.
pub proof fn law_registered_status_codes(code: u16)
    ensures
        canonical_reason(code) is Some <==> {
            ||| 100 <= code <= 103
            ||| 200 <= code <= 208
            ||| code == 226
            ||| 300 <= code <= 305
            ||| 307 <= code <= 308
            ||| 400 <= code <= 418
            ||| 421 <= code <= 426
            ||| code == 428 || code == 429 || code == 431 || code == 451
            ||| 500 <= code <= 508
            ||| code == 510 || code == 511
        },
{
}

/// `StatusCode::from_u16(code)` then `canonical_reason` (reqwest / http); no
/// phrase where the code is not a valid status.
#[verifier::external_body]
fn status_reason(code: u16) -> (r: Option<String>)
    ensures
        r matches Some(t) ==> canonical_reason(code) == Some(t@),
        r is None ==> canonical_reason(code) is None,
{
    match reqwest::StatusCode::from_u16(code) {
        Ok(status) => match status.canonical_reason() {
            Some(text) => Some(text.to_string()),
            None => None,
        },
        Err(_) => None,
    }
}

fn header_value_text(v: &Vec<u8>) -> (r: Option<Vec<char>>)
    ensures
        r matches Some(t) ==> header_text(v@) == Some(t@),
        r is None ==> header_text(v@) is None,
{
    let mut t: Vec<char> = Vec::new();
    let mut i: usize = 0;
    while i < v.len()
        invariant
            i <= v@.len(),
            forall|m: int| 0 <= m < i ==> visible_byte(#[trigger] v@[m]),
            t@ == v@.subrange(0, i as int).map_values(|b: u8| b as char),
        decreases v@.len() - i,
    {
        let b = v[i];
        if !((32 <= b && b < 127) || b == 9) {
            return None;
        }
        t.push(b as char);
        assert(v@.subrange(0, i + 1).map_values(|b: u8| b as char)
            =~= v@.subrange(0, i as int).map_values(|b: u8| b as char).push(b as char));
        i = i + 1;
    }
    assert(v@.subrange(0, v@.len() as int) =~= v@);
    Some(t)
}

/// The head of the response relayed to the client for an upstream response
/// with status `code`, reason phrase `reason` and headers `headers`.
pub fn response_head_with_reason(code: u16, reason: Option<String>, headers: &Vec<(String, Vec<u8>)>) -> (r: String)
    ensures
        r@ == spec_response_head(code, match reason {
            Some(t) => Some(t@),
            None => None,
        }, response_header_views(headers@)),
{
    let mut out = chars_of("HTTP/1.1 ");
    push_all(&mut out, &decimal_chars(code as u64));
    push_all(&mut out, &chars_of(" "));
    match &reason {
        Some(t) => push_all(&mut out, &chars_of(t.as_str())),
        None => push_all(&mut out, &chars_of("Unknown")),
    }
    let crlf = chars_of("\r\n");
    let sep = chars_of(": ");
    push_all(&mut out, &crlf);
    let ghost start = out@;
    let ghost all = response_header_views(headers@);
    let mut i: usize = 0;
    while i < headers.len()
        invariant
            i <= headers@.len(),
            all == response_header_views(headers@),
            crlf@ == "\r\n"@,
            sep@ == ": "@,
            out@ == start + header_lines(all.subrange(0, i as int)),
        decreases headers@.len() - i,
    {
        proof {
            assert(all.subrange(0, i + 1).drop_last() =~= all.subrange(0, i as int));
        }
        match header_value_text(&headers[i].1) {
            Some(t) => {
                let ghost before = out@;
                push_all(&mut out, &chars_of(headers[i].0.as_str()));
                push_all(&mut out, &sep);
                push_all(&mut out, &t);
                push_all(&mut out, &crlf);
                assert(out@ =~= start + (header_lines(all.subrange(0, i as int)) + all[i as int].0 + ": "@ + t@
                    + "\r\n"@));
            },
            None => {},
        }
        i = i + 1;
    }
    push_all(&mut out, &crlf);
    assert(all.subrange(0, headers@.len() as int) =~= all);
    string_from_chars(&out)
}

/// The head of the response relayed to the client for an upstream response
/// with status `code` and headers `headers`.
pub fn response_head(code: u16, headers: &Vec<(String, Vec<u8>)>) -> (r: String)
    ensures
        r@ == spec_response_head(code, canonical_reason(code), response_header_views(headers@)),
{
    let reason = status_reason(code);
    response_head_with_reason(code, reason, headers)
}


/// The API key reaches the upstream request only through its `Authorization`
/// header: for any two keys, everything else sent upstream is the same.
pub proof fn law_key_only_in_authorization(req: SpecRequest, upstream: Seq<char>, key1: Seq<char>, key2: Seq<char>)
    ensures
        ({
            let a = spec_upstream(req, upstream, key1);
            let b = spec_upstream(req, upstream, key2);
            &&& a.method == b.method
            &&& a.url == b.url
            &&& a.body == b.body
            &&& a.headers.drop_last() == b.headers.drop_last()
            &&& a.headers.last() == auth_header(key1)
            &&& b.headers.last() == auth_header(key2)
        }),
{
    let f = forwarded_headers(req.headers);
    assert(f.push(auth_header(key1)).drop_last() =~= f);
    assert(f.push(auth_header(key2)).drop_last() =~= f);
}

} // verus!
