//! HTTP virtual hosts: reading a request head, choosing the route and rewriting the request.

use vstd::prelude::*;
use vstd::slice::slice_subrange;
use vstd::slice::slice_to_vec;

use crate::base64;
use crate::name_map::NameMap;
use crate::text;

pub use crate::sni::extract_sni;

verus! {

/// How many headers a request may have.
pub const MAX_HEADERS: usize = 64;

/// How many bytes may come in before the end of the header is seen.
pub const MAX_HEADER_BYTES: usize = 8192;

// ---------- request heads ----------

/// The request head as `httparse` reports it.
#[derive(Debug)]
pub struct RequestHead {
    /// How many bytes the head takes.
    pub len: usize,
    pub method: Option<String>,
    pub path: Option<String>,
    /// The minor version: 1 for `HTTP/1.1`.
    pub version: Option<u8>,
    pub headers: Vec<(String, Vec<u8>)>,
}

/// What a [`RequestHead`] holds.
pub struct RequestHeadView {
    pub len: nat,
    pub method: Option<Seq<char>>,
    pub path: Option<Seq<char>>,
    pub version: Option<u8>,
    pub headers: Seq<(Seq<char>, Seq<u8>)>,
}

impl View for RequestHead {
    type V = RequestHeadView;

    open spec fn view(&self) -> RequestHeadView {
        RequestHeadView {
            len: self.len as nat,
            method: text::opt_text(self.method),
            path: text::opt_text(self.path),
            version: self.version,
            headers: self.headers@.map_values(|h: (String, Vec<u8>)| (h.0@, h.1@)),
        }
    }
}

/// What `httparse::Request::parse` makes of a buffer with room for so many headers: the text
/// of its error, a head that is not complete yet (`None`), or the head.
pub uninterp spec fn parsed_head(buf: Seq<u8>, max_headers: nat) -> Result<
    Option<RequestHeadView>,
    Seq<char>,
>;

/// `httparse::Request::parse`, with its answer copied into a [`RequestHead`] and its error as
/// text. The answer depends on the bytes and on the room for headers alone. The head lies
/// within the bytes.
#[verifier::external_body]
fn httparse_request(buf: &[u8], max_headers: usize) -> (r: Result<Option<RequestHead>, String>)
    ensures
        match r {
            Ok(Some(head)) => parsed_head(buf@, max_headers as nat) == Ok::<_, Seq<char>>(
                Some(head@),
            ) && head.len <= buf@.len(),
            Ok(None) => parsed_head(buf@, max_headers as nat) == Ok::<_, Seq<char>>(
                None::<RequestHeadView>,
            ),
            Err(e) => parsed_head(buf@, max_headers as nat) == Err::<
                Option<RequestHeadView>,
                _,
            >(e@),
        },
{
    let mut headers = vec![httparse::EMPTY_HEADER; max_headers];
    let mut req = httparse::Request::new(&mut headers);
    match req.parse(buf) {
        Err(e) => Err(e.to_string()),
        Ok(httparse::Status::Partial) => Ok(None),
        Ok(httparse::Status::Complete(len)) => Ok(Some(RequestHead {
            len,
            method: req.method.map(String::from),
            path: req.path.map(String::from),
            version: req.version,
            headers: req.headers.iter().map(|h| (h.name.to_string(), h.value.to_vec())).collect(),
        })),
    }
}

/// The head of an HTTP request.
#[derive(Debug, Clone)]
pub struct HttpRequestInfo {
    pub method: String,
    pub path: String,
    pub version: String,
    pub host: String,
    pub headers: Vec<(String, String)>,
    pub raw_bytes: Vec<u8>,
}

/// Why a request head could not be read.
#[derive(Debug)]
pub enum HttpParseError {
    /// The bytes are no HTTP request; what is wrong with them, in words.
    Malformed(String),
    /// The head does not end within the bytes.
    Incomplete,
}

impl HttpParseError {
    /// The message for the user.
    pub open spec fn text(self) -> Seq<char> {
        match self {
            HttpParseError::Malformed(_) => "Failed to parse HTTP request"@,
            HttpParseError::Incomplete => "Incomplete HTTP request"@,
        }
    }

    /// Renders the error for the user.
    pub fn message(&self) -> (r: String)
        ensures
            r@ == self.text(),
            self is Malformed ==> r@ == "Failed to parse HTTP request"@,
            self is Incomplete ==> r@ == "Incomplete HTTP request"@,
    {
        match self {
            HttpParseError::Malformed(_) => "Failed to parse HTTP request".to_string(),
            HttpParseError::Incomplete => "Incomplete HTTP request".to_string(),
        }
    }
}

/// The characters of name-value pairs.
pub open spec fn pairs(v: Seq<(String, String)>) -> Seq<(Seq<char>, Seq<char>)> {
    v.map_values(|h: (String, String)| (h.0@, h.1@))
}

/// The headers before the first one without a name, with their values as text.
pub open spec fn named_headers(headers: Seq<(Seq<char>, Seq<u8>)>) -> Seq<(Seq<char>, Seq<char>)>
    decreases headers.len(),
{
    if headers.len() == 0 || headers[0].0.len() == 0 {
        Seq::empty()
    } else {
        seq![(headers[0].0, text::utf8_lossy(headers[0].1))] + named_headers(headers.skip(1))
    }
}

/// The value of the last header with this name, in whatever case; empty if there is none.
pub open spec fn last_value(headers: Seq<(Seq<char>, Seq<char>)>, name: Seq<char>) -> Seq<char>
    decreases headers.len(),
{
    if headers.len() == 0 {
        Seq::empty()
    } else if text::eq_ignore_case(headers.last().0, name) {
        headers.last().1
    } else {
        last_value(headers.drop_last(), name)
    }
}

impl HttpRequestInfo {
    /// Whether this is the request that a head describes, where the head is the start of `buf`.
    pub open spec fn describes(&self, head: RequestHeadView, buf: Seq<u8>) -> bool {
        &&& self.method@ == (match head.method {
            Some(m) => m,
            None => "GET"@,
        })
        &&& self.path@ == (match head.path {
            Some(p) => p,
            None => "/"@,
        })
        &&& self.version@ == "HTTP/1."@ + text::decimal(
            match head.version {
                Some(v) => v as nat,
                None => 1,
            },
        )
        &&& pairs(self.headers@) == named_headers(head.headers)
        &&& self.host@ == last_value(pairs(self.headers@), "Host"@)
        &&& self.raw_bytes@ == buf.take(head.len as int)
    }
}

/// Makes the request out of what the parser reports. Without a method, a path or a version it
/// is a `GET` of `/` in `HTTP/1.1`.
pub fn request_info(head: RequestHead, buf: &[u8]) -> (r: HttpRequestInfo)
    requires
        head.len <= buf@.len(),
    ensures
        r.describes(head@, buf@),
{
    let method = match head.method {
        Some(m) => m,
        None => "GET".to_string(),
    };
    let path = match head.path {
        Some(p) => p,
        None => "/".to_string(),
    };
    let minor: u64 = match head.version {
        Some(v) => v as u64,
        None => 1,
    };
    let mut version = "HTTP/1.".to_string();
    text::push_decimal(&mut version, minor);

    let mut host = String::new();
    let mut headers: Vec<(String, String)> = Vec::new();
    let ghost all = head@.headers;
    let mut i: usize = 0;
    let n = head.headers.len();
    assert(pairs(headers@) + named_headers(all.skip(0)) == named_headers(all)) by {
        assert(all.skip(0) == all);
    }
    while i < n
        invariant_except_break
            i <= n,
            pairs(headers@) + named_headers(all.skip(i as int)) == named_headers(all),
        invariant
            n == head.headers@.len(),
            all == head.headers@.map_values(|h: (String, Vec<u8>)| (h.0@, h.1@)),
            host@ == last_value(pairs(headers@), "Host"@),
        ensures
            pairs(headers@) == named_headers(all),
        decreases n - i,
    {
        let ghost rest = all.skip(i as int);
        let name = head.headers[i].0.as_str();
        assert(rest[0] == all[i as int]);
        assert(all[i as int].0 == name@);
        if name.unicode_len() == 0 {
            assert(named_headers(rest) == Seq::<(Seq<char>, Seq<char>)>::empty());
            assert(pairs(headers@) == pairs(headers@) + named_headers(rest));
            break;
        }
        let value = text::string_from_utf8_lossy(head.headers[i].1.as_slice());
        let ghost before = pairs(headers@);
        if text::eq_ignore_ascii_case(name, "Host") {
            host = value.clone();
        }
        let ghost pair = (name@, value@);
        headers.push((name.to_string(), value));
        proof {
            assert(pairs(headers@) == before.push(pair));
            assert(pairs(headers@).drop_last() == before);
            assert(rest.skip(1) == all.skip(i + 1));
            assert(before + (seq![pair] + named_headers(rest.skip(1))) == pairs(headers@)
                + named_headers(all.skip(i + 1)));
        }
        i = i + 1;
        proof {
            if i == n {
                assert(all.skip(i as int) == Seq::<(Seq<char>, Seq<u8>)>::empty());
                assert(pairs(headers@) == pairs(headers@) + named_headers(all.skip(i as int)));
            }
        }
    }
    let raw_bytes = slice_to_vec(slice_subrange(buf, 0, head.len));
    assert(raw_bytes@ == buf@.take(head.len as int));
    HttpRequestInfo { method, path, version, host, headers, raw_bytes }
}

/// What reading the head of an HTTP request comes to.
pub open spec fn request_parsed(
    buf: Seq<u8>,
    r: Result<HttpRequestInfo, HttpParseError>,
) -> bool {
    match (parsed_head(buf, MAX_HEADERS as nat), r) {
        (Ok(Some(head)), Ok(info)) => info.describes(head, buf),
        (Ok(None), Err(HttpParseError::Incomplete)) => true,
        (Err(text), Err(HttpParseError::Malformed(e))) => e@ == text,
        _ => false,
    }
}

/// Reads the head of an HTTP request, as far as routing needs it.
pub fn parse_http_request(buf: &[u8]) -> (r: Result<HttpRequestInfo, HttpParseError>)
    ensures
        request_parsed(buf@, r),
{
    match httparse_request(buf, MAX_HEADERS) {
        Ok(Some(head)) => Ok(request_info(head, buf)),
        Ok(None) => Err(HttpParseError::Incomplete),
        Err(e) => Err(HttpParseError::Malformed(e)),
    }
}

/// The request is what the parser reports: the method, the path, the version and the bytes of
/// the head. Without a host it has an empty one.
pub proof fn request_is_as_reported(info: HttpRequestInfo, head: RequestHeadView, buf: Seq<u8>)
    requires
        info.describes(head, buf),
        head.len <= buf.len(),
    ensures
        head.method matches Some(m) ==> info.method@ == m,
        head.path matches Some(p) ==> info.path@ == p,
        head.version matches Some(v) ==> info.version@ == "HTTP/1."@ + text::decimal(v as nat),
        head.method is None ==> info.method@ == "GET"@,
        head.path is None ==> info.path@ == "/"@,
        head.version is None ==> info.version@ == "HTTP/1."@ + text::decimal(1),
        info.raw_bytes@.len() == head.len,
        info.raw_bytes@.is_prefix_of(buf),
        pairs(info.headers@) == named_headers(head.headers),
        (forall|i: int|
            0 <= i < info.headers@.len() ==> !text::eq_ignore_case(
                (#[trigger] info.headers@[i]).0@,
                "Host"@,
            )) ==> info.host@.len() == 0,
{
    if forall|i: int|
        0 <= i < info.headers@.len() ==> !text::eq_ignore_case(
            (#[trigger] info.headers@[i]).0@,
            "Host"@,
        ) {
        let all = pairs(info.headers@);
        assert forall|i: int| 0 <= i < all.len() implies !text::eq_ignore_case(
            (#[trigger] all[i]).0,
            "Host"@,
        ) by {
            assert(all[i].0 == info.headers@[i].0@);
        }
        lemma_no_value(all, "Host"@);
    }
}

proof fn lemma_no_value(headers: Seq<(Seq<char>, Seq<char>)>, name: Seq<char>)
    requires
        forall|i: int|
            0 <= i < headers.len() ==> !text::eq_ignore_case((#[trigger] headers[i]).0, name),
    ensures
        last_value(headers, name) == Seq::<char>::empty(),
    decreases headers.len(),
{
    if headers.len() > 0 {
        let init = headers.drop_last();
        assert forall|i: int| 0 <= i < init.len() implies !text::eq_ignore_case(
            (#[trigger] init[i]).0,
            name,
        ) by {
            assert(init[i] == headers[i]);
        }
        lemma_no_value(init, name);
    }
}

/// All headers up to the first one without a name are taken over, each with its value as
/// text.
pub proof fn headers_are_taken_over(headers: Seq<(Seq<char>, Seq<u8>)>, i: int)
    requires
        0 <= i < headers.len(),
        forall|j: int| 0 <= j <= i ==> (#[trigger] headers[j]).0.len() > 0,
    ensures
        i < named_headers(headers).len(),
        named_headers(headers)[i] == (headers[i].0, text::utf8_lossy(headers[i].1)),
        i + 1 == headers.len() || headers[i + 1].0.len() == 0 ==> named_headers(headers).len()
            == i + 1,
    decreases headers.len(),
{
    assert(headers[0].0.len() > 0);
    let rest = headers.skip(1);
    if i > 0 {
        assert forall|j: int| 0 <= j <= i - 1 implies (#[trigger] rest[j]).0.len() > 0 by {
            assert(rest[j] == headers[j + 1]);
        }
        headers_are_taken_over(rest, i - 1);
    } else {
        assert(rest.len() == 0 || rest[0].0.len() == 0 ==> named_headers(rest).len() == 0);
    }
}

/// Of several headers of one name the last one counts.
pub proof fn last_header_counts(
    before: Seq<(Seq<char>, Seq<char>)>,
    header: (Seq<char>, Seq<char>),
    behind: Seq<(Seq<char>, Seq<char>)>,
    name: Seq<char>,
)
    requires
        text::eq_ignore_case(header.0, name),
        forall|i: int|
            0 <= i < behind.len() ==> !text::eq_ignore_case((#[trigger] behind[i]).0, name),
    ensures
        last_value(before + seq![header] + behind, name) == header.1,
    decreases behind.len(),
{
    let all = before + seq![header] + behind;
    if behind.len() == 0 {
        assert(all.last() == header);
    } else {
        let init = behind.drop_last();
        assert(all.last() == behind[behind.len() - 1]);
        assert(all.drop_last() == before + seq![header] + init);
        assert forall|i: int| 0 <= i < init.len() implies !text::eq_ignore_case(
            (#[trigger] init[i]).0,
            name,
        ) by {
            assert(init[i] == behind[i]);
        }
        last_header_counts(before, header, init, name);
    }
}

// ---------- reading the header from a connection ----------

/// Why no complete header came in.
#[derive(Debug)]
pub enum HeaderError {
    /// The connection was closed before the end of the header.
    Closed,
    /// More than [`MAX_HEADER_BYTES`] came in without the end of the header.
    TooLarge,
}

impl HeaderError {
    /// The message for the user.
    pub open spec fn text(self) -> Seq<char> {
        match self {
            HeaderError::Closed => "Connection closed before HTTP header complete"@,
            HeaderError::TooLarge => "HTTP header too large (>8KB)"@,
        }
    }

    /// Renders the error for the user.
    pub fn message(&self) -> (r: String)
        ensures
            r@ == self.text(),
            self is Closed ==> r@ == "Connection closed before HTTP header complete"@,
            self is TooLarge ==> r@ == "HTTP header too large (>8KB)"@,
    {
        match self {
            HeaderError::Closed => "Connection closed before HTTP header complete".to_string(),
            HeaderError::TooLarge => "HTTP header too large (>8KB)".to_string(),
        }
    }
}

/// The end of a header: an empty line.
pub open spec fn header_end() -> Seq<u8> {
    seq![13u8, 10u8, 13u8, 10u8]
}

/// Whether the bytes hold the end of a header.
fn has_header_end(buf: &Vec<u8>) -> (r: bool)
    ensures
        r == text::occurs(buf@, header_end()),
{
    let n = buf.len();
    let mut i: usize = 0;
    while n >= 4 && i <= n - 4
        invariant
            n == buf@.len(),
            i <= n,
            forall|j: int| 0 <= j < i ==> !#[trigger] text::occurs_at(buf@, header_end(), j),
        decreases n - i,
    {
        if buf[i] == 13 && buf[i + 1] == 10 && buf[i + 2] == 13 && buf[i + 3] == 10 {
            assert(buf@.subrange(i as int, i + 4) == header_end());
            assert(text::occurs_at(buf@, header_end(), i as int));
            return true;
        }
        proof {
            if text::occurs_at(buf@, header_end(), i as int) {
                let w = buf@.subrange(i as int, i + 4);
                assert(w == header_end());
                assert(w[0] == buf@[i as int] && w[1] == buf@[i + 1] && w[2] == buf@[i + 2] && w[3]
                    == buf@[i + 3]);
            }
        }
        i = i + 1;
    }
    assert forall|j: int| !#[trigger] text::occurs_at(buf@, header_end(), j) by {}
    false
}

/// Takes in what one read gave. An empty read means that the connection was closed. The
/// answer says whether the header is complete.
pub fn header_received(buf: &mut Vec<u8>, chunk: &[u8]) -> (r: Result<bool, HeaderError>)
    ensures
        final(buf)@ == old(buf)@ + chunk@,
        match r {
            Ok(done) => chunk@.len() > 0 && done == text::occurs(final(buf)@, header_end()) && (
            done || final(buf)@.len() <= MAX_HEADER_BYTES),
            Err(HeaderError::Closed) => chunk@.len() == 0,
            Err(HeaderError::TooLarge) => chunk@.len() > 0 && !text::occurs(
                final(buf)@,
                header_end(),
            ) && final(buf)@.len() > MAX_HEADER_BYTES,
        },
        r is Ok && r.unwrap() <==> chunk@.len() > 0 && exists|i: int|
            0 <= i && i + 4 <= final(buf)@.len() && #[trigger] final(buf)@.subrange(i, i + 4)
                == seq![13u8, 10, 13, 10],
        r matches Err(e) && e is TooLarge ==> final(buf)@.len() > 8192,
        r == Ok::<bool, HeaderError>(false) ==> final(buf)@.len() <= 8192,
{
    buf.extend_from_slice(chunk);
    assert(buf@ == old(buf)@ + chunk@);
    if chunk.len() == 0 {
        return Err(HeaderError::Closed);
    }
    let done = has_header_end(buf);
    proof {
        let end = seq![13u8, 10, 13, 10];
        assert(header_end() == end);
        if done {
            let i = choose|i: int| text::occurs_at(buf@, end, i);
            assert(buf@.subrange(i, i + 4) == end);
        } else {
            assert forall|i: int| 0 <= i && i + 4 <= buf@.len() implies #[trigger] buf@.subrange(
                i,
                i + 4,
            ) != end by {
                assert(!text::occurs_at(buf@, end, i));
            }
        }
    }
    if done {
        return Ok(true);
    }
    if buf.len() > MAX_HEADER_BYTES {
        return Err(HeaderError::TooLarge);
    }
    Ok(false)
}

// ---------- routes ----------

/// Where a service is found by HTTP virtual host.
#[derive(Debug, Clone)]
pub struct HttpRoute {
    pub service_name: String,
    pub custom_domains: Vec<String>,
    pub subdomain: Option<String>,
    pub locations: Vec<String>,
    pub host_header_rewrite: Option<String>,
    pub http_user: Option<String>,
    pub http_password: Option<String>,
    pub request_headers: NameMap<String>,
    pub response_headers: NameMap<String>,
    pub route_by_http_user: Option<String>,
}

impl HttpRoute {
    /// Whether one of the custom domains is this host.
    pub open spec fn has_domain(&self, host: Seq<char>) -> bool {
        exists|i: int|
            0 <= i < self.custom_domains@.len() && text::eq_ignore_case(
                (#[trigger] self.custom_domains@[i])@,
                host,
            )
    }

    /// Whether this host is the subdomain of the route.
    pub open spec fn has_subdomain(&self, subdomain_host: Option<Seq<char>>, host: Seq<char>) -> bool {
        self.subdomain is Some && subdomain_host is Some && text::eq_ignore_case(
            self.subdomain.unwrap()@ + "."@ + subdomain_host.unwrap(),
            host,
        )
    }

    /// Whether the route is for this host.
    pub open spec fn serves(&self, subdomain_host: Option<Seq<char>>, host: Seq<char>) -> bool {
        self.has_domain(host) || self.has_subdomain(subdomain_host, host)
    }

    /// The length of the longest location that the path starts with; zero if there is none.
    pub open spec fn location_len(&self, path: Seq<char>) -> nat {
        longest_prefix(self.locations@, path)
    }
}

/// The length of the longest of these texts that `path` starts with; zero if there is none.
pub open spec fn longest_prefix(locations: Seq<String>, path: Seq<char>) -> nat
    decreases locations.len(),
{
    if locations.len() == 0 {
        0
    } else {
        let rest = longest_prefix(locations.drop_last(), path);
        let last = locations.last()@;
        if last.is_prefix_of(path) && last.len() > rest {
            last.len()
        } else {
            rest
        }
    }
}

/// Whether route `i` answers a request: it is for the host, and either it has the longest
/// location of all routes for the host and is the first with it, or no route for the host has
/// a location that matches and it is the last of those without locations.
pub open spec fn is_match(
    routes: Seq<HttpRoute>,
    subdomain_host: Option<Seq<char>>,
    host: Seq<char>,
    path: Seq<char>,
    i: int,
) -> bool {
    &&& 0 <= i < routes.len()
    &&& routes[i].serves(subdomain_host, host)
    &&& if routes[i].location_len(path) > 0 {
        forall|j: int|
            0 <= j < routes.len() && (#[trigger] routes[j]).serves(subdomain_host, host)
                ==> routes[j].location_len(path) <= routes[i].location_len(path) && (j < i
                ==> routes[j].location_len(path) < routes[i].location_len(path))
    } else {
        &&& routes[i].locations@.len() == 0
        &&& forall|j: int|
            0 <= j < routes.len() && (#[trigger] routes[j]).serves(subdomain_host, host)
                ==> routes[j].location_len(path) == 0 && (j > i ==> routes[j].locations@.len() > 0)
    }
}

/// Whether a route can answer a request at all.
pub open spec fn is_candidate(
    route: HttpRoute,
    subdomain_host: Option<Seq<char>>,
    host: Seq<char>,
    path: Seq<char>,
) -> bool {
    route.serves(subdomain_host, host) && (route.locations@.len() == 0 || route.location_len(path)
        > 0)
}

/// At most one route answers a request.
pub proof fn match_is_unique(
    routes: Seq<HttpRoute>,
    subdomain_host: Option<Seq<char>>,
    host: Seq<char>,
    path: Seq<char>,
    i: int,
    j: int,
)
    requires
        is_match(routes, subdomain_host, host, path, i),
        is_match(routes, subdomain_host, host, path, j),
    ensures
        i == j,
{
    assert(routes[i].serves(subdomain_host, host));
    assert(routes[j].serves(subdomain_host, host));
}

/// The case of ASCII letters in a host does not matter.
pub proof fn host_case_does_not_matter(
    route: HttpRoute,
    subdomain_host: Option<Seq<char>>,
    host: Seq<char>,
    other: Seq<char>,
)
    requires
        text::eq_ignore_case(host, other),
    ensures
        route.serves(subdomain_host, host) == route.serves(subdomain_host, other),
{
    assert forall|d: Seq<char>| #[trigger]
        text::eq_ignore_case(d, host) == text::eq_ignore_case(d, other) by {
        text::lemma_eq_ignore_case_equivalence(d, host, other);
        text::lemma_eq_ignore_case_equivalence(d, other, host);
        text::lemma_eq_ignore_case_equivalence(host, other, host);
    }
    if route.has_domain(host) {
        let i = choose|i: int|
            0 <= i < route.custom_domains@.len() && text::eq_ignore_case(
                (#[trigger] route.custom_domains@[i])@,
                host,
            );
        assert(text::eq_ignore_case(route.custom_domains@[i]@, other));
    }
    if route.has_domain(other) {
        let i = choose|i: int|
            0 <= i < route.custom_domains@.len() && text::eq_ignore_case(
                (#[trigger] route.custom_domains@[i])@,
                other,
            );
        assert(text::eq_ignore_case(route.custom_domains@[i]@, host));
    }
}

/// The routes but those of one service.
pub open spec fn routes_without(routes: Seq<HttpRoute>, service: Seq<char>) -> Seq<HttpRoute>
    decreases routes.len(),
{
    if routes.len() == 0 {
        routes
    } else if routes.last().service_name@ == service {
        routes_without(routes.drop_last(), service)
    } else {
        routes_without(routes.drop_last(), service).push(routes.last())
    }
}

/// No route of a removed service is left, so that none of its routes can answer a request.
pub proof fn removed_service_has_no_route(routes: Seq<HttpRoute>, service: Seq<char>)
    ensures
        forall|i: int|
            0 <= i < routes_without(routes, service).len() ==> (#[trigger] routes_without(
                routes,
                service,
            )[i]).service_name@ != service,
    decreases routes.len(),
{
    if routes.len() > 0 {
        removed_service_has_no_route(routes.drop_last(), service);
        let rest = routes_without(routes.drop_last(), service);
        let after = routes_without(routes, service);
        assert forall|i: int| 0 <= i < after.len() implies (#[trigger] after[i]).service_name@
            != service by {
            if i < rest.len() {
                assert(after[i] == rest[i]);
            }
        }
    }
}

/// Adding a route and removing its service again gives the routes back, where the service had
/// no route before.
pub proof fn remove_undoes_add(routes: Seq<HttpRoute>, route: HttpRoute)
    requires
        forall|i: int|
            0 <= i < routes.len() ==> (#[trigger] routes[i]).service_name@ != route.service_name@,
    ensures
        routes_without(routes.push(route), route.service_name@) == routes,
{
    let more = routes.push(route);
    assert(more.drop_last() == routes);
    assert(more.last() == route);
    lemma_nothing_removed(routes, route.service_name@);
}

proof fn lemma_nothing_removed(routes: Seq<HttpRoute>, service: Seq<char>)
    requires
        forall|i: int| 0 <= i < routes.len() ==> (#[trigger] routes[i]).service_name@ != service,
    ensures
        routes_without(routes, service) == routes,
    decreases routes.len(),
{
    if routes.len() > 0 {
        let init = routes.drop_last();
        assert forall|i: int| 0 <= i < init.len() implies (#[trigger] init[i]).service_name@
            != service by {
            assert(init[i] == routes[i]);
        }
        lemma_nothing_removed(init, service);
        assert(init.push(routes.last()) == routes);
    }
}

proof fn lemma_routes_filtered(routes: Seq<HttpRoute>, service: Seq<char>)
    ensures
        routes_without(routes, service) == routes.filter(
            |r: HttpRoute| r.service_name@ != service,
        ),
    decreases routes.len(),
{
    reveal(Seq::filter);
    if routes.len() > 0 {
        lemma_routes_filtered(routes.drop_last(), service);
    }
}

/// Where a route that is kept stands after a removal: behind those that are kept before it.
proof fn lemma_kept_at(routes: Seq<HttpRoute>, service: Seq<char>, i: int) -> (k: int)
    requires
        0 <= i < routes.len(),
        routes[i].service_name@ != service,
    ensures
        k == routes_without(routes.take(i), service).len(),
        0 <= k < routes_without(routes, service).len(),
        routes_without(routes, service)[k] == routes[i],
    decreases routes.len(),
{
    let init = routes.drop_last();
    if i == routes.len() - 1 {
        assert(routes.take(i) == init);
        routes_without(init, service).len() as int
    } else {
        assert(init.take(i) == routes.take(i));
        lemma_kept_at(init, service, i)
    }
}

/// Which route a kept one was.
proof fn lemma_kept_from(routes: Seq<HttpRoute>, service: Seq<char>, k: int) -> (i: int)
    requires
        0 <= k < routes_without(routes, service).len(),
    ensures
        0 <= i < routes.len(),
        routes[i].service_name@ != service,
        k == routes_without(routes.take(i), service).len(),
        routes_without(routes, service)[k] == routes[i],
    decreases routes.len(),
{
    let init = routes.drop_last();
    let rest = routes_without(init, service);
    if k < rest.len() {
        let i = lemma_kept_from(init, service, k);
        assert(init.take(i) == routes.take(i));
        i
    } else {
        assert(routes.take(routes.len() - 1) == init);
        routes.len() - 1
    }
}

proof fn lemma_kept_grows(routes: Seq<HttpRoute>, service: Seq<char>, i: int, j: int)
    requires
        0 <= i <= j <= routes.len(),
    ensures
        routes_without(routes.take(i), service).len() <= routes_without(
            routes.take(j),
            service,
        ).len(),
    decreases j - i,
{
    if i < j {
        lemma_kept_grows(routes, service, i, j - 1);
        assert(routes.take(j).drop_last() == routes.take(j - 1));
    }
}

/// Removing a service keeps every route of every other service, in its order: what is left are
/// the routes with another service name, and removing from two lists one after the other is
/// removing from the whole.
pub proof fn removal_keeps_other_routes(
    routes: Seq<HttpRoute>,
    more: Seq<HttpRoute>,
    service: Seq<char>,
)
    ensures
        routes_without(routes, service) == routes.filter(
            |r: HttpRoute| r.service_name@ != service,
        ),
        forall|i: int|
            0 <= i < routes.len() && (#[trigger] routes[i]).service_name@ != service
                ==> routes_without(routes, service).contains(routes[i]),
        routes_without(routes + more, service) == routes_without(routes, service) + routes_without(
            more,
            service,
        ),
{
    lemma_routes_filtered(routes, service);
    lemma_routes_filtered(more, service);
    lemma_routes_filtered(routes + more, service);
    Seq::filter_distributes_over_add(
        routes,
        more,
        |r: HttpRoute| r.service_name@ != service,
    );
    assert forall|i: int|
        0 <= i < routes.len() && (#[trigger] routes[i]).service_name@
            != service implies routes_without(routes, service).contains(routes[i]) by {
        let k = lemma_kept_at(routes, service, i);
        assert(routes_without(routes, service)[k] == routes[i]);
    }
}

/// A request that the route of another service answered is answered by it after a removal as
/// well.
pub proof fn removal_keeps_other_answers(
    routes: Seq<HttpRoute>,
    service: Seq<char>,
    subdomain_host: Option<Seq<char>>,
    host: Seq<char>,
    path: Seq<char>,
    i: int,
)
    requires
        is_match(routes, subdomain_host, host, path, i),
        routes[i].service_name@ != service,
    ensures
        exists|k: int|
            #[trigger] is_match(routes_without(routes, service), subdomain_host, host, path, k)
                && routes_without(routes, service)[k] == routes[i],
{
    let after = routes_without(routes, service);
    let k = lemma_kept_at(routes, service, i);
    assert forall|m: int|
        0 <= m < after.len() && (#[trigger] after[m]).serves(subdomain_host, host) implies ({
        let ml = after[m].location_len(path);
        let kl = after[k].location_len(path);
        if kl > 0 {
            ml <= kl && (m < k ==> ml < kl)
        } else {
            ml == 0 && (m > k ==> after[m].locations@.len() > 0)
        }
    }) by {
        let j = lemma_kept_from(routes, service, m);
        assert(routes[j].serves(subdomain_host, host));
        if j < i {
            lemma_kept_grows(routes, service, j, i);
        } else {
            lemma_kept_grows(routes, service, i, j);
        }
    }
    assert(is_match(after, subdomain_host, host, path, k));
}

/// A route is for the hosts that are one of its domains, and for its subdomain where the
/// server has a domain for those. The case of ASCII letters does not count.
pub proof fn routes_serve_their_hosts(
    route: HttpRoute,
    subdomain_host: Option<Seq<char>>,
    host: Seq<char>,
)
    ensures
        route.serves(subdomain_host, host) <==> {
            ||| exists|i: int|
                0 <= i < route.custom_domains@.len() && text::eq_ignore_case(
                    (#[trigger] route.custom_domains@[i])@,
                    host,
                )
            ||| (match (route.subdomain, subdomain_host) {
                (Some(sub), Some(domain)) => text::eq_ignore_case(
                    sub@ + seq!['.'] + domain,
                    host,
                ),
                _ => false,
            })
        },
{
    reveal_strlit(".");
    assert("."@ == seq!['.']);
}

/// The longest location counts: it is a location of the route that the path starts with, and
/// no other such location is longer.
pub proof fn longest_location_counts(locations: Seq<String>, path: Seq<char>)
    ensures
        forall|i: int|
            0 <= i < locations.len() && (#[trigger] locations[i])@.is_prefix_of(path)
                ==> locations[i]@.len() <= longest_prefix(locations, path),
        longest_prefix(locations, path) > 0 ==> exists|i: int|
            0 <= i < locations.len() && (#[trigger] locations[i])@.is_prefix_of(path)
                && locations[i]@.len() == longest_prefix(locations, path),
    decreases locations.len(),
{
    if locations.len() > 0 {
        let init = locations.drop_last();
        longest_location_counts(init, path);
        assert forall|i: int|
            0 <= i < locations.len() && (#[trigger] locations[i])@.is_prefix_of(
                path,
            ) implies locations[i]@.len() <= longest_prefix(locations, path) by {
            if i < init.len() {
                assert(init[i] == locations[i]);
            }
        }
        if longest_prefix(locations, path) > 0 {
            if longest_prefix(locations, path) > longest_prefix(init, path) {
                assert(locations[locations.len() - 1]@.is_prefix_of(path));
            } else {
                let i = choose|i: int|
                    0 <= i < init.len() && (#[trigger] init[i])@.is_prefix_of(path)
                        && init[i]@.len() == longest_prefix(init, path);
                assert(locations[i] == init[i]);
            }
        }
    }
}

/// The route that answers is for the host. If the path starts with a location of any route for
/// the host, then the one that answers has a location as long that the path starts with, and
/// no route before it has one; else it has no locations at all, and no later one without
/// locations is for the host.
pub proof fn best_route_answers(
    routes: Seq<HttpRoute>,
    subdomain_host: Option<Seq<char>>,
    host: Seq<char>,
    path: Seq<char>,
    i: int,
    j: int,
    l: int,
)
    requires
        is_match(routes, subdomain_host, host, path, i),
        0 <= j < routes.len(),
        routes[j].serves(subdomain_host, host),
    ensures
        0 <= i < routes.len(),
        routes[i].serves(subdomain_host, host),
        0 <= l < routes[j].locations@.len() && routes[j].locations@[l]@.len() > 0
            && routes[j].locations@[l]@.is_prefix_of(path) ==> exists|m: int|
            0 <= m < routes[i].locations@.len() && (#[trigger] routes[i].locations@[m])@.is_prefix_of(
                path,
            ) && (if j < i {
                routes[i].locations@[m]@.len() > routes[j].locations@[l]@.len()
            } else {
                routes[i].locations@[m]@.len() >= routes[j].locations@[l]@.len()
            }),
        routes[j].locations@.len() == 0 && routes[i].locations@.len() == 0 ==> j <= i,
        routes[i].locations@.len() > 0 ==> exists|m: int|
            0 <= m < routes[i].locations@.len() && (#[trigger] routes[i].locations@[m])@.len() > 0
                && routes[i].locations@[m]@.is_prefix_of(path),
{
    longest_location_counts(routes[i].locations@, path);
    longest_location_counts(routes[j].locations@, path);
}

/// A request is answered where a route is for its host and has no locations, or one that the
/// path starts with.
pub proof fn some_route_answers(
    routes: Seq<HttpRoute>,
    subdomain_host: Option<Seq<char>>,
    host: Seq<char>,
    path: Seq<char>,
    j: int,
    l: int,
)
    requires
        0 <= j < routes.len(),
        routes[j].serves(subdomain_host, host),
        routes[j].locations@.len() == 0 || (0 <= l < routes[j].locations@.len()
            && routes[j].locations@[l]@.len() > 0 && routes[j].locations@[l]@.is_prefix_of(path)),
    ensures
        is_candidate(routes[j], subdomain_host, host, path),
        exists|i: int| #[trigger] is_match(routes, subdomain_host, host, path, i),
    decreases routes.len(),
{
    longest_location_counts(routes[j].locations@, path);
    let n = lemma_best_exists(routes, subdomain_host, host, path, j);
    assert(is_match(routes, subdomain_host, host, path, n));
}

/// The best of the routes, where there is one that can answer.
proof fn lemma_best_exists(
    routes: Seq<HttpRoute>,
    suffix: Option<Seq<char>>,
    host: Seq<char>,
    path: Seq<char>,
    j: int,
) -> (i: int)
    requires
        0 <= j < routes.len(),
        is_candidate(routes[j], suffix, host, path),
    ensures
        is_match(routes, suffix, host, path, i),
    decreases routes.len(),
{
    let init = routes.drop_last();
    let last = routes.len() - 1;
    if exists|m: int| 0 <= m < init.len() && is_candidate(#[trigger] init[m], suffix, host, path) {
        let m = choose|m: int|
            0 <= m < init.len() && is_candidate(#[trigger] init[m], suffix, host, path);
        let b = lemma_best_exists(init, suffix, host, path, m);
        let bl = init[b].location_len(path);
        assert(routes[b] == init[b]);
        let i = if routes[last].serves(suffix, host) && (routes[last].location_len(path) > bl || (
        routes[last].locations@.len() == 0 && bl == 0)) {
            last
        } else {
            b
        };
        assert forall|x: int|
            0 <= x < routes.len() && (#[trigger] routes[x]).serves(suffix, host) implies ({
            let xl = routes[x].location_len(path);
            let il = routes[i].location_len(path);
            if il > 0 {
                xl <= il && (x < i ==> xl < il)
            } else {
                xl == 0 && (x > i ==> routes[x].locations@.len() > 0)
            }
        }) by {
            assert(init[b].serves(suffix, host));
            if x < last {
                assert(init[x] == routes[x]);
            }
        }
        i
    } else {
        assert forall|x: int|
            0 <= x < last && (#[trigger] routes[x]).serves(suffix, host) implies routes[x].location_len(
            path,
        ) == 0 && routes[x].locations@.len() > 0 by {
            assert(init[x] == routes[x]);
            assert(!is_candidate(init[x], suffix, host, path));
        }
        if j < last {
            assert(init[j] == routes[j]);
        }
        last
    }
}

/// The routes of the services that share the HTTP port.
#[derive(Debug)]
pub struct VhostRouter {
    routes: Vec<HttpRoute>,
    subdomain_host: Option<String>,
}

/// Whether one of the domains is this host.
fn any_domain(domains: &Vec<String>, host: &str) -> (r: bool)
    ensures
        r == exists|i: int|
            0 <= i < domains@.len() && text::eq_ignore_case((#[trigger] domains@[i])@, host@),
{
    let mut i: usize = 0;
    while i < domains.len()
        invariant
            i <= domains@.len(),
            forall|j: int|
                0 <= j < i ==> !text::eq_ignore_case((#[trigger] domains@[j])@, host@),
        decreases domains@.len() - i,
    {
        if text::eq_ignore_ascii_case(domains[i].as_str(), host) {
            return true;
        }
        i = i + 1;
    }
    false
}

/// Computes [`longest_prefix`].
fn longest_location(locations: &Vec<String>, path: &str) -> (r: usize)
    ensures
        r == longest_prefix(locations@, path@),
{
    let mut best: usize = 0;
    let mut i: usize = 0;
    while i < locations.len()
        invariant
            i <= locations@.len(),
            best == longest_prefix(locations@.take(i as int), path@),
        decreases locations@.len() - i,
    {
        proof {
            assert(locations@.take(i + 1).drop_last() == locations@.take(i as int));
            assert(locations@.take(i + 1).last() == locations@[i as int]);
        }
        let loc = locations[i].as_str();
        let n = loc.unicode_len();
        if n > best && text::starts_with(path, loc) {
            best = n;
        }
        i = i + 1;
    }
    assert(locations@.take(i as int) == locations@);
    best
}

impl VhostRouter {
    /// The routes in the order in which they were added.
    pub closed spec fn routes(&self) -> Seq<HttpRoute> {
        self.routes@
    }

    /// The domain under which subdomains lie.
    pub closed spec fn subdomain_host(&self) -> Option<Seq<char>> {
        text::opt_text(self.subdomain_host)
    }

    /// Makes a router without routes.
    pub fn new(subdomain_host: Option<String>) -> (r: Self)
        ensures
            r.routes() == Seq::<HttpRoute>::empty(),
            r.subdomain_host() == text::opt_text(subdomain_host),
    {
        VhostRouter { routes: Vec::new(), subdomain_host }
    }

    /// Adds a route behind the others.
    pub fn add_route(&mut self, route: HttpRoute)
        ensures
            final(self).routes() == old(self).routes().push(route),
            final(self).subdomain_host() == old(self).subdomain_host(),
    {
        self.routes.push(route);
    }

    /// Removes the routes of a service.
    pub fn remove_route(&mut self, service_name: &str)
        ensures
            final(self).routes() == routes_without(old(self).routes(), service_name@),
            final(self).subdomain_host() == old(self).subdomain_host(),
    {
        let ghost before = self.routes@;
        let mut kept: Vec<HttpRoute> = Vec::new();
        let mut rest: Vec<HttpRoute> = Vec::new();
        std::mem::swap(&mut rest, &mut self.routes);
        for route in it: rest
            invariant
                it.seq() == before,
                kept@ == routes_without(before.take(it.index()), service_name@),
        {
            proof {
                let t = before.take(it.index() + 1);
                assert(t.drop_last() == before.take(it.index()));
                assert(t.last() == route);
            }
            if !text::str_eq(route.service_name.as_str(), service_name) {
                kept.push(route);
            }
        }
        assert(before.take(before.len() as int) == before);
        self.routes = kept;
    }

    /// Whether a route is for a host.
    fn route_serves(&self, route: &HttpRoute, host: &str) -> (r: bool)
        ensures
            r == route.serves(self.subdomain_host(), host@),
    {
        if any_domain(&route.custom_domains, host) {
            return true;
        }
        match (&route.subdomain, &self.subdomain_host) {
            (Some(sub), Some(suffix)) => {
                let mut expected = sub.clone();
                expected.append(".");
                expected.append(suffix.as_str());
                text::eq_ignore_ascii_case(expected.as_str(), host)
            },
            _ => false,
        }
    }

    /// Finds the route that answers a request for a host and a path. The host may have a port
    /// behind it.
    pub fn match_route(&self, host: &str, path: &str) -> (r: Option<&HttpRoute>)
        ensures
            match r {
                Some(route) => exists|i: int|
                    #[trigger] is_match(
                        self.routes(),
                        self.subdomain_host(),
                        text::before_first(host@, ':'),
                        path@,
                        i,
                    ) && *route == self.routes()[i],
                None => forall|i: int|
                    0 <= i < self.routes().len() ==> !is_candidate(
                        #[trigger] self.routes()[i],
                        self.subdomain_host(),
                        text::before_first(host@, ':'),
                        path@,
                    ),
            },
    {
        let name = text::split_first(host, ':');
        let ghost routes = self.routes@;
        let ghost suffix = self.subdomain_host();
        let ghost h = name@;
        let ghost p = path@;
        let mut best: Option<usize> = None;
        let mut best_len: usize = 0;
        let mut i: usize = 0;
        while i < self.routes.len()
            invariant
                i <= self.routes@.len(),
                routes == self.routes@,
                suffix == self.subdomain_host(),
                h == name@,
                p == path@,
                match best {
                    Some(b) => b < i && is_match(routes.take(i as int), suffix, h, p, b as int)
                        && best_len == routes[b as int].location_len(p),
                    None => best_len == 0 && forall|j: int|
                        0 <= j < i ==> !is_candidate(#[trigger] routes[j], suffix, h, p),
                },
            decreases self.routes@.len() - i,
        {
            let ghost part = routes.take(i as int);
            let ghost next = routes.take(i + 1);
            let ghost old_best = best;
            let route = &self.routes[i];
            assert(next[i as int] == *route);
            assert forall|j: int| 0 <= j < i implies #[trigger] next[j] == part[j] && part[j]
                == routes[j] by {}
            if self.route_serves(route, name) {
                if route.locations.len() == 0 {
                    assert(route.location_len(p) == 0);
                    if best_len == 0 {
                        best = Some(i);
                    }
                } else {
                    let n = longest_location(&route.locations, path);
                    if n > best_len {
                        best = Some(i);
                        best_len = n;
                    }
                }
            }
            proof {
                lemma_match_step(routes, suffix, h, p, i as int, old_best, best);
            }
            i = i + 1;
        }
        assert(routes.take(i as int) == routes);
        match best {
            Some(b) => {
                assert(is_match(self.routes(), suffix, h, p, b as int));
                Some(&self.routes[b])
            },
            None => None,
        }
    }
}

/// One step of the search for a route.
proof fn lemma_match_step(
    routes: Seq<HttpRoute>,
    suffix: Option<Seq<char>>,
    h: Seq<char>,
    p: Seq<char>,
    i: int,
    before: Option<usize>,
    after: Option<usize>,
)
    requires
        0 <= i < routes.len(),
        match before {
            Some(b) => b < i && is_match(routes.take(i), suffix, h, p, b as int),
            None => forall|j: int|
                0 <= j < i ==> !is_candidate(#[trigger] routes[j], suffix, h, p),
        },
        ({
            let best_len = match before {
                Some(b) => routes[b as int].location_len(p),
                None => 0,
            };
            after == if routes[i].serves(suffix, h) && (routes[i].location_len(p) > best_len || (
            routes[i].locations@.len() == 0 && best_len == 0)) {
                Some(i as usize)
            } else {
                before
            }
        }),
        i <= usize::MAX,
    ensures
        match after {
            Some(b) => b < i + 1 && is_match(routes.take(i + 1), suffix, h, p, b as int),
            None => forall|j: int|
                0 <= j < i + 1 ==> !is_candidate(#[trigger] routes[j], suffix, h, p),
        },
{
    let part = routes.take(i);
    let next = routes.take(i + 1);
    assert forall|j: int| 0 <= j < i implies #[trigger] next[j] == part[j] by {}
    match after {
        Some(b) => {
            assert forall|j: int|
                0 <= j < next.len() && (#[trigger] next[j]).serves(suffix, h) && b < next.len() implies ({
                let jl = next[j].location_len(p);
                let bl = next[b as int].location_len(p);
                if bl > 0 {
                    jl <= bl && (j < b ==> jl < bl)
                } else {
                    jl == 0 && (j > b ==> next[j].locations@.len() > 0)
                }
            }) by {
                if j < i {
                    assert(part[j] == next[j]);
                    assert(part[j] == routes[j]);
                    match before {
                        Some(a) => {
                            assert(part[j].serves(suffix, h));
                            assert(part[a as int] == next[a as int]);
                        },
                        None => {
                            assert(!is_candidate(routes[j], suffix, h, p));
                        },
                    }
                }
                if before is Some {
                    let a = before.unwrap();
                    assert(part[a as int] == next[a as int]);
                    assert(part[a as int] == routes[a as int]);
                    assert(part[a as int].serves(suffix, h));
                }
            }
            if before is Some {
                let a = before.unwrap();
                assert(part[a as int] == next[a as int]);
                assert(part[a as int] == routes[a as int]);
            }
        },
        None => {},
    }
}

// ---------- rewriting ----------

/// A header line.
pub open spec fn header_line(name: Seq<char>, value: Seq<char>) -> Seq<char> {
    name + ": "@ + value + "\r\n"@
}

/// What becomes of one header of the request. The configured request headers replace the
/// headers of exactly their name. The host is rewritten where the route says so, and the
/// client is added to `X-Forwarded-For`.
pub open spec fn rewritten_header(
    name: Seq<char>,
    value: Seq<char>,
    route: HttpRoute,
    client_addr: Seq<char>,
) -> Seq<char> {
    if route.request_headers@.dom().contains(name) {
        header_line(name, route.request_headers@[name]@)
    } else if text::eq_ignore_case(name, "Host"@) {
        header_line(
            "Host"@,
            match route.host_header_rewrite {
                Some(h) => h@,
                None => value,
            },
        )
    } else if text::eq_ignore_case(name, "X-Forwarded-For"@) {
        header_line("X-Forwarded-For"@, value + ", "@ + client_addr)
    } else {
        header_line(name, value)
    }
}

/// What becomes of the headers of the request.
pub open spec fn rewritten_headers(
    headers: Seq<(String, String)>,
    route: HttpRoute,
    client_addr: Seq<char>,
) -> Seq<char>
    decreases headers.len(),
{
    if headers.len() == 0 {
        Seq::empty()
    } else {
        rewritten_headers(headers.drop_last(), route, client_addr) + rewritten_header(
            headers.last().0@,
            headers.last().1@,
            route,
            client_addr,
        )
    }
}

/// Whether the request has a header of this name, in whatever case.
pub open spec fn has_header(headers: Seq<(String, String)>, name: Seq<char>) -> bool {
    exists|i: int|
        0 <= i < headers.len() && text::eq_ignore_case((#[trigger] headers[i]).0@, name)
}

/// The configured request headers that the request does not have.
pub open spec fn extra_headers(
    entries: Seq<(String, String)>,
    headers: Seq<(String, String)>,
) -> Seq<char>
    decreases entries.len(),
{
    if entries.len() == 0 {
        Seq::empty()
    } else {
        let rest = extra_headers(entries.drop_last(), headers);
        if has_header(headers, entries.last().0@) {
            rest
        } else {
            rest + header_line(entries.last().0@, entries.last().1@)
        }
    }
}

/// The head of the request that is sent on. `X-Forwarded-For` is added where the request has
/// none.
pub open spec fn rewritten_text(
    info: HttpRequestInfo,
    route: HttpRoute,
    client_addr: Seq<char>,
) -> Seq<char> {
    info.method@ + " "@ + info.path@ + " "@ + info.version@ + "\r\n"@ + rewritten_headers(
        info.headers@,
        route,
        client_addr,
    ) + (if has_header(info.headers@, "X-Forwarded-For"@) {
        Seq::empty()
    } else {
        header_line("X-Forwarded-For"@, client_addr)
    }) + header_line("X-Real-IP"@, client_addr) + extra_headers(
        route.request_headers.entries(),
        info.headers@,
    ) + "\r\n"@
}

/// What is sent on begins with the request line that came in: its method, its path and its
/// version. Where they hold no space and no line end, they are read back as such.
pub proof fn request_line_is_kept(info: HttpRequestInfo, route: HttpRoute, client_addr: Seq<char>)
    ensures
        ({
            let out = rewritten_text(info, route, client_addr);
            let rest = out.skip(info.method@.len() as int + 1);
            let tail = rest.skip(info.path@.len() as int + 1);
            &&& (info.method@ + seq![' '] + info.path@ + seq![' '] + info.version@ + seq![
                '\r',
                '\n',
            ]).is_prefix_of(out)
            &&& !info.method@.contains(' ') ==> text::before_first(out, ' ') == info.method@
            &&& !info.path@.contains(' ') ==> text::before_first(rest, ' ') == info.path@
            &&& !info.version@.contains('\r') ==> text::before_first(tail, '\r')
                == info.version@
        }),
{
    reveal_strlit(" ");
    reveal_strlit("\r\n");
    assert(" "@ == seq![' ']);
    assert("\r\n"@ == seq!['\r', '\n']);
    let rest = rewritten_headers(info.headers@, route, client_addr) + (if has_header(
        info.headers@,
        "X-Forwarded-For"@,
    ) {
        Seq::empty()
    } else {
        header_line("X-Forwarded-For"@, client_addr)
    }) + header_line("X-Real-IP"@, client_addr) + extra_headers(
        route.request_headers.entries(),
        info.headers@,
    ) + "\r\n"@;
    let line = info.method@ + seq![' '] + info.path@ + seq![' '] + info.version@ + seq![
        '\r',
        '\n',
    ];
    assert(rewritten_text(info, route, client_addr) == line + rest);
    lemma_line_parts(info.method@, info.path@, info.version@, rest);
}

/// The parts of a request line are found, whatever follows it.
proof fn lemma_line_parts(
    method: Seq<char>,
    path: Seq<char>,
    version: Seq<char>,
    behind: Seq<char>,
)
    ensures
        ({
            let line = method + seq![' '] + path + seq![' '] + version + seq!['\r', '\n'];
            let out = line + behind;
            let rest = out.skip(method.len() as int + 1);
            let tail = rest.skip(path.len() as int + 1);
            &&& line.is_prefix_of(out)
            &&& !method.contains(' ') ==> text::before_first(out, ' ') == method
            &&& !path.contains(' ') ==> text::before_first(rest, ' ') == path
            &&& !version.contains('\r') ==> text::before_first(tail, '\r') == version
        }),
{
    let line = method + seq![' '] + path + seq![' '] + version + seq!['\r', '\n'];
    let out = line + behind;
    let tail = version + seq!['\r'] + (seq!['\n'] + behind);
    let rest = path + seq![' '] + tail;
    assert(out == method + seq![' '] + rest);
    assert(out.skip(method.len() as int + 1) == rest);
    assert(rest.skip(path.len() as int + 1) == tail);
    assert(out.take(line.len() as int) == line);
    if !method.contains(' ') {
        text::parts_are_found(method, ' ', rest);
    }
    if !path.contains(' ') {
        text::parts_are_found(path, ' ', tail);
    }
    if !version.contains('\r') {
        text::parts_are_found(version, '\r', seq!['\n'] + behind);
    }
}

/// The headers of a request are sent on one by one: what becomes of two lists of headers is
/// what becomes of the first and then of the second.
pub proof fn headers_are_sent_on_in_order(
    first: Seq<(String, String)>,
    second: Seq<(String, String)>,
    route: HttpRoute,
    client_addr: Seq<char>,
)
    ensures
        rewritten_headers(first + second, route, client_addr) == rewritten_headers(
            first,
            route,
            client_addr,
        ) + rewritten_headers(second, route, client_addr),
    decreases second.len(),
{
    if second.len() == 0 {
        assert(first + second == first);
        assert(rewritten_headers(second, route, client_addr) == Seq::<char>::empty());
    } else {
        let all = first + second;
        assert(all.drop_last() == first + second.drop_last());
        assert(all.last() == second.last());
        headers_are_sent_on_in_order(first, second.drop_last(), route, client_addr);
    }
}

/// What becomes of one header. A header of exactly a configured name gets the configured
/// value. Of the others, a host is replaced where the route rewrites it, the client is added
/// behind those that a request was forwarded for, and all else is sent on as it came.
pub proof fn each_header_is_sent_on(
    header: (String, String),
    route: HttpRoute,
    client_addr: Seq<char>,
)
    ensures
        ({
            let out = rewritten_headers(seq![header], route, client_addr);
            let name = header.0@;
            let value = header.1@;
            let host = text::eq_ignore_case(name, seq!['H', 'o', 's', 't']);
            let forwarded = text::eq_ignore_case(name, "X-Forwarded-For"@);
            let line = |n: Seq<char>, v: Seq<char>| n + seq![':', ' '] + v + seq!['\r', '\n'];
            if route.request_headers@.dom().contains(name) {
                out == line(name, route.request_headers@[name]@)
            } else if host && route.host_header_rewrite is Some {
                out == line(seq!['H', 'o', 's', 't'], route.host_header_rewrite.unwrap()@)
            } else if host {
                out == line(seq!['H', 'o', 's', 't'], value)
            } else if forwarded {
                out == line("X-Forwarded-For"@, value + seq![',', ' '] + client_addr)
            } else {
                out == line(name, value)
            }
        }),
{
    reveal_strlit(": ");
    reveal_strlit(", ");
    reveal_strlit("\r\n");
    reveal_strlit("Host");
    assert(": "@ == seq![':', ' ']);
    assert(", "@ == seq![',', ' ']);
    assert("\r\n"@ == seq!['\r', '\n']);
    assert("Host"@ == seq!['H', 'o', 's', 't']);
    let one = seq![header];
    assert(one.drop_last() == Seq::<(String, String)>::empty());
    assert(rewritten_headers(one.drop_last(), route, client_addr) == Seq::<char>::empty());
    assert(rewritten_headers(one, route, client_addr) == rewritten_header(
        header.0@,
        header.1@,
        route,
        client_addr,
    ));
}

/// Behind the headers of the request the service is told who the client is: by a line of its
/// own where nobody was named before, and in any case as the real address. Then come the
/// configured headers that the request does not have, and an empty line ends the head.
pub proof fn client_is_told(info: HttpRequestInfo, route: HttpRoute, client_addr: Seq<char>)
    ensures
        ({
            let out = rewritten_text(info, route, client_addr);
            let start = info.method@ + seq![' '] + info.path@ + seq![' '] + info.version@ + seq![
                '\r',
                '\n',
            ] + rewritten_headers(info.headers@, route, client_addr);
            let rest = out.skip(start.len() as int);
            let named = exists|i: int|
                0 <= i < info.headers@.len() && text::eq_ignore_case(
                    (#[trigger] info.headers@[i]).0@,
                    "X-Forwarded-For"@,
                );
            let address = "X-Real-IP"@ + seq![':', ' '] + client_addr + seq!['\r', '\n'];
            let told = if named {
                address
            } else {
                "X-Forwarded-For"@ + seq![':', ' '] + client_addr + seq!['\r', '\n'] + address
            };
            &&& start.is_prefix_of(out)
            &&& told.is_prefix_of(rest)
            &&& rest.skip(told.len() as int) == extra_headers(
                route.request_headers.entries(),
                info.headers@,
            ) + seq!['\r', '\n']
        }),
{
    reveal_strlit(" ");
    reveal_strlit(": ");
    reveal_strlit("\r\n");
    assert(" "@ == seq![' ']);
    assert(": "@ == seq![':', ' ']);
    assert("\r\n"@ == seq!['\r', '\n']);
    let out = rewritten_text(info, route, client_addr);
    let start = info.method@ + seq![' '] + info.path@ + seq![' '] + info.version@ + seq![
        '\r',
        '\n',
    ] + rewritten_headers(info.headers@, route, client_addr);
    let address = "X-Real-IP"@ + seq![':', ' '] + client_addr + seq!['\r', '\n'];
    let told = if has_header(info.headers@, "X-Forwarded-For"@) {
        address
    } else {
        "X-Forwarded-For"@ + seq![':', ' '] + client_addr + seq!['\r', '\n'] + address
    };
    let end = extra_headers(route.request_headers.entries(), info.headers@) + seq!['\r', '\n'];
    assert(out == start + told + end);
    assert(out.take(start.len() as int) == start);
    let rest = out.skip(start.len() as int);
    assert(rest == told + end);
    assert(rest.take(told.len() as int) == told);
    assert(rest.skip(told.len() as int) == end);
}

/// The configured headers are added one by one, each where the request has no header of its
/// name.
pub proof fn missing_headers_are_added(
    first: Seq<(String, String)>,
    second: Seq<(String, String)>,
    one: (String, String),
    headers: Seq<(String, String)>,
)
    ensures
        extra_headers(first + second, headers) == extra_headers(first, headers) + extra_headers(
            second,
            headers,
        ),
        extra_headers(seq![one], headers) == (if exists|i: int|
            0 <= i < headers.len() && text::eq_ignore_case((#[trigger] headers[i]).0@, one.0@) {
            Seq::<char>::empty()
        } else {
            one.0@ + seq![':', ' '] + one.1@ + seq!['\r', '\n']
        }),
    decreases second.len(),
{
    reveal_strlit(": ");
    reveal_strlit("\r\n");
    assert(": "@ == seq![':', ' ']);
    assert("\r\n"@ == seq!['\r', '\n']);
    let single = seq![one];
    assert(single.drop_last() == Seq::<(String, String)>::empty());
    assert(extra_headers(single.drop_last(), headers) == Seq::<char>::empty());
    assert(single.last() == one);
    assert(extra_headers(single, headers) =~= (if has_header(headers, one.0@) {
        Seq::<char>::empty()
    } else {
        header_line(one.0@, one.1@)
    }));
    if second.len() == 0 {
        assert(first + second == first);
        assert(extra_headers(second, headers) == Seq::<char>::empty());
    } else {
        let all = first + second;
        assert(all.drop_last() == first + second.drop_last());
        assert(all.last() == second.last());
        missing_headers_are_added(first, second.drop_last(), one, headers);
    }
}

/// Writes a header line.
fn push_header(out: &mut String, name: &str, value: &str)
    ensures
        final(out)@ == old(out)@ + header_line(name@, value@),
{
    out.append(name);
    out.append(": ");
    out.append(value);
    out.append("\r\n");
    assert(out@ == old(out)@ + header_line(name@, value@));
}

/// Computes [`has_header`].
fn any_header(headers: &Vec<(String, String)>, name: &str) -> (r: bool)
    ensures
        r == has_header(headers@, name@),
{
    let mut i: usize = 0;
    while i < headers.len()
        invariant
            i <= headers@.len(),
            forall|j: int|
                0 <= j < i ==> !text::eq_ignore_case((#[trigger] headers@[j]).0@, name@),
        decreases headers@.len() - i,
    {
        if text::eq_ignore_ascii_case(headers[i].0.as_str(), name) {
            return true;
        }
        i = i + 1;
    }
    false
}

/// Writes one header of the request.
fn push_rewritten_header(
    out: &mut String,
    name: &str,
    value: &str,
    route: &HttpRoute,
    client_addr: &str,
)
    ensures
        final(out)@ == old(out)@ + rewritten_header(name@, value@, *route, client_addr@),
{
    if let Some(new_value) = route.request_headers.get(name) {
        push_header(out, name, new_value.as_str());
    } else if text::eq_ignore_ascii_case(name, "Host") {
        match &route.host_header_rewrite {
            Some(rewrite) => push_header(out, "Host", rewrite.as_str()),
            None => push_header(out, "Host", value),
        }
    } else if text::eq_ignore_ascii_case(name, "X-Forwarded-For") {
        let mut list = value.to_string();
        list.append(", ");
        list.append(client_addr);
        push_header(out, "X-Forwarded-For", list.as_str());
    } else {
        push_header(out, name, value);
    }
}

/// Writes the head of the request that is sent on to the service.
pub fn rewrite_request(info: &HttpRequestInfo, route: &HttpRoute, client_addr: &str) -> (r: Vec<u8>)
    ensures
        r@ == vstd::utf8::encode_utf8(rewritten_text(*info, *route, client_addr@)),
{
    let mut out = info.method.clone();
    out.append(" ");
    out.append(info.path.as_str());
    out.append(" ");
    out.append(info.version.as_str());
    out.append("\r\n");
    let ghost line = out@;

    let mut i: usize = 0;
    assert(line + rewritten_headers(info.headers@.take(0), *route, client_addr@) == line);
    while i < info.headers.len()
        invariant
            i <= info.headers@.len(),
            out@ == line + rewritten_headers(info.headers@.take(i as int), *route, client_addr@),
        decreases info.headers@.len() - i,
    {
        let ghost next = info.headers@.take(i + 1);
        push_rewritten_header(
            &mut out,
            info.headers[i].0.as_str(),
            info.headers[i].1.as_str(),
            route,
            client_addr,
        );
        proof {
            assert(next.drop_last() == info.headers@.take(i as int));
            assert(next.last() == info.headers@[i as int]);
            assert(out@ == line + rewritten_headers(next, *route, client_addr@));
        }
        i = i + 1;
    }
    assert(info.headers@.take(i as int) == info.headers@);
    if !any_header(&info.headers, "X-Forwarded-For") {
        push_header(&mut out, "X-Forwarded-For", client_addr);
    }
    push_header(&mut out, "X-Real-IP", client_addr);
    let ghost body = out@;
    let ghost entries = route.request_headers.entries();

    let mut k: usize = 0;
    assert(body + extra_headers(entries.take(0), info.headers@) == body);
    while k < route.request_headers.len()
        invariant
            k <= entries.len(),
            entries == route.request_headers.entries(),
            out@ == body + extra_headers(entries.take(k as int), info.headers@),
        decreases entries.len() - k,
    {
        proof {
            assert(entries.take(k + 1).drop_last() == entries.take(k as int));
            assert(entries.take(k + 1).last() == entries[k as int]);
        }
        let name = route.request_headers.name_at(k);
        if !any_header(&info.headers, name) {
            push_header(&mut out, name, route.request_headers.value_at(k).as_str());
        }
        k = k + 1;
        assert(out@ == body + extra_headers(entries.take(k as int), info.headers@));
    }
    assert(entries.take(k as int) == entries);
    out.append("\r\n");
    assert(out@ == rewritten_text(*info, *route, client_addr@));
    text::to_bytes(out.as_str())
}

// ---------- basic authentication ----------

/// The credentials in the value of an `Authorization` header, if it holds any that can be read.
pub open spec fn credentials(value: Seq<char>) -> Option<Seq<char>> {
    if "Basic "@.is_prefix_of(value) {
        match base64::decoded(text::trimmed(value.skip("Basic "@.len() as int))) {
            Some(bytes) => if vstd::utf8::valid_utf8(bytes) {
                Some(vstd::utf8::decode_utf8(bytes))
            } else {
                None
            },
            None => None,
        }
    } else {
        None
    }
}

/// The first readable credentials in the headers of a request.
pub open spec fn first_credentials(headers: Seq<(Seq<char>, Seq<char>)>) -> Option<Seq<char>>
    decreases headers.len(),
{
    if headers.len() == 0 {
        None
    } else if text::eq_ignore_case(headers[0].0, "Authorization"@) && credentials(headers[0].1) is Some {
        credentials(headers[0].1)
    } else {
        first_credentials(headers.skip(1))
    }
}

/// Reads the credentials in the value of an `Authorization` header.
fn read_credentials(value: &str) -> (r: Option<String>)
    ensures
        match r {
            Some(c) => credentials(value@) == Some(c@),
            None => credentials(value@) is None,
        },
{
    match text::strip_prefix(value, "Basic ") {
        Some(encoded) => match base64::base64_decode(text::trim(encoded)) {
            Ok(c) => Some(c),
            Err(_) => None,
        },
        None => None,
    }
}

/// Checks the credentials of a request. The first `Authorization` header whose credentials
/// can be read decides.
pub fn validate_basic_auth(headers: &[(String, String)], user: &str, password: &str) -> (r: bool)
    ensures
        r == (first_credentials(pairs(headers@)) == Some(user@ + ":"@ + password@)),
{
    let ghost all = pairs(headers@);
    let mut i: usize = 0;
    assert(all.skip(0) == all);
    while i < headers.len()
        invariant
            i <= headers@.len(),
            all == pairs(headers@),
            first_credentials(all) == first_credentials(all.skip(i as int)),
        decreases headers@.len() - i,
    {
        let ghost rest = all.skip(i as int);
        assert(rest[0] == (headers@[i as int].0@, headers@[i as int].1@));
        assert(rest.skip(1) == all.skip(i + 1));
        if text::eq_ignore_ascii_case(headers[i].0.as_str(), "Authorization") {
            if let Some(found) = read_credentials(headers[i].1.as_str()) {
                let mut expected = user.to_string();
                expected.append(":");
                expected.append(password);
                return text::str_eq(found.as_str(), expected.as_str());
            }
        }
        i = i + 1;
    }
    assert(all.skip(i as int) == Seq::<(Seq<char>, Seq<char>)>::empty());
    false
}

proof fn lemma_encoded_has_no_space(b: Seq<u8>)
    ensures
        text::trimmed(base64::encoded(b)) == base64::encoded(b),
{
    let e = base64::encoded(b);
    assert forall|k: int| 0 <= k < e.len() implies !text::is_space(#[trigger] e[k]) by {
        assert(e[k] == base64::encoded_char(b, k));
    }
    if e.len() > 0 {
        assert(!text::is_space(e[0]));
        assert(!text::is_space(e[e.len() - 1]));
    }
}

/// A client that sends the Base64 of its credentials is let in where they are the expected
/// ones, and only there.
pub proof fn encoded_credentials_decide(
    headers: Seq<(Seq<char>, Seq<char>)>,
    k: int,
    sent: Seq<char>,
)
    requires
        0 <= k < headers.len(),
        forall|j: int|
            0 <= j < k ==> !text::eq_ignore_case((#[trigger] headers[j]).0, "Authorization"@),
        text::eq_ignore_case(headers[k].0, "Authorization"@),
        headers[k].1 == "Basic "@ + base64::encoded(vstd::utf8::encode_utf8(sent)),
    ensures
        first_credentials(headers) == Some(sent),
    decreases k,
{
    if k > 0 {
        assert(!text::eq_ignore_case(headers[0].0, "Authorization"@));
        let rest = headers.skip(1);
        assert forall|j: int| 0 <= j < k - 1 implies !text::eq_ignore_case(
            (#[trigger] rest[j]).0,
            "Authorization"@,
        ) by {
            assert(rest[j] == headers[j + 1]);
        }
        encoded_credentials_decide(rest, k - 1, sent);
    } else {
        let bytes = vstd::utf8::encode_utf8(sent);
        let value = headers[0].1;
        assert(value.skip("Basic "@.len() as int) == base64::encoded(bytes));
        assert("Basic "@.is_prefix_of(value));
        lemma_encoded_has_no_space(bytes);
        base64::decode_undoes_encode(bytes);
        vstd::utf8::encode_utf8_valid_utf8(sent);
        vstd::utf8::encode_utf8_decode_utf8(sent);
    }
}

/// Credentials are those behind the word `Basic`, white space around them aside; what is no
/// Base64 of a text holds none.
pub proof fn only_basic_credentials_are_read(value: Seq<char>)
    ensures
        !seq!['B', 'a', 's', 'i', 'c', ' '].is_prefix_of(value) ==> credentials(value) is None,
        credentials(value) matches Some(c) ==> base64::decoded(text::trimmed(value.skip(6)))
            matches Some(bytes) && vstd::utf8::valid_utf8(bytes) && c == vstd::utf8::decode_utf8(
            bytes,
        ),
{
    reveal_strlit("Basic ");
    assert("Basic "@ == seq!['B', 'a', 's', 'i', 'c', ' ']);
}

/// Without an `Authorization` header nobody is let in.
pub proof fn no_header_no_credentials(headers: Seq<(Seq<char>, Seq<char>)>)
    requires
        forall|i: int|
            0 <= i < headers.len() ==> !text::eq_ignore_case(
                (#[trigger] headers[i]).0,
                "Authorization"@,
            ),
    ensures
        first_credentials(headers) is None,
    decreases headers.len(),
{
    if headers.len() > 0 {
        let rest = headers.skip(1);
        assert(!text::eq_ignore_case(headers[0].0, "Authorization"@));
        assert forall|i: int| 0 <= i < rest.len() implies !text::eq_ignore_case(
            (#[trigger] rest[i]).0,
            "Authorization"@,
        ) by {
            assert(rest[i] == headers[i + 1]);
        }
        no_header_no_credentials(rest);
    }
}

// ---------- error pages ----------

/// An HTTP response with a page: the status line and what other headers there are, then the
/// length of the page in bytes, then the page.
pub open spec fn page_response(head: Seq<char>, body: Seq<char>) -> Seq<char> {
    head + "Content-Type: text/html\r\nContent-Length: "@ + text::decimal(
        vstd::utf8::encode_utf8(body).len(),
    ) + "\r\nConnection: close\r\n\r\n"@ + body
}

/// A response ends in its page behind an empty line, and says before it how many bytes the
/// page has.
pub proof fn page_is_sent_whole(head: Seq<char>, body: Seq<char>)
    ensures
        ({
            let out = page_response(head, body);
            let front = out.take(out.len() - body.len());
            &&& head.is_prefix_of(out)
            &&& body.is_suffix_of(out)
            &&& seq!['\r', '\n', '\r', '\n'].is_suffix_of(front)
            &&& text::occurs(
                front,
                "Content-Length: "@ + text::decimal(vstd::utf8::encode_utf8(body).len()) + seq![
                    '\r',
                    '\n',
                ],
            )
        }),
{
    let out = page_response(head, body);
    let front = out.take(out.len() - body.len());
    let len = text::decimal(vstd::utf8::encode_utf8(body).len());
    reveal_strlit("Content-Type: text/html\r\nContent-Length: ");
    reveal_strlit("Content-Length: ");
    reveal_strlit("\r\nConnection: close\r\n\r\n");
    let kind = "Content-Type: text/html\r\nContent-Length: "@;
    let end = "\r\nConnection: close\r\n\r\n"@;
    assert(front == head + kind + len + end);
    assert(out.take(head.len() as int) == head);
    assert(out.skip(out.len() - body.len()) == body);
    assert(front.skip(front.len() - 4) == seq!['\r', '\n', '\r', '\n']) by {
        assert(end.skip(end.len() - 4) == seq!['\r', '\n', '\r', '\n']);
        assert(front.skip(front.len() - 4) == end.skip(end.len() - 4));
    }
    let needle = "Content-Length: "@ + len + seq!['\r', '\n'];
    let at = head.len() + kind.len() - 16;
    assert(kind.skip(kind.len() - 16) == "Content-Length: "@);
    assert(end.take(2) == seq!['\r', '\n']);
    assert(front.subrange(at, at + needle.len()) == needle) by {
        assert forall|i: int| 0 <= i < needle.len() implies front[at + i] == needle[i] by {
            if i < 16 {
                assert(kind.skip(kind.len() - 16)[i] == kind[kind.len() - 16 + i]);
            } else if i >= 16 + len.len() {
                assert(end.take(2)[i - 16 - len.len()] == end[i - 16 - len.len()]);
            }
        }
    }
    assert(text::occurs_at(front, needle, at));
}

/// Writes an HTTP response with a page.
fn write_page(head: &str, body: &str) -> (r: String)
    ensures
        r@ == page_response(head@, body@),
{
    let mut out = head.to_string();
    out.append("Content-Type: text/html\r\nContent-Length: ");
    text::push_decimal(&mut out, text::byte_len(body) as u64);
    out.append("\r\nConnection: close\r\n\r\n");
    out.append(body);
    out
}

/// The answer where no route matches. The server may have a page of its own for it.
pub fn not_found_response(custom_page: Option<&str>) -> (r: String)
    ensures
        r@ == page_response(
            "HTTP/1.1 404 Not Found\r\n"@,
            match custom_page {
                Some(page) => page@,
                None => "<html><body><h1>404 Not Found</h1></body></html>"@,
            },
        ),
{
    let body = match custom_page {
        Some(page) => page,
        None => "<html><body><h1>404 Not Found</h1></body></html>",
    };
    write_page("HTTP/1.1 404 Not Found\r\n", body)
}

/// The answer where credentials are missing or wrong.
pub fn unauthorized_response() -> (r: String)
    ensures
        r@ == page_response(
            "HTTP/1.1 401 Unauthorized\r\nWWW-Authenticate: Basic realm=\"chagle\"\r\n"@,
            "<html><body><h1>401 Unauthorized</h1></body></html>"@,
        ),
{
    write_page(
        "HTTP/1.1 401 Unauthorized\r\nWWW-Authenticate: Basic realm=\"chagle\"\r\n",
        "<html><body><h1>401 Unauthorized</h1></body></html>",
    )
}

/// The answer where the service cannot be reached.
pub fn bad_gateway_response() -> (r: String)
    ensures
        r@ == page_response(
            "HTTP/1.1 502 Bad Gateway\r\n"@,
            "<html><body><h1>502 Bad Gateway</h1></body></html>"@,
        ),
{
    write_page(
        "HTTP/1.1 502 Bad Gateway\r\n",
        "<html><body><h1>502 Bad Gateway</h1></body></html>",
    )
}

/// What a request comes to is what the parser reports with room for 64 headers.
pub proof fn requests_are_parsed(buf: Seq<u8>, r: Result<HttpRequestInfo, HttpParseError>)
    requires
        request_parsed(buf, r),
    ensures
        match parsed_head(buf, 64) {
            Ok(Some(head)) => r matches Ok(info) && info.describes(head, buf),
            Ok(None) => r matches Err(e) && e is Incomplete,
            Err(text) => r matches Err(HttpParseError::Malformed(e)) && e@ == text,
        },
{
}

/// Pairs of texts count by their characters, one by one.
pub proof fn pairs_have_their_characters(v: Seq<(String, String)>, i: int)
    requires
        0 <= i < v.len(),
    ensures
        pairs(v).len() == v.len(),
        pairs(v)[i].0 == v[i].0@,
        pairs(v)[i].1 == v[i].1@,
{
}

/// The first `Authorization` header with credentials that can be read counts, whatever other
/// headers stand before and behind it.
pub proof fn first_readable_credentials_count(headers: Seq<(Seq<char>, Seq<char>)>, k: int)
    requires
        0 <= k < headers.len(),
        forall|j: int|
            0 <= j < k ==> !text::eq_ignore_case((#[trigger] headers[j]).0, "Authorization"@)
                || credentials(headers[j].1) is None,
        text::eq_ignore_case(headers[k].0, "Authorization"@),
        credentials(headers[k].1) is Some,
    ensures
        first_credentials(headers) == credentials(headers[k].1),
    decreases k,
{
    if k > 0 {
        assert(!text::eq_ignore_case(headers[0].0, "Authorization"@) || credentials(headers[0].1)
            is None);
        let rest = headers.skip(1);
        assert forall|j: int| 0 <= j < k - 1 implies !text::eq_ignore_case(
            (#[trigger] rest[j]).0,
            "Authorization"@,
        ) || credentials(rest[j].1) is None by {
            assert(rest[j] == headers[j + 1]);
        }
        first_readable_credentials_count(rest, k - 1);
    }
}

/// The Base64 of credentials is read behind the word `Basic`, white space around it aside.
pub proof fn credentials_are_read(a: Seq<char>, sent: Seq<char>, b: Seq<char>)
    requires
        forall|i: int| 0 <= i < a.len() ==> text::is_space(#[trigger] a[i]),
        forall|i: int| 0 <= i < b.len() ==> text::is_space(#[trigger] b[i]),
    ensures
        credentials(
            seq!['B', 'a', 's', 'i', 'c', ' '] + (a + base64::encoded(
                vstd::utf8::encode_utf8(sent),
            ) + b),
        ) == Some(sent),
{
    reveal_strlit("Basic ");
    let basic = seq!['B', 'a', 's', 'i', 'c', ' '];
    assert("Basic "@ == basic);
    let bytes = vstd::utf8::encode_utf8(sent);
    let e = base64::encoded(bytes);
    let rest = a + e + b;
    let value = basic + rest;
    assert(value.skip(6) == rest);
    assert(basic.is_prefix_of(value));
    assert forall|k: int| 0 <= k < e.len() implies !text::is_space(#[trigger] e[k]) by {
        assert(e[k] == base64::encoded_char(bytes, k));
    }
    if e.len() > 0 {
        assert(!text::is_space(e[0]) && !text::is_space(e[e.len() - 1]));
    }
    text::only_white_space_is_cut(a, e, b);
    base64::decode_undoes_encode(bytes);
    vstd::utf8::encode_utf8_valid_utf8(sent);
    vstd::utf8::encode_utf8_decode_utf8(sent);
}

/// Where no `Authorization` header has credentials that can be read, there are none.
pub proof fn unreadable_credentials_do_not_count(headers: Seq<(Seq<char>, Seq<char>)>)
    requires
        forall|i: int|
            0 <= i < headers.len() ==> !text::eq_ignore_case(
                (#[trigger] headers[i]).0,
                "Authorization"@,
            ) || credentials(headers[i].1) is None,
    ensures
        first_credentials(headers) is None,
    decreases headers.len(),
{
    if headers.len() > 0 {
        let rest = headers.skip(1);
        assert(!text::eq_ignore_case(headers[0].0, "Authorization"@) || credentials(headers[0].1)
            is None);
        assert forall|i: int| 0 <= i < rest.len() implies !text::eq_ignore_case(
            (#[trigger] rest[i]).0,
            "Authorization"@,
        ) || credentials(rest[i].1) is None by {
            assert(rest[i] == headers[i + 1]);
        }
        unreadable_credentials_do_not_count(rest);
    }
}

/// What stands behind the word `Basic` is read wherever it is the Base64 of a text.
pub proof fn readable_credentials_count(value: Seq<char>, bytes: Seq<u8>)
    requires
        seq!['B', 'a', 's', 'i', 'c', ' '].is_prefix_of(value),
        base64::decoded(text::trimmed(value.skip(6))) == Some(bytes),
        vstd::utf8::valid_utf8(bytes),
    ensures
        credentials(value) == Some(vstd::utf8::decode_utf8(bytes)),
{
    reveal_strlit("Basic ");
    assert("Basic "@ == seq!['B', 'a', 's', 'i', 'c', ' ']);
}

} // verus!
