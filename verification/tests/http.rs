use chagle::base64::{base64_decode, base64_decode_bytes, simple_base64_encode, DecodeError};
use chagle::http_proxy::{
    bad_gateway_response, extract_sni, header_received, not_found_response, parse_http_request,
    request_info, rewrite_request, unauthorized_response, validate_basic_auth, HeaderError,
    HttpParseError, HttpRequestInfo, HttpRoute, RequestHead, VhostRouter,
};
use chagle::name_map::NameMap;

#[test]
fn test_parse_http_request() {
    let req = b"GET /hello HTTP/1.1\r\nHost: example.com\r\nContent-Length: 0\r\n\r\n";
    let info = parse_http_request(req).unwrap();
    assert_eq!(info.method, "GET");
    assert_eq!(info.path, "/hello");
    assert_eq!(info.host, "example.com");
}

#[test]
fn test_vhost_router() {
    let mut router = VhostRouter::new(Some("example.com".to_string()));
    router.add_route(HttpRoute {
        service_name: "web".to_string(),
        custom_domains: vec!["web.example.com".to_string()],
        subdomain: None,
        locations: vec![],
        host_header_rewrite: None,
        http_user: None,
        http_password: None,
        request_headers: NameMap::new(),
        response_headers: NameMap::new(),
        route_by_http_user: None,
    });
    router.add_route(HttpRoute {
        service_name: "api".to_string(),
        custom_domains: vec![],
        subdomain: Some("api".to_string()),
        locations: vec!["/v1".to_string()],
        host_header_rewrite: None,
        http_user: None,
        http_password: None,
        request_headers: NameMap::new(),
        response_headers: NameMap::new(),
        route_by_http_user: None,
    });

    let route = router.match_route("web.example.com", "/");
    assert!(route.is_some());
    assert_eq!(route.unwrap().service_name, "web");

    let route = router.match_route("api.example.com", "/v1/users");
    assert!(route.is_some());
    assert_eq!(route.unwrap().service_name, "api");

    let route = router.match_route("unknown.example.com", "/");
    assert!(route.is_none());
}

#[test]
fn test_basic_auth() {
    // "user:pass" in base64 is "dXNlcjpwYXNz"
    let headers = vec![(
        "Authorization".to_string(),
        "Basic dXNlcjpwYXNz".to_string(),
    )];
    assert!(validate_basic_auth(&headers, "user", "pass"));
    assert!(!validate_basic_auth(&headers, "user", "wrong"));
}

#[test]
fn test_extract_sni() {
    // A minimal TLS ClientHello is complex to construct,
    // so just test that non-TLS data returns None
    assert_eq!(extract_sni(b"GET / HTTP/1.1"), None);
    assert_eq!(extract_sni(b""), None);
    assert_eq!(extract_sni(&[0x16, 0x03, 0x01]), None);
}

// ---------- requests ----------

#[test]
fn request_head_is_read() {
    let req = b"POST /a?b HTTP/1.0\r\nhost: one\r\nX: \xff\r\nHOST: two\r\n\r\nbody";
    let info = parse_http_request(req).unwrap();
    assert_eq!(info.method, "POST");
    assert_eq!(info.path, "/a?b");
    assert_eq!(info.version, "HTTP/1.0");
    // The last host counts.
    assert_eq!(info.host, "two");
    assert_eq!(info.headers.len(), 3);
    assert_eq!(info.headers[1].0, "X");
    assert_eq!(info.headers[1].1, "\u{fffd}");
    assert_eq!(info.raw_bytes, &req[..req.len() - 4]);
}

#[test]
fn request_without_host() {
    let info = parse_http_request(b"GET / HTTP/1.1\r\n\r\n").unwrap();
    assert_eq!(info.host, "");
    assert!(info.headers.is_empty());
}

#[test]
fn request_errors() {
    let e = parse_http_request(b"GET / HTTP/1.1\r\nHost: x").err().unwrap();
    assert!(matches!(e, HttpParseError::Incomplete));
    assert_eq!(e.message(), "Incomplete HTTP request");
    let e = parse_http_request(b"\x00\x01").err().unwrap();
    assert!(matches!(&e, HttpParseError::Malformed(why) if why == "invalid token"));
    assert_eq!(e.message(), "Failed to parse HTTP request");
}

#[test]
fn no_more_headers_than_there_is_room_for() {
    let mut req = b"GET / HTTP/1.1\r\n".to_vec();
    for i in 0..64 {
        req.extend_from_slice(format!("h{}: v\r\n", i).as_bytes());
    }
    let mut more = req.clone();
    req.extend_from_slice(b"\r\n");
    assert_eq!(parse_http_request(&req).unwrap().headers.len(), 64);
    more.extend_from_slice(b"one: more\r\n\r\n");
    assert!(matches!(
        parse_http_request(&more),
        Err(HttpParseError::Malformed(why)) if why == "too many headers"
    ));
}

#[test]
fn request_info_has_defaults() {
    let head = RequestHead {
        len: 2,
        method: None,
        path: None,
        version: None,
        headers: vec![
            ("Host".to_string(), b"h".to_vec()),
            ("".to_string(), b"".to_vec()),
            ("Late".to_string(), b"x".to_vec()),
        ],
    };
    let info = request_info(head, b"abc");
    assert_eq!(info.method, "GET");
    assert_eq!(info.path, "/");
    assert_eq!(info.version, "HTTP/1.1");
    assert_eq!(info.host, "h");
    assert_eq!(info.headers.len(), 1);
    assert_eq!(info.raw_bytes, b"ab");
}

#[test]
fn header_comes_in_pieces() {
    let mut buf = Vec::new();
    assert!(!header_received(&mut buf, b"GET / HTTP/1.1\r\n\r").unwrap());
    assert!(header_received(&mut buf, b"\nrest").unwrap());
    assert_eq!(buf, b"GET / HTTP/1.1\r\n\r\nrest");
    let e = header_received(&mut Vec::new(), b"").unwrap_err();
    assert!(matches!(e, HeaderError::Closed));
    assert_eq!(e.message(), "Connection closed before HTTP header complete");
    let mut buf = vec![b'a'; 8191];
    assert!(!header_received(&mut buf, b"b").unwrap());
    let e = header_received(&mut buf, b"c").unwrap_err();
    assert!(matches!(e, HeaderError::TooLarge));
    assert_eq!(e.message(), "HTTP header too large (>8KB)");
    let mut buf = vec![b'a'; 9000];
    assert!(header_received(&mut buf, b"\r\n\r\n").unwrap());
}

// ---------- routes ----------

fn route(name: &str, domains: &[&str], locations: &[&str]) -> HttpRoute {
    HttpRoute {
        service_name: name.to_string(),
        custom_domains: domains.iter().map(|d| d.to_string()).collect(),
        subdomain: None,
        locations: locations.iter().map(|l| l.to_string()).collect(),
        host_header_rewrite: None,
        http_user: None,
        http_password: None,
        request_headers: NameMap::new(),
        response_headers: NameMap::new(),
        route_by_http_user: None,
    }
}

fn matched(router: &VhostRouter, host: &str, path: &str) -> Option<String> {
    router.match_route(host, path).map(|r| r.service_name.clone())
}

#[test]
fn longest_location_wins() {
    let mut router = VhostRouter::new(None);
    router.add_route(route("all", &["h"], &[]));
    router.add_route(route("a", &["h"], &["/a", "/a/b"]));
    router.add_route(route("ab", &["h"], &["/a/b"]));
    router.add_route(route("abc", &["h"], &["/a/b/c"]));
    router.add_route(route("late", &["h"], &[]));
    assert_eq!(matched(&router, "h", "/a/x").as_deref(), Some("a"));
    // Of two equally long locations the first route wins.
    assert_eq!(matched(&router, "h", "/a/b/x").as_deref(), Some("a"));
    assert_eq!(matched(&router, "h", "/a/b/c/d").as_deref(), Some("abc"));
    // Without a location the last route wins.
    assert_eq!(matched(&router, "h", "/z").as_deref(), Some("late"));
    assert_eq!(matched(&router, "other", "/a"), None);
}

#[test]
fn empty_location_matches_nothing() {
    let mut router = VhostRouter::new(None);
    router.add_route(route("a", &["h"], &[""]));
    assert_eq!(matched(&router, "h", "/"), None);
}

#[test]
fn hosts_are_compared_without_case_and_port() {
    let mut router = VhostRouter::new(Some("Example.com".to_string()));
    let mut r = route("sub", &[], &[]);
    r.subdomain = Some("API".to_string());
    router.add_route(r);
    router.add_route(route("dom", &["WWW.test"], &[]));
    assert_eq!(matched(&router, "api.EXAMPLE.com:8080", "/").as_deref(), Some("sub"));
    assert_eq!(matched(&router, "www.TEST:1:2", "/").as_deref(), Some("dom"));
    assert_eq!(matched(&router, "api.example.org", "/"), None);
}

#[test]
fn removed_routes_are_gone() {
    let mut router = VhostRouter::new(None);
    router.add_route(route("a", &["h"], &[]));
    router.add_route(route("b", &["h"], &["/b"]));
    router.add_route(route("a", &["h"], &["/x"]));
    router.remove_route("a");
    assert_eq!(matched(&router, "h", "/x"), None);
    assert_eq!(matched(&router, "h", "/b").as_deref(), Some("b"));
    router.remove_route("b");
    assert_eq!(matched(&router, "h", "/b"), None);
}

// ---------- rewriting ----------

fn request(headers: &[(&str, &str)]) -> HttpRequestInfo {
    HttpRequestInfo {
        method: "GET".to_string(),
        path: "/p".to_string(),
        version: "HTTP/1.1".to_string(),
        host: "h".to_string(),
        headers: headers
            .iter()
            .map(|(n, v)| (n.to_string(), v.to_string()))
            .collect(),
        raw_bytes: vec![],
    }
}

fn rewritten(headers: &[(&str, &str)], route: &HttpRoute) -> String {
    String::from_utf8(rewrite_request(&request(headers), route, "1.2.3.4")).unwrap()
}

#[test]
fn client_is_told_to_the_service() {
    let out = rewritten(&[("host", "h"), ("Accept", "*/*")], &route("a", &[], &[]));
    assert_eq!(
        out,
        "GET /p HTTP/1.1\r\nHost: h\r\nAccept: */*\r\nX-Forwarded-For: 1.2.3.4\r\nX-Real-IP: 1.2.3.4\r\n\r\n"
    );
}

#[test]
fn client_is_added_to_those_before() {
    let out = rewritten(&[("x-forwarded-for", "9.9.9.9")], &route("a", &[], &[]));
    assert_eq!(
        out,
        "GET /p HTTP/1.1\r\nX-Forwarded-For: 9.9.9.9, 1.2.3.4\r\nX-Real-IP: 1.2.3.4\r\n\r\n"
    );
}

#[test]
fn headers_are_replaced_and_added() {
    let mut r = route("a", &[], &[]);
    r.host_header_rewrite = Some("inner".to_string());
    r.request_headers.insert("X-Env".to_string(), "prod".to_string());
    r.request_headers.insert("Accept".to_string(), "text/html".to_string());
    r.request_headers.insert("COOKIE".to_string(), "none".to_string());
    let out = rewritten(&[("Host", "h"), ("Accept", "*/*"), ("Cookie", "c")], &r);
    // A header is replaced by one of exactly its name; one that is there in another case is
    // neither replaced nor added.
    assert_eq!(
        out,
        "GET /p HTTP/1.1\r\nHost: inner\r\nAccept: text/html\r\nCookie: c\r\nX-Forwarded-For: 1.2.3.4\r\nX-Real-IP: 1.2.3.4\r\nX-Env: prod\r\n\r\n"
    );
}

#[test]
fn replaced_forwarded_for_is_written_once() {
    let mut r = route("a", &[], &[]);
    r.request_headers.insert("X-Forwarded-For".to_string(), "9.9.9.9".to_string());
    let mut info = request(&[("X-Forwarded-For", "10.0.0.1")]);
    info.path = "/".to_string();
    assert_eq!(
        rewrite_request(&info, &r, "1.2.3.4"),
        b"GET / HTTP/1.1\r\nX-Forwarded-For: 9.9.9.9\r\nX-Real-IP: 1.2.3.4\r\n\r\n"
    );
}

// ---------- credentials ----------

fn auth(values: &[&str]) -> Vec<(String, String)> {
    values
        .iter()
        .map(|v| ("authorization".to_string(), v.to_string()))
        .collect()
}

#[test]
fn first_readable_credentials_decide() {
    assert!(validate_basic_auth(&auth(&["Basic  dXNlcjpwYXNz  "]), "user", "pass"));
    assert!(validate_basic_auth(
        &auth(&["Bearer x", "Basic *", "Basic dXNlcjpwYXNz"]),
        "user",
        "pass"
    ));
    assert!(!validate_basic_auth(
        &auth(&["Basic eDp5", "Basic dXNlcjpwYXNz"]),
        "user",
        "pass"
    ));
    assert!(!validate_basic_auth(&auth(&["basic dXNlcjpwYXNz"]), "user", "pass"));
    assert!(!validate_basic_auth(&[], "user", "pass"));
}

#[test]
fn sent_credentials_are_understood() {
    for sent in ["u:p", "ü:\u{1f600}", ":", "a:b:c"] {
        let value = format!("Basic {}", simple_base64_encode(sent.as_bytes()));
        let (user, password) = sent.split_once(':').unwrap();
        assert!(validate_basic_auth(&auth(&[&value]), user, password));
        assert!(!validate_basic_auth(&auth(&[&value]), "x", password));
    }
}

#[test]
fn base64_round_trip() {
    assert_eq!(simple_base64_encode(b""), "");
    assert_eq!(simple_base64_encode(b"f"), "Zg==");
    assert_eq!(simple_base64_encode(b"fo"), "Zm8=");
    assert_eq!(simple_base64_encode(b"foo"), "Zm9v");
    assert_eq!(simple_base64_encode(&[0xfb, 0xff, 0xbf]), "+/+/");
    let all: Vec<u8> = (0..=255).collect();
    for n in 0..all.len() {
        let text = simple_base64_encode(&all[..n]);
        assert_eq!(base64_decode_bytes(&text).unwrap(), &all[..n]);
    }
}

#[test]
fn base64_is_read_leniently() {
    assert_eq!(base64_decode_bytes("Zm9vYg").unwrap(), b"foob");
    assert_eq!(base64_decode_bytes("Zm9v=Zm9v").unwrap(), b"foo");
    assert_eq!(base64_decode_bytes("Z").unwrap(), b"");
    let e = base64_decode("Zm 9v").unwrap_err();
    assert!(matches!(e, DecodeError::InvalidCharacter));
    assert_eq!(e.message(), "Invalid base64 character");
    let e = base64_decode("/w==").unwrap_err();
    match &e {
        DecodeError::InvalidUtf8(why) => {
            let bytes = base64_decode_bytes("/w==").unwrap();
            assert_eq!(*why, String::from_utf8(bytes).unwrap_err().to_string());
        }
        other => panic!("unexpected {:?}", other),
    }
    assert_eq!(e.message(), "Invalid UTF-8 in base64 decoded string");
    assert_eq!(base64_decode("w7w=").unwrap(), "ü");
}

// ---------- error pages ----------

#[test]
fn error_pages() {
    assert_eq!(
        not_found_response(None),
        "HTTP/1.1 404 Not Found\r\nContent-Type: text/html\r\nContent-Length: 48\r\nConnection: close\r\n\r\n<html><body><h1>404 Not Found</h1></body></html>"
    );
    assert_eq!(
        not_found_response(Some("ü")),
        "HTTP/1.1 404 Not Found\r\nContent-Type: text/html\r\nContent-Length: 2\r\nConnection: close\r\n\r\nü"
    );
    assert_eq!(
        unauthorized_response(),
        "HTTP/1.1 401 Unauthorized\r\nWWW-Authenticate: Basic realm=\"chagle\"\r\nContent-Type: text/html\r\nContent-Length: 51\r\nConnection: close\r\n\r\n<html><body><h1>401 Unauthorized</h1></body></html>"
    );
    assert_eq!(
        bad_gateway_response(),
        "HTTP/1.1 502 Bad Gateway\r\nContent-Type: text/html\r\nContent-Length: 50\r\nConnection: close\r\n\r\n<html><body><h1>502 Bad Gateway</h1></body></html>"
    );
}

// ---------- server names ----------

fn be16(n: usize) -> [u8; 2] {
    [(n / 256) as u8, (n % 256) as u8]
}

fn extension(kind: usize, body: &[u8]) -> Vec<u8> {
    [&be16(kind)[..], &be16(body.len())[..], body].concat()
}

fn name_list(entries: &[(u8, &[u8])]) -> Vec<u8> {
    let mut list = Vec::new();
    for (kind, name) in entries {
        list.push(*kind);
        list.extend_from_slice(&be16(name.len()));
        list.extend_from_slice(name);
    }
    [&be16(list.len())[..], &list[..]].concat()
}

fn client_hello(extensions: &[u8]) -> Vec<u8> {
    let mut h = vec![1, 0, 0, 0, 3, 3];
    h.extend_from_slice(&[7; 32]);
    h.push(4);
    h.extend_from_slice(&[9; 4]);
    h.extend_from_slice(&be16(6));
    h.extend_from_slice(&[1, 2, 3, 4, 5, 6]);
    h.push(1);
    h.push(0);
    h.extend_from_slice(&be16(extensions.len()));
    h.extend_from_slice(extensions);
    [&[0x16, 3, 1][..], &be16(h.len())[..], &h[..]].concat()
}

#[test]
fn server_name_is_found() {
    let sni = extension(0, &name_list(&[(0, b"example.com")]));
    let others = [extension(10, b"xyz"), extension(0xff01, b"")].concat();
    let behind = extension(16, b"h2");
    let buf = client_hello(&[&others[..], &sni[..], &behind[..]].concat());
    assert_eq!(extract_sni(&buf).as_deref(), Some("example.com"));
    let more = [&buf[..], b"trailing"].concat();
    assert_eq!(extract_sni(&more).as_deref(), Some("example.com"));
    assert_eq!(extract_sni(&buf[..buf.len() - 1]), None);
}

#[test]
fn other_names_are_skipped() {
    let sni = extension(0, &name_list(&[(1, b"other"), (0, b"host")]));
    assert_eq!(extract_sni(&client_hello(&sni)).as_deref(), Some("host"));
    let none = extension(0, &name_list(&[(1, b"other")]));
    assert_eq!(extract_sni(&client_hello(&none)), None);
    let again = [&none[..], &sni[..]].concat();
    assert_eq!(extract_sni(&client_hello(&again)).as_deref(), Some("host"));
}

#[test]
fn server_name_must_be_text() {
    let sni = extension(0, &name_list(&[(0, b"\xff")]));
    assert_eq!(extract_sni(&client_hello(&sni)), None);
    assert_eq!(extract_sni(&client_hello(b"")), None);
    let mut not_hello = client_hello(&sni);
    not_hello[5] = 2;
    assert_eq!(extract_sni(&not_hello), None);
}
