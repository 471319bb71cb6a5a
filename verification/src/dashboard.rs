//! The dashboard and the admin API.

use vstd::prelude::*;

use crate::base64;
use crate::metrics;
use crate::metrics::MetricsCollector;
use crate::text;

pub use crate::base64::simple_base64_encode;

verus! {

/// The page of the dashboard.
pub const DASHBOARD_HTML: &'static str = r#"<!DOCTYPE html>
<html>
<head>
    <title>Chagle Dashboard</title>
    <meta charset="utf-8">
    <style>
        body { font-family: -apple-system, BlinkMacSystemFont, 'Segoe UI', sans-serif; margin: 20px; background: #f5f5f5; }
        h1 { color: #333; }
        .card { background: white; border-radius: 8px; padding: 20px; margin: 10px 0; box-shadow: 0 2px 4px rgba(0,0,0,0.1); }
        table { width: 100%; border-collapse: collapse; }
        th, td { text-align: left; padding: 8px 12px; border-bottom: 1px solid #eee; }
        th { background: #f8f8f8; font-weight: 600; }
        .status-ok { color: #22c55e; }
        .status-err { color: #ef4444; }
        #status { min-height: 100px; }
    </style>
</head>
<body>
    <h1>Chagle Dashboard</h1>
    <div class="card">
        <h2>Proxy Status</h2>
        <div id="status">Loading...</div>
    </div>
    <script>
        async function refresh() {
            try {
                const resp = await fetch('/api/status');
                const data = await resp.json();
                let html = '<table><tr><th>Proxy</th><th>Connections In</th><th>Connections Out</th><th>Bytes In</th><th>Bytes Out</th></tr>';
                for (const [name, stats] of Object.entries(data)) {
                    html += `<tr><td>${name}</td><td>${stats.connections_in}</td><td>${stats.connections_out}</td><td>${formatBytes(stats.bytes_in)}</td><td>${formatBytes(stats.bytes_out)}</td></tr>`;
                }
                html += '</table>';
                document.getElementById('status').innerHTML = html;
            } catch(e) {
                document.getElementById('status').innerHTML = '<p class="status-err">Failed to load status</p>';
            }
        }
        function formatBytes(b) {
            if (b > 1073741824) return (b/1073741824).toFixed(2) + ' GB';
            if (b > 1048576) return (b/1048576).toFixed(2) + ' MB';
            if (b > 1024) return (b/1024).toFixed(2) + ' KB';
            return b + ' B';
        }
        refresh();
        setInterval(refresh, 5000);
    </script>
</body>
</html>"#;

/// What the dashboard does with a request.
#[derive(Debug, Clone, Copy, PartialEq, Eq, Structural)]
pub enum DashboardAction {
    /// It is no request: nothing is sent back.
    Ignore,
    /// The credentials are missing or wrong.
    Unauthorized,
    /// The metrics in the format of Prometheus.
    Metrics,
    /// The counters of the proxies.
    Status,
    /// Whether the server is up.
    Health,
    /// The page of the dashboard.
    Index,
    NotFound,
}

/// The first line that holds an `Authorization` header.
pub open spec fn authorization_line(lines: Seq<Seq<char>>) -> Option<Seq<char>>
    decreases lines.len(),
{
    if lines.len() == 0 {
        None
    } else if text::begins_ignoring_case(lines[0], "authorization:"@) {
        Some(lines[0])
    } else {
        authorization_line(lines.skip(1))
    }
}

/// Whether a request has the right credentials: the last word of its `Authorization` header
/// is the Base64 of them.
pub open spec fn is_authorized(request: Seq<char>, user: Seq<char>, password: Seq<char>) -> bool {
    match authorization_line(text::lines(request)) {
        Some(line) => text::words(line).len() > 0 && text::words(line).last() == base64::encoded(
            vstd::utf8::encode_utf8(user + ":"@ + password),
        ),
        None => false,
    }
}

/// What a path leads to.
pub open spec fn action_for(path: Seq<char>, enable_prometheus: bool) -> DashboardAction {
    if path == "/metrics"@ && enable_prometheus {
        DashboardAction::Metrics
    } else if path == "/api/status"@ {
        DashboardAction::Status
    } else if path == "/api/health"@ {
        DashboardAction::Health
    } else if path == "/"@ {
        DashboardAction::Index
    } else {
        DashboardAction::NotFound
    }
}

/// What the dashboard does with a request. The second word of the first line is the path. The
/// credentials count only where both a user and a password are configured.
pub open spec fn action_of(
    request: Seq<char>,
    user: Option<Seq<char>>,
    password: Option<Seq<char>>,
    enable_prometheus: bool,
) -> DashboardAction {
    let words = text::words(text::first_line(request));
    if words.len() < 2 {
        DashboardAction::Ignore
    } else if user is Some && password is Some && !is_authorized(
        request,
        user.unwrap(),
        password.unwrap(),
    ) {
        DashboardAction::Unauthorized
    } else {
        action_for(words[1], enable_prometheus)
    }
}

/// Computes [`is_authorized`] from the lines of a request.
fn check_authorization(lines: &Vec<&str>, user: &str, password: &str) -> (r: bool)
    ensures
        r == match authorization_line(text::contents(lines@)) {
            Some(line) => text::words(line).len() > 0 && text::words(line).last()
                == base64::encoded(vstd::utf8::encode_utf8(user@ + ":"@ + password@)),
            None => false,
        },
{
    let ghost all = text::contents(lines@);
    let mut i: usize = 0;
    assert(all.skip(0) == all);
    while i < lines.len()
        invariant
            i <= lines@.len(),
            all == text::contents(lines@),
            authorization_line(all) == authorization_line(all.skip(i as int)),
        decreases lines@.len() - i,
    {
        let line = lines[i];
        proof {
            assert(all.skip(i as int)[0] == line@);
            assert(all.skip(i as int).skip(1) == all.skip(i + 1));
        }
        if text::starts_with_ignoring_case(line, "authorization:") {
            let words = text::split_words(line);
            if words.len() == 0 {
                return false;
            }
            let mut expected = user.to_string();
            expected.append(":");
            expected.append(password);
            let encoded = base64::simple_base64_encode(expected.as_str().as_bytes());
            let last = words[words.len() - 1];
            assert(text::contents(words@).last() == last@);
            return text::str_eq(last, encoded.as_str());
        }
        i = i + 1;
    }
    assert(all.skip(i as int) == Seq::<Seq<char>>::empty());
    false
}

/// Computes [`action_for`].
fn choose_action(path: &str, enable_prometheus: bool) -> (r: DashboardAction)
    ensures
        r == action_for(path@, enable_prometheus),
{
    if enable_prometheus && text::str_eq(path, "/metrics") {
        DashboardAction::Metrics
    } else if text::str_eq(path, "/api/status") {
        DashboardAction::Status
    } else if text::str_eq(path, "/api/health") {
        DashboardAction::Health
    } else if text::str_eq(path, "/") {
        DashboardAction::Index
    } else {
        DashboardAction::NotFound
    }
}

/// Computes [`action_of`].
pub fn request_action(
    request: &str,
    user: Option<&str>,
    password: Option<&str>,
    enable_prometheus: bool,
) -> (r: DashboardAction)
    ensures
        r == action_of(
            request@,
            text::opt_str(user),
            text::opt_str(password),
            enable_prometheus,
        ),
{
    let lines = text::split_lines(request);
    let first = if lines.len() > 0 {
        lines[0]
    } else {
        ""
    };
    proof {
        reveal_strlit("");
        assert(""@ == Seq::<char>::empty());
        assert(first@ == text::first_line(request@)) by {
            if lines@.len() > 0 {
                assert(text::contents(lines@)[0] == first@);
            }
        }
    }
    let words = text::split_words(first);
    if words.len() < 2 {
        return DashboardAction::Ignore;
    }
    assert(text::contents(words@)[1] == words@[1]@);
    if let (Some(u), Some(p)) = (user, password) {
        if !check_authorization(&lines, u, p) {
            return DashboardAction::Unauthorized;
        }
    }
    choose_action(words[1], enable_prometheus)
}

/// Decides on a request that came as bytes. Without any bytes the connection was closed.
pub fn handle_bytes(
    bytes: &[u8],
    user: Option<&str>,
    password: Option<&str>,
    enable_prometheus: bool,
) -> (r: DashboardAction)
    ensures
        r == (if bytes@.len() == 0 {
            DashboardAction::Ignore
        } else {
            action_of(
                text::utf8_lossy(bytes@),
                text::opt_str(user),
                text::opt_str(password),
                enable_prometheus,
            )
        }),
{
    if bytes.len() == 0 {
        return DashboardAction::Ignore;
    }
    let request = text::string_from_utf8_lossy(bytes);
    request_action(request.as_str(), user, password, enable_prometheus)
}

// ---------- answers ----------

/// An answer with a body: what stands before its length, its length in bytes, and itself.
pub open spec fn answer_text(head: Seq<char>, body: Seq<char>) -> Seq<char> {
    head + "Content-Length: "@ + text::decimal(vstd::utf8::encode_utf8(body).len())
        + "\r\n\r\n"@ + body
}

/// The answer to a request, where there is one. `status` is the JSON text of the counters of
/// the proxies.
pub open spec fn answer_of(
    action: DashboardAction,
    metrics: MetricsCollector,
    status: Seq<char>,
) -> Option<Seq<char>> {
    match action {
        DashboardAction::Ignore => None,
        DashboardAction::Unauthorized => Some(
            "HTTP/1.1 401 Unauthorized\r\nWWW-Authenticate: Basic realm=\"chagle\"\r\nContent-Length: 12\r\n\r\nUnauthorized"@,
        ),
        DashboardAction::Metrics => Some(
            answer_text(
                "HTTP/1.1 200 OK\r\nContent-Type: text/plain; charset=utf-8\r\n"@,
                metrics::prometheus_text(metrics.server(), metrics.proxies()),
            ),
        ),
        DashboardAction::Status => Some(
            answer_text("HTTP/1.1 200 OK\r\nContent-Type: application/json\r\n"@, status),
        ),
        DashboardAction::Health => Some(
            answer_text(
                "HTTP/1.1 200 OK\r\nContent-Type: application/json\r\n"@,
                "{\"status\":\"ok\"}"@,
            ),
        ),
        DashboardAction::Index => Some(
            answer_text(
                "HTTP/1.1 200 OK\r\nContent-Type: text/html; charset=utf-8\r\n"@,
                DASHBOARD_HTML@,
            ),
        ),
        DashboardAction::NotFound => Some(
            answer_text("HTTP/1.1 404 Not Found\r\n"@, "Not Found"@),
        ),
    }
}

/// Writes an answer with a body.
fn write_answer(head: &str, body: &str) -> (r: String)
    ensures
        r@ == answer_text(head@, body@),
{
    let mut out = head.to_string();
    out.append("Content-Length: ");
    text::push_decimal(&mut out, text::byte_len(body) as u64);
    out.append("\r\n\r\n");
    out.append(body);
    out
}

/// The page of the dashboard.
pub fn dashboard_html() -> (r: String)
    ensures
        r@ == DASHBOARD_HTML@,
{
    DASHBOARD_HTML.to_string()
}

/// Writes the answer to a request.
pub fn answer(action: DashboardAction, metrics: &MetricsCollector, status: &str) -> (r: Option<
    String,
>)
    ensures
        match r {
            Some(a) => answer_of(action, *metrics, status@) == Some(a@),
            None => answer_of(action, *metrics, status@) is None,
        },
{
    match action {
        DashboardAction::Ignore => None,
        DashboardAction::Unauthorized => Some(
            "HTTP/1.1 401 Unauthorized\r\nWWW-Authenticate: Basic realm=\"chagle\"\r\nContent-Length: 12\r\n\r\nUnauthorized".to_string(),
        ),
        DashboardAction::Metrics => {
            let body = metrics.prometheus_output();
            Some(
                write_answer(
                    "HTTP/1.1 200 OK\r\nContent-Type: text/plain; charset=utf-8\r\n",
                    body.as_str(),
                ),
            )
        },
        DashboardAction::Status => Some(
            write_answer("HTTP/1.1 200 OK\r\nContent-Type: application/json\r\n", status),
        ),
        DashboardAction::Health => Some(
            write_answer(
                "HTTP/1.1 200 OK\r\nContent-Type: application/json\r\n",
                "{\"status\":\"ok\"}",
            ),
        ),
        DashboardAction::Index => {
            let body = dashboard_html();
            Some(
                write_answer(
                    "HTTP/1.1 200 OK\r\nContent-Type: text/html; charset=utf-8\r\n",
                    body.as_str(),
                ),
            )
        },
        DashboardAction::NotFound => Some(
            write_answer("HTTP/1.1 404 Not Found\r\n", "Not Found"),
        ),
    }
}

// ---------- what follows ----------

/// Without a configured user or password every request is served.
pub proof fn open_without_credentials(
    request: Seq<char>,
    user: Option<Seq<char>>,
    password: Option<Seq<char>>,
    enable_prometheus: bool,
)
    requires
        user is None || password is None,
    ensures
        action_of(request, user, password, enable_prometheus) != DashboardAction::Unauthorized,
{
}

/// Where credentials are configured, a request whose first `Authorization` header ends in the
/// Base64 of what it sends is served if that is right and refused if it is wrong.
pub proof fn encoded_credentials_decide(
    request: Seq<char>,
    head: Seq<char>,
    sent: Seq<char>,
    user: Seq<char>,
    password: Seq<char>,
)
    requires
        authorization_line(text::lines(request)) == Some(
            head + base64::encoded(vstd::utf8::encode_utf8(sent)),
        ),
        head.len() > 0,
        text::is_space(head.last()),
        sent.len() > 0,
    ensures
        is_authorized(request, user, password) == (sent == user + ":"@ + password),
{
    let bytes = vstd::utf8::encode_utf8(sent);
    let right = user + ":"@ + password;
    let e = base64::encoded(bytes);
    assert forall|k: int| 0 <= k < e.len() implies !text::is_space(#[trigger] e[k]) by {
        assert(e[k] == base64::encoded_char(bytes, k));
    }
    vstd::utf8::encode_utf8_decode_utf8(sent);
    vstd::utf8::encode_utf8_decode_utf8(right);
    assert(bytes.len() > 0) by {
        if bytes.len() == 0 {
            assert(bytes == Seq::<u8>::empty());
            vstd::utf8::encode_utf8_decode_utf8(Seq::<char>::empty());
            assert(vstd::utf8::encode_utf8(Seq::<char>::empty()) == Seq::<u8>::empty());
        }
    }
    text::lemma_last_word(head, e);
    base64::decode_undoes_encode(bytes);
    base64::decode_undoes_encode(vstd::utf8::encode_utf8(right));
}

/// The lines before the first `Authorization` header do not matter, nor do those behind it.
pub proof fn first_authorization_header_counts(
    before: Seq<Seq<char>>,
    line: Seq<char>,
    after: Seq<Seq<char>>,
)
    requires
        forall|i: int|
            0 <= i < before.len() ==> !text::begins_ignoring_case(
                #[trigger] before[i],
                "authorization:"@,
            ),
    ensures
        text::begins_ignoring_case(line, "authorization:"@) ==> authorization_line(
            before + seq![line] + after,
        ) == Some(line),
        authorization_line(before) is None,
    decreases before.len(),
{
    let all = before + seq![line] + after;
    if before.len() == 0 {
        assert(all[0] == line);
    } else {
        assert(all[0] == before[0]);
        assert(all.skip(1) == before.skip(1) + seq![line] + after);
        assert forall|i: int| 0 <= i < before.skip(1).len() implies !text::begins_ignoring_case(
            #[trigger] before.skip(1)[i],
            "authorization:"@,
        ) by {
            assert(before.skip(1)[i] == before[i + 1]);
        }
        first_authorization_header_counts(before.skip(1), line, after);
    }
}

/// A request with a method and a path is served by its path, unless credentials are asked for
/// and it lacks them.
pub proof fn paths_lead_to_their_answers(
    method: Seq<char>,
    path: Seq<char>,
    tail: Seq<char>,
    more: Seq<char>,
    user: Option<Seq<char>>,
    password: Option<Seq<char>>,
    enable_prometheus: bool,
)
    requires
        method.len() > 0,
        forall|i: int| 0 <= i < method.len() ==> !text::is_space(#[trigger] method[i]),
        path.len() > 0,
        forall|i: int| 0 <= i < path.len() ==> !text::is_space(#[trigger] path[i]),
        tail.len() == 0 || text::is_space(tail[0]),
        !tail.contains('\n'),
    ensures
        ({
            let request = method + seq![' '] + path + tail + seq!['\n'] + more;
            let action = action_of(request, user, password, enable_prometheus);
            let refused = user is Some && password is Some && !is_authorized(
                request,
                user.unwrap(),
                password.unwrap(),
            );
            &&& action != DashboardAction::Ignore
            &&& action == DashboardAction::Unauthorized <==> refused
            &&& action == DashboardAction::Metrics <==> !refused && path == "/metrics"@
                && enable_prometheus
            &&& action == DashboardAction::Status <==> !refused && path == "/api/status"@
            &&& action == DashboardAction::Health <==> !refused && path == "/api/health"@
            &&& action == DashboardAction::Index <==> !refused && path == "/"@
        }),
{
    reveal_strlit("/metrics");
    reveal_strlit("/api/status");
    reveal_strlit("/api/health");
    reveal_strlit("/");
    assert("/metrics"@.len() == 8 && "/api/status"@.len() == 11 && "/api/health"@.len() == 11
        && "/"@.len() == 1);
    assert("/api/status"@[5] == 's' && "/api/health"@[5] == 'h');
    text::second_word_of_first_line(method, path, tail, more);
}

/// A first line with less than two words is no request.
pub proof fn single_words_are_ignored(
    word: Seq<char>,
    user: Option<Seq<char>>,
    password: Option<Seq<char>>,
    enable_prometheus: bool,
)
    requires
        forall|i: int| 0 <= i < word.len() ==> !text::is_space(#[trigger] word[i]),
    ensures
        action_of(word, user, password, enable_prometheus) == DashboardAction::Ignore,
{
    assert(!word.contains('\n'));
    text::text_is_split_into_lines(word, Seq::empty());
    text::text_is_split_into_words(Seq::empty(), seq!['x'], Seq::empty());
    if word.len() > 0 {
        text::text_is_split_into_words(Seq::empty(), word, Seq::empty());
        assert(Seq::<char>::empty() + word + Seq::<char>::empty() == word);
    } else {
        assert(word == Seq::<char>::empty());
    }
}

/// Every request gets an answer with a status, the length of the body in bytes and the body. A
/// page that is served has the status of a success.
pub proof fn answers_carry_their_body(metrics: MetricsCollector, status: Seq<char>)
    ensures
        answer_of(DashboardAction::Ignore, metrics, status) is None,
        answer_of(DashboardAction::Metrics, metrics, status) == Some(
            "HTTP/1.1 200 OK\r\nContent-Type: text/plain; charset=utf-8\r\n"@
                + "Content-Length: "@ + text::decimal(
                vstd::utf8::encode_utf8(
                    metrics::prometheus_text(metrics.server(), metrics.proxies()),
                ).len(),
            ) + "\r\n\r\n"@ + metrics::prometheus_text(metrics.server(), metrics.proxies()),
        ),
        answer_of(DashboardAction::Status, metrics, status) == Some(
            "HTTP/1.1 200 OK\r\nContent-Type: application/json\r\n"@ + "Content-Length: "@
                + text::decimal(vstd::utf8::encode_utf8(status).len()) + "\r\n\r\n"@ + status,
        ),
        answer_of(DashboardAction::Health, metrics, status) == Some(
            "HTTP/1.1 200 OK\r\nContent-Type: application/json\r\n"@ + "Content-Length: "@
                + text::decimal(vstd::utf8::encode_utf8("{\"status\":\"ok\"}"@).len())
                + "\r\n\r\n"@ + "{\"status\":\"ok\"}"@,
        ),
        answer_of(DashboardAction::Index, metrics, status) == Some(
            "HTTP/1.1 200 OK\r\nContent-Type: text/html; charset=utf-8\r\n"@
                + "Content-Length: "@ + text::decimal(
                vstd::utf8::encode_utf8(DASHBOARD_HTML@).len(),
            ) + "\r\n\r\n"@ + DASHBOARD_HTML@,
        ),
        answer_of(DashboardAction::NotFound, metrics, status) == Some(
            "HTTP/1.1 404 Not Found\r\n"@ + "Content-Length: "@ + text::decimal(
                vstd::utf8::encode_utf8("Not Found"@).len(),
            ) + "\r\n\r\n"@ + "Not Found"@,
        ),
        answer_of(DashboardAction::Unauthorized, metrics, status) == Some(
            "HTTP/1.1 401 Unauthorized\r\nWWW-Authenticate: Basic realm=\"chagle\"\r\nContent-Length: 12\r\n\r\nUnauthorized"@,
        ),
{
}

/// A request has the right credentials exactly where it has an `Authorization` header and the
/// last word of the first one is the Base64 of the user, a colon and the password.
pub proof fn only_right_credentials_are_accepted(
    request: Seq<char>,
    user: Seq<char>,
    password: Seq<char>,
)
    ensures
        authorization_line(text::lines(request)) is None ==> !is_authorized(
            request,
            user,
            password,
        ),
        authorization_line(text::lines(request)) matches Some(line) ==> (is_authorized(
            request,
            user,
            password,
        ) <==> text::words(line).len() > 0 && text::words(line).last() == base64::encoded(
            vstd::utf8::encode_utf8(user + seq![':'] + password),
        )),
{
    reveal_strlit(":");
    assert(":"@ == seq![':']);
}

} // verus!
