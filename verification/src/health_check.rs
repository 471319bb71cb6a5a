//! Whether a service is up.

use vstd::prelude::*;

use crate::config::{HealthCheckConfig, HttpHeader};
use crate::text;

verus! {

/// What is known of the health of a service.
#[derive(Debug)]
pub struct HealthStatus {
    healthy: bool,
    consecutive_failures: u32,
    max_failed: u32,
}

/// What a [`HealthStatus`] holds.
pub struct HealthView {
    pub healthy: bool,
    /// Failures since the last success, modulo the range of `u32`.
    pub failures: u32,
    /// The failures in a row after which the service counts as down.
    pub max_failed: u32,
}

/// The status after a check that passed.
pub open spec fn after_success(h: HealthView) -> HealthView {
    HealthView { healthy: true, failures: 0, ..h }
}

/// The status after a check that failed.
pub open spec fn after_failure(h: HealthView) -> HealthView {
    let failures = if h.failures == u32::MAX {
        0u32
    } else {
        (h.failures + 1) as u32
    };
    HealthView { healthy: h.healthy && failures < h.max_failed, failures, ..h }
}

/// The status after `n` checks in a row that failed.
pub open spec fn after_failures(h: HealthView, n: nat) -> HealthView
    decreases n,
{
    if n == 0 {
        h
    } else {
        after_failure(after_failures(h, (n - 1) as nat))
    }
}

impl View for HealthStatus {
    type V = HealthView;

    closed spec fn view(&self) -> HealthView {
        HealthView {
            healthy: self.healthy,
            failures: self.consecutive_failures,
            max_failed: self.max_failed,
        }
    }
}

impl HealthStatus {
    /// A service counts as up until it is checked.
    pub fn new(max_failed: u32) -> (r: Self)
        ensures
            r@ == (HealthView { healthy: true, failures: 0, max_failed }),
    {
        HealthStatus { healthy: true, consecutive_failures: 0, max_failed }
    }

    /// Whether the service counts as up.
    pub fn is_healthy(&self) -> (r: bool)
        ensures
            r == self@.healthy,
    {
        self.healthy
    }

    /// Takes in a check that passed.
    pub fn record_success(&mut self)
        ensures
            final(self)@ == after_success(old(self)@),
            final(self)@.healthy,
            final(self)@.failures == 0,
            final(self)@.max_failed == old(self)@.max_failed,
    {
        self.consecutive_failures = 0;
        self.healthy = true;
    }

    /// Takes in a check that failed.
    pub fn record_failure(&mut self)
        ensures
            final(self)@ == after_failure(old(self)@),
            final(self)@.failures == (old(self)@.failures + 1) % 0x1_0000_0000,
            final(self)@.max_failed == old(self)@.max_failed,
            final(self)@.healthy <==> old(self)@.healthy && final(self)@.failures < old(
                self,
            )@.max_failed,
    {
        self.consecutive_failures = self.consecutive_failures.wrapping_add(1);
        if self.consecutive_failures >= self.max_failed {
            self.healthy = false;
        }
    }
}

proof fn lemma_failures(h: HealthView, n: nat)
    requires
        h.healthy,
        h.failures == 0,
        n <= u32::MAX,
    ensures
        after_failures(h, n) == (HealthView {
            healthy: n == 0 || n < h.max_failed,
            failures: n as u32,
            ..h
        }),
    decreases n,
{
    if n > 0 {
        lemma_failures(h, (n - 1) as nat);
    }
}

/// After a success a service counts as up until the configured number of checks fails in a
/// row, and then as down. At least one check must fail.
pub proof fn failures_in_a_row_decide(h: HealthView, n: nat)
    requires
        n <= u32::MAX,
    ensures
        after_failures(after_success(h), n).healthy == (n == 0 || n < h.max_failed),
{
    lemma_failures(after_success(h), n);
}

/// A service that counts as down does so until a check passes.
pub proof fn down_until_success(h: HealthView)
    requires
        !h.healthy,
    ensures
        !after_failure(h).healthy,
        after_success(h).healthy,
{
}

// ---------- what is checked ----------

/// How a service is checked.
pub enum CheckPlan<'a> {
    /// By connecting.
    Tcp,
    /// By asking for this path.
    Http(&'a str),
    /// The kind of check is unknown: nothing is done.
    Unknown,
}

/// The check that the configuration asks for.
pub fn check_plan<'a>(config: &'a HealthCheckConfig) -> (r: CheckPlan<'a>)
    ensures
        match r {
            CheckPlan::Tcp => config.check_type@ == "tcp"@,
            CheckPlan::Http(path) => config.check_type@ == "http"@ && path@ == (match config.path {
                Some(p) => p@,
                None => "/"@,
            }),
            CheckPlan::Unknown => config.check_type@ != "tcp"@ && config.check_type@ != "http"@,
        },
{
    if text::str_eq(config.check_type.as_str(), "tcp") {
        CheckPlan::Tcp
    } else if text::str_eq(config.check_type.as_str(), "http") {
        match &config.path {
            Some(p) => CheckPlan::Http(p.as_str()),
            None => CheckPlan::Http("/"),
        }
    } else {
        CheckPlan::Unknown
    }
}

/// Header lines.
pub open spec fn header_lines(headers: Seq<HttpHeader>) -> Seq<char>
    decreases headers.len(),
{
    if headers.len() == 0 {
        Seq::empty()
    } else {
        header_lines(headers.drop_last()) + headers.last().name@ + ": "@ + headers.last().value@
            + "\r\n"@
    }
}

/// The request that checks a service over HTTP.
pub fn http_check_request(addr: &str, path: &str, headers: &Option<Vec<HttpHeader>>) -> (r: String)
    ensures
        r@ == "GET "@ + path@ + " HTTP/1.1\r\nHost: "@ + addr@ + "\r\n"@ + header_lines(
            match headers {
                Some(h) => h@,
                None => Seq::empty(),
            },
        ) + "Connection: close\r\n\r\n"@,
{
    let mut out = "GET ".to_string();
    out.append(path);
    out.append(" HTTP/1.1\r\nHost: ");
    out.append(addr);
    out.append("\r\n");
    let ghost start = out@;
    match headers {
        Some(list) => {
            let mut i: usize = 0;
            assert(start + header_lines(list@.take(0)) == start);
            while i < list.len()
                invariant
                    i <= list@.len(),
                    out@ == start + header_lines(list@.take(i as int)),
                decreases list@.len() - i,
            {
                proof {
                    assert(list@.take(i + 1).drop_last() == list@.take(i as int));
                    assert(list@.take(i + 1).last() == list@[i as int]);
                }
                out.append(list[i].name.as_str());
                out.append(": ");
                out.append(list[i].value.as_str());
                out.append("\r\n");
                i = i + 1;
                assert(out@ == start + header_lines(list@.take(i as int)));
            }
            assert(list@.take(i as int) == list@);
        },
        None => {
            assert(start + header_lines(Seq::<HttpHeader>::empty()) == start);
        },
    }
    out.append("Connection: close\r\n\r\n");
    out
}

/// Why an HTTP check failed.
#[derive(Debug)]
pub enum CheckError {
    /// The connection was closed without an answer.
    Empty,
    /// The answer has a status that is no success; zero where the status is no number.
    Status(u16),
    /// The answer has no status.
    Invalid(String),
}

impl CheckError {
    /// The message for the user.
    pub open spec fn text(self) -> Seq<char> {
        match self {
            CheckError::Empty => "Empty response"@,
            CheckError::Status(s) => "HTTP health check returned status "@ + text::decimal(
                s as nat,
            ),
            CheckError::Invalid(line) => "Invalid HTTP response: "@ + line@,
        }
    }

    /// Renders the error for the user.
    pub fn message(&self) -> (r: String)
        ensures
            r@ == self.text(),
            self is Empty ==> r@ == "Empty response"@,
            self matches CheckError::Status(s) ==> r@ == "HTTP health check returned status "@
                + text::decimal(*s as nat),
            self matches CheckError::Invalid(line) ==> r@ == "Invalid HTTP response: "@ + line@,
    {
        match self {
            CheckError::Empty => "Empty response".to_string(),
            CheckError::Status(s) => {
                let mut m = "HTTP health check returned status ".to_string();
                text::push_decimal(&mut m, *s as u64);
                m
            },
            CheckError::Invalid(line) => {
                let mut m = "Invalid HTTP response: ".to_string();
                m.append(line.as_str());
                m
            },
        }
    }
}

/// The status in the first line of an answer: its second word. It is zero where that word is
/// no number in the range of a status.
pub open spec fn status_of(line: Seq<char>) -> Option<u16> {
    let words = text::words(line);
    if words.len() > 1 {
        match text::port_number(words[1]) {
            Some(s) => Some(s),
            None => Some(0u16),
        }
    } else {
        None
    }
}

/// What an answer says of a service.
pub open spec fn answer_judged(answer: Seq<char>, r: Result<(), CheckError>) -> bool {
    let line = text::first_line(answer);
    match r {
        Ok(_) => status_of(line) is Some && 200 <= status_of(line).unwrap() < 300,
        Err(CheckError::Status(s)) => status_of(line) == Some(s) && !(200 <= s < 300),
        Err(CheckError::Invalid(l)) => status_of(line) is None && l@ == line,
        Err(CheckError::Empty) => false,
    }
}

/// Judges the text of an answer by its first line.
pub fn judge_answer(answer: &str) -> (r: Result<(), CheckError>)
    ensures
        answer_judged(answer@, r),
{
    let lines = text::split_lines(answer);
    let line = if lines.len() > 0 {
        lines[0]
    } else {
        ""
    };
    proof {
        reveal_strlit("");
        assert(""@ == Seq::<char>::empty());
        assert(line@ == text::first_line(answer@)) by {
            if lines@.len() > 0 {
                assert(text::contents(lines@)[0] == line@);
            }
        }
    }
    let words = text::split_words(line);
    if words.len() > 1 {
        assert(text::contents(words@)[1] == words@[1]@);
        let status = match text::parse_u16(words[1]) {
            Some(s) => s,
            None => 0,
        };
        if 200 <= status && status < 300 {
            Ok(())
        } else {
            Err(CheckError::Status(status))
        }
    } else {
        Err(CheckError::Invalid(line.to_string()))
    }
}

/// Judges what one read of the answer gave.
pub fn judge_response(bytes: &[u8]) -> (r: Result<(), CheckError>)
    ensures
        bytes@.len() == 0 <==> r == Err::<(), CheckError>(CheckError::Empty),
        bytes@.len() > 0 ==> answer_judged(text::utf8_lossy(bytes@), r),
{
    if bytes.len() == 0 {
        return Err(CheckError::Empty);
    }
    let answer = text::string_from_utf8_lossy(bytes);
    judge_answer(answer.as_str())
}

// ---------- what follows ----------

proof fn lemma_header_lines(a: Seq<HttpHeader>, b: Seq<HttpHeader>)
    ensures
        header_lines(a + b) == header_lines(a) + header_lines(b),
    decreases b.len(),
{
    if b.len() == 0 {
        assert(a + b == a);
        assert(header_lines(a) + header_lines(b) == header_lines(a));
    } else {
        assert((a + b).drop_last() == a + b.drop_last());
        assert((a + b).last() == b.last());
        lemma_header_lines(a, b.drop_last());
        assert(header_lines(a + b) == header_lines(a) + header_lines(b));
    }
}

/// Each header has a line of its own, in the order of the headers.
pub proof fn each_header_has_a_line(
    before: Seq<HttpHeader>,
    header: HttpHeader,
    after: Seq<HttpHeader>,
)
    ensures
        header_lines(before + seq![header] + after) == header_lines(before) + header.name@ + ": "@
            + header.value@ + "\r\n"@ + header_lines(after),
        header_lines(Seq::empty()) == Seq::<char>::empty(),
{
    lemma_header_lines(before + seq![header], after);
    assert((before + seq![header]).drop_last() == before);
    assert((before + seq![header]).last() == header);
}

/// An answer of HTTP is judged by the number behind the version, whatever follows: the service
/// is up if the number is a success, and else the number is told.
pub proof fn status_decides(
    version: Seq<char>,
    status: u16,
    tail: Seq<char>,
    more: Seq<char>,
    r: Result<(), CheckError>,
)
    requires
        version.len() > 0,
        forall|i: int| 0 <= i < version.len() ==> !text::is_space(#[trigger] version[i]),
        tail.len() == 0 || text::is_space(tail[0]),
        !tail.contains('\n'),
        answer_judged(
            version + seq![' '] + text::decimal(status as nat) + tail + seq!['\n'] + more,
            r,
        ),
    ensures
        200 <= status <= 299 ==> r is Ok,
        !(200 <= status <= 299) ==> r == Err::<(), _>(CheckError::Status(status)),
{
    let d = text::decimal(status as nat);
    text::decimal_reads_back(status as nat);
    assert forall|i: int| 0 <= i < d.len() implies !text::is_space(#[trigger] d[i]) by {
        assert(text::is_digit(d[i]));
    }
    text::second_word_of_first_line(version, d, tail, more);
}

/// An answer whose second word is no status tells the status zero.
pub proof fn unreadable_status_is_a_failure(
    version: Seq<char>,
    word: Seq<char>,
    tail: Seq<char>,
    more: Seq<char>,
    r: Result<(), CheckError>,
)
    requires
        version.len() > 0,
        forall|i: int| 0 <= i < version.len() ==> !text::is_space(#[trigger] version[i]),
        word.len() > 0,
        forall|i: int| 0 <= i < word.len() ==> !text::is_space(#[trigger] word[i]),
        text::port_number(word) is None,
        tail.len() == 0 || text::is_space(tail[0]),
        !tail.contains('\n'),
        answer_judged(version + seq![' '] + word + tail + seq!['\n'] + more, r),
    ensures
        r == Err::<(), _>(CheckError::Status(0)),
{
    text::second_word_of_first_line(version, word, tail, more);
}

/// An answer that is a single word is none, and that word is told.
pub proof fn single_words_are_no_answers(word: Seq<char>, r: Result<(), CheckError>)
    requires
        word.len() > 0,
        forall|i: int| 0 <= i < word.len() ==> !text::is_space(#[trigger] word[i]),
        answer_judged(word, r),
    ensures
        r matches Err(CheckError::Invalid(l)) && l@ == word,
{
    assert(!word.contains('\n'));
    text::text_is_split_into_lines(word, Seq::empty());
    text::text_is_split_into_words(Seq::empty(), word, Seq::empty());
    text::text_is_split_into_words(Seq::empty(), word, Seq::empty());
    assert(Seq::<char>::empty() + word + Seq::<char>::empty() == word);
}

} // verus!
