//! What the server counts.

use vstd::prelude::*;

use crate::entries;
use crate::name_map::NameMap;
use crate::text;

verus! {

/// A counter after `n` more, modulo the range of `u64`.
pub open spec fn counted(c: u64, n: u64) -> u64 {
    if c + n > u64::MAX {
        (c + n - u64::MAX - 1) as u64
    } else {
        (c + n) as u64
    }
}

/// A counter after one less, modulo the range of `u64`.
pub open spec fn discounted(c: u64) -> u64 {
    if c == 0 {
        u64::MAX
    } else {
        (c - 1) as u64
    }
}

/// What is counted of one proxy.
#[derive(Debug)]
pub struct ProxyMetrics {
    pub connections_in: u64,
    pub connections_out: u64,
    pub bytes_in: u64,
    pub bytes_out: u64,
}

impl ProxyMetrics {
    /// Counters at zero.
    pub open spec fn zero() -> ProxyMetrics {
        ProxyMetrics { connections_in: 0, connections_out: 0, bytes_in: 0, bytes_out: 0 }
    }

    /// Counts a connection from outside.
    pub fn record_connection_in(&mut self)
        ensures
            *final(self) == (ProxyMetrics {
                connections_in: counted(old(self).connections_in, 1),
                ..*old(self)
            }),
    {
        self.connections_in = self.connections_in.wrapping_add(1);
    }

    /// Counts a connection to the service.
    pub fn record_connection_out(&mut self)
        ensures
            *final(self) == (ProxyMetrics {
                connections_out: counted(old(self).connections_out, 1),
                ..*old(self)
            }),
    {
        self.connections_out = self.connections_out.wrapping_add(1);
    }

    /// Counts bytes that came in.
    pub fn record_bytes_in(&mut self, n: u64)
        ensures
            *final(self) == (ProxyMetrics {
                bytes_in: counted(old(self).bytes_in, n),
                ..*old(self)
            }),
    {
        self.bytes_in = self.bytes_in.wrapping_add(n);
    }

    /// Counts bytes that went out.
    pub fn record_bytes_out(&mut self, n: u64)
        ensures
            *final(self) == (ProxyMetrics {
                bytes_out: counted(old(self).bytes_out, n),
                ..*old(self)
            }),
    {
        self.bytes_out = self.bytes_out.wrapping_add(n);
    }

    /// The counters as they are now.
    pub fn snapshot(&self) -> (r: MetricsSnapshot)
        ensures
            r == (MetricsSnapshot {
                connections_in: self.connections_in,
                connections_out: self.connections_out,
                bytes_in: self.bytes_in,
                bytes_out: self.bytes_out,
            }),
    {
        MetricsSnapshot {
            connections_in: self.connections_in,
            connections_out: self.connections_out,
            bytes_in: self.bytes_in,
            bytes_out: self.bytes_out,
        }
    }
}

impl Default for ProxyMetrics {
    fn default() -> (r: Self)
        ensures
            r == ProxyMetrics::zero(),
    {
        ProxyMetrics { connections_in: 0, connections_out: 0, bytes_in: 0, bytes_out: 0 }
    }
}

/// The counters of a proxy at one moment.
#[derive(Debug, Clone, Copy, PartialEq, Eq)]
pub struct MetricsSnapshot {
    pub connections_in: u64,
    pub connections_out: u64,
    pub bytes_in: u64,
    pub bytes_out: u64,
}

/// What is counted of the server as a whole.
#[derive(Debug)]
pub struct ServerMetrics {
    pub total_connections: u64,
    pub active_connections: u64,
    pub total_proxies: u64,
}

impl Default for ServerMetrics {
    fn default() -> (r: Self)
        ensures
            r == (ServerMetrics { total_connections: 0, active_connections: 0, total_proxies: 0 }),
    {
        ServerMetrics { total_connections: 0, active_connections: 0, total_proxies: 0 }
    }
}

/// All counters.
#[derive(Debug)]
pub struct MetricsCollector {
    proxies: NameMap<ProxyMetrics>,
    server_metrics: ServerMetrics,
}

/// One of the counters of a proxy.
#[derive(Copy, Clone)]
pub enum ProxyCounter {
    ConnectionsIn,
    ConnectionsOut,
    BytesIn,
    BytesOut,
}

impl ProxyCounter {
    /// The name of the counter in the output.
    pub open spec fn name(self) -> Seq<char> {
        match self {
            ProxyCounter::ConnectionsIn => "chagle_proxy_connections_in"@,
            ProxyCounter::ConnectionsOut => "chagle_proxy_connections_out"@,
            ProxyCounter::BytesIn => "chagle_proxy_bytes_in"@,
            ProxyCounter::BytesOut => "chagle_proxy_bytes_out"@,
        }
    }

    /// What the output says of the counter.
    pub open spec fn help(self) -> Seq<char> {
        match self {
            ProxyCounter::ConnectionsIn => "Inbound connections per proxy"@,
            ProxyCounter::ConnectionsOut => "Outbound connections per proxy"@,
            ProxyCounter::BytesIn => "Bytes received per proxy"@,
            ProxyCounter::BytesOut => "Bytes sent per proxy"@,
        }
    }

    /// The value of the counter.
    pub open spec fn of(self, m: ProxyMetrics) -> u64 {
        match self {
            ProxyCounter::ConnectionsIn => m.connections_in,
            ProxyCounter::ConnectionsOut => m.connections_out,
            ProxyCounter::BytesIn => m.bytes_in,
            ProxyCounter::BytesOut => m.bytes_out,
        }
    }

    /// Computes [`name`](Self::name).
    fn label(self) -> (r: &'static str)
        ensures
            r@ == self.name(),
    {
        match self {
            ProxyCounter::ConnectionsIn => "chagle_proxy_connections_in",
            ProxyCounter::ConnectionsOut => "chagle_proxy_connections_out",
            ProxyCounter::BytesIn => "chagle_proxy_bytes_in",
            ProxyCounter::BytesOut => "chagle_proxy_bytes_out",
        }
    }

    /// Computes [`help`](Self::help).
    fn explanation(self) -> (r: &'static str)
        ensures
            r@ == self.help(),
    {
        match self {
            ProxyCounter::ConnectionsIn => "Inbound connections per proxy",
            ProxyCounter::ConnectionsOut => "Outbound connections per proxy",
            ProxyCounter::BytesIn => "Bytes received per proxy",
            ProxyCounter::BytesOut => "Bytes sent per proxy",
        }
    }

    /// Computes [`of`](Self::of).
    fn value(self, m: &ProxyMetrics) -> (r: u64)
        ensures
            r == self.of(*m),
    {
        match self {
            ProxyCounter::ConnectionsIn => m.connections_in,
            ProxyCounter::ConnectionsOut => m.connections_out,
            ProxyCounter::BytesIn => m.bytes_in,
            ProxyCounter::BytesOut => m.bytes_out,
        }
    }
}

/// What stands before the values of a metric.
pub open spec fn metric_head(name: Seq<char>, help: Seq<char>, kind: Seq<char>) -> Seq<char> {
    "# HELP "@ + name + " "@ + help + "\n# TYPE "@ + name + " "@ + kind + "\n"@
}

/// A metric of the server.
pub open spec fn server_metric(
    name: Seq<char>,
    help: Seq<char>,
    kind: Seq<char>,
    value: u64,
) -> Seq<char> {
    metric_head(name, help, kind) + name + " "@ + text::decimal(value as nat) + "\n"@
}

/// The values of a counter, a line for each proxy.
pub open spec fn counter_lines(
    entries: Seq<(String, ProxyMetrics)>,
    counter: ProxyCounter,
) -> Seq<char>
    decreases entries.len(),
{
    if entries.len() == 0 {
        Seq::empty()
    } else {
        counter_lines(entries.drop_last(), counter) + counter.name() + "{proxy=\""@
            + entries.last().0@ + "\"} "@ + text::decimal(counter.of(entries.last().1) as nat)
            + "\n"@
    }
}

/// A counter of all proxies.
pub open spec fn proxy_metric(
    entries: Seq<(String, ProxyMetrics)>,
    counter: ProxyCounter,
) -> Seq<char> {
    "\n"@ + metric_head(counter.name(), counter.help(), "counter"@) + counter_lines(
        entries,
        counter,
    )
}

/// All metrics in the text format of Prometheus.
pub open spec fn prometheus_text(
    server: ServerMetrics,
    entries: Seq<(String, ProxyMetrics)>,
) -> Seq<char> {
    server_metric(
        "chagle_server_connections_total"@,
        "Total connections received"@,
        "counter"@,
        server.total_connections,
    ) + server_metric(
        "chagle_server_connections_active"@,
        "Active connections"@,
        "gauge"@,
        server.active_connections,
    ) + proxy_metric(entries, ProxyCounter::ConnectionsIn) + proxy_metric(
        entries,
        ProxyCounter::ConnectionsOut,
    ) + proxy_metric(entries, ProxyCounter::BytesIn) + proxy_metric(
        entries,
        ProxyCounter::BytesOut,
    )
}

/// Writes what stands before the values of a metric.
fn push_metric_head(out: &mut String, name: &str, help: &str, kind: &str)
    ensures
        final(out)@ == old(out)@ + metric_head(name@, help@, kind@),
{
    out.append("# HELP ");
    out.append(name);
    out.append(" ");
    out.append(help);
    out.append("\n# TYPE ");
    out.append(name);
    out.append(" ");
    out.append(kind);
    out.append("\n");
    assert(out@ == old(out)@ + metric_head(name@, help@, kind@));
}

/// Writes a metric of the server.
fn push_server_metric(out: &mut String, name: &str, help: &str, kind: &str, value: u64)
    ensures
        final(out)@ == old(out)@ + server_metric(name@, help@, kind@, value),
{
    push_metric_head(out, name, help, kind);
    out.append(name);
    out.append(" ");
    text::push_decimal(out, value);
    out.append("\n");
    assert(out@ == old(out)@ + server_metric(name@, help@, kind@, value));
}

/// Writes a counter of all proxies.
fn push_proxy_metric(out: &mut String, proxies: &NameMap<ProxyMetrics>, counter: ProxyCounter)
    ensures
        final(out)@ == old(out)@ + proxy_metric(proxies.entries(), counter),
{
    out.append("\n");
    push_metric_head(out, counter.label(), counter.explanation(), "counter");
    let ghost start = out@;
    let ghost entries = proxies.entries();
    let mut i: usize = 0;
    assert(start + counter_lines(entries.take(0), counter) == start);
    while i < proxies.len()
        invariant
            entries == proxies.entries(),
            i <= entries.len(),
            out@ == start + counter_lines(entries.take(i as int), counter),
        decreases entries.len() - i,
    {
        proof {
            assert(entries.take(i + 1).drop_last() == entries.take(i as int));
            assert(entries.take(i + 1).last() == entries[i as int]);
        }
        out.append(counter.label());
        out.append("{proxy=\"");
        out.append(proxies.name_at(i));
        out.append("\"} ");
        text::push_decimal(out, counter.value(proxies.value_at(i)));
        out.append("\n");
        i = i + 1;
        assert(out@ == start + counter_lines(entries.take(i as int), counter));
    }
    assert(entries.take(i as int) == entries);
    assert(out@ == old(out)@ + proxy_metric(entries, counter));
}

impl MetricsCollector {
    /// The counters of the server.
    pub closed spec fn server(&self) -> ServerMetrics {
        self.server_metrics
    }

    /// The counters of the proxies, in the order in which they were first asked for.
    pub closed spec fn proxies(&self) -> Seq<(String, ProxyMetrics)> {
        self.proxies.entries()
    }

    /// Makes a collector with all counters at zero.
    pub fn new() -> (r: Self)
        ensures
            r.proxies() == Seq::<(String, ProxyMetrics)>::empty(),
            r.server() == (ServerMetrics {
                total_connections: 0,
                active_connections: 0,
                total_proxies: 0,
            }),
    {
        MetricsCollector { proxies: NameMap::new(), server_metrics: ServerMetrics::default() }
    }

    /// The counters of a proxy. A proxy that was not known starts at zero.
    pub fn get_or_create_proxy(&mut self, name: &str) -> (r: &mut ProxyMetrics)
        ensures
            ({
                let known = entries::as_map(old(self).proxies());
                let start = if known.dom().contains(name@) {
                    known[name@]
                } else {
                    ProxyMetrics::zero()
                };
                &&& *r == start
                &&& entries::as_map(final(self).proxies()) == known.insert(name@, *final(r))
                &&& if known.dom().contains(name@) {
                    let p = entries::position(old(self).proxies(), name@);
                    final(self).proxies() == old(self).proxies().update(
                        p,
                        (old(self).proxies()[p].0, *final(r)),
                    )
                } else {
                    &&& final(self).proxies().len() == old(self).proxies().len() + 1
                    &&& final(self).proxies().drop_last() == old(self).proxies()
                    &&& final(self).proxies().last().0@ == name@
                    &&& final(self).proxies().last().1 == *final(r)
                }
                &&& entries::keys_differ(old(self).proxies()) ==> entries::keys_differ(
                    final(self).proxies(),
                )
                &&& final(self).server() == old(self).server()
            }),
    {
        let ghost before = self.proxies@;
        let i = match self.proxies.find(name) {
            Some(i) => i,
            None => {
                let n = self.proxies.len();
                self.proxies.insert(name.to_string(), ProxyMetrics::default());
                n
            },
        };
        let ghost mid = self.proxies.entries();
        proof {
            entries::lemma_position_bounds(old(self).proxies(), name@);
            entries::lemma_position_bounds(mid, name@);
            assert(entries::as_map(mid).dom().contains(name@));
            if !before.dom().contains(name@) {
                assert forall|j: int| 0 <= j < i implies (#[trigger] mid[j]).0@ != name@ by {
                    assert(mid[j] == old(self).proxies()[j]);
                }
                entries::lemma_position(mid, name@, i as int);
            }
        }
        let r = self.proxies.value_at_mut(i);
        proof {
            entries::lemma_insert_at(mid, name@, *final(r));
            assert(before.insert(name@, ProxyMetrics::zero()).insert(name@, *final(r))
                =~= before.insert(name@, *final(r)));
        }
        r
    }

    /// Forgets a proxy.
    pub fn remove_proxy(&mut self, name: &str)
        ensures
            entries::as_map(final(self).proxies()) == entries::as_map(
                old(self).proxies(),
            ).remove(name@),
            final(self).proxies() == entries::without(old(self).proxies(), name@),
            entries::keys_differ(old(self).proxies()) ==> entries::keys_differ(
                final(self).proxies(),
            ),
            final(self).server() == old(self).server(),
    {
        self.proxies.remove(name);
    }

    /// Counts a connection that was opened.
    pub fn record_connection(&mut self)
        ensures
            final(self).proxies() == old(self).proxies(),
            final(self).server() == after_connection(old(self).server()),
    {
        self.server_metrics.total_connections = self.server_metrics.total_connections.wrapping_add(1);
        self.server_metrics.active_connections = self.server_metrics.active_connections.wrapping_add(
            1,
        );
    }

    /// Counts a connection that was closed.
    pub fn record_disconnection(&mut self)
        ensures
            final(self).proxies() == old(self).proxies(),
            final(self).server() == after_disconnection(old(self).server()),
    {
        self.server_metrics.active_connections = self.server_metrics.active_connections.wrapping_sub(
            1,
        );
    }

    /// Writes all metrics in the text format of Prometheus.
    pub fn prometheus_output(&self) -> (r: String)
        ensures
            r@ == prometheus_text(self.server(), self.proxies()),
    {
        let mut out = String::new();
        push_server_metric(
            &mut out,
            "chagle_server_connections_total",
            "Total connections received",
            "counter",
            self.server_metrics.total_connections,
        );
        push_server_metric(
            &mut out,
            "chagle_server_connections_active",
            "Active connections",
            "gauge",
            self.server_metrics.active_connections,
        );
        push_proxy_metric(&mut out, &self.proxies, ProxyCounter::ConnectionsIn);
        push_proxy_metric(&mut out, &self.proxies, ProxyCounter::ConnectionsOut);
        push_proxy_metric(&mut out, &self.proxies, ProxyCounter::BytesIn);
        push_proxy_metric(&mut out, &self.proxies, ProxyCounter::BytesOut);
        assert(out@ == prometheus_text(self.server(), self.proxies()));
        out
    }

    /// The counters of all proxies at this moment.
    pub fn snapshots(&self) -> (r: Vec<(String, MetricsSnapshot)>)
        ensures
            r@.len() == self.proxies().len(),
            forall|i: int|
                0 <= i < r@.len() ==> (#[trigger] r@[i]).0 == self.proxies()[i].0 && r@[i].1 == (
                MetricsSnapshot {
                    connections_in: self.proxies()[i].1.connections_in,
                    connections_out: self.proxies()[i].1.connections_out,
                    bytes_in: self.proxies()[i].1.bytes_in,
                    bytes_out: self.proxies()[i].1.bytes_out,
                }),
    {
        let mut v: Vec<(String, MetricsSnapshot)> = Vec::new();
        let mut i: usize = 0;
        while i < self.proxies.len()
            invariant
                i <= self.proxies().len(),
                v@.len() == i,
                forall|j: int|
                    0 <= j < i ==> (#[trigger] v@[j]).0 == self.proxies()[j].0 && v@[j].1 == (
                    MetricsSnapshot {
                        connections_in: self.proxies()[j].1.connections_in,
                        connections_out: self.proxies()[j].1.connections_out,
                        bytes_in: self.proxies()[j].1.bytes_in,
                        bytes_out: self.proxies()[j].1.bytes_out,
                    }),
            decreases self.proxies().len() - i,
        {
            v.push((self.proxies.key_at(i).clone(), self.proxies.value_at(i).snapshot()));
            i = i + 1;
        }
        v
    }
}

impl Default for MetricsCollector {
    fn default() -> (r: Self)
        ensures
            r.proxies() == Seq::<(String, ProxyMetrics)>::empty(),
            r.server() == (ServerMetrics {
                total_connections: 0,
                active_connections: 0,
                total_proxies: 0,
            }),
    {
        MetricsCollector::new()
    }
}

/// The counters of the server after a connection was opened.
pub open spec fn after_connection(s: ServerMetrics) -> ServerMetrics {
    ServerMetrics {
        total_connections: counted(s.total_connections, 1),
        active_connections: counted(s.active_connections, 1),
        ..s
    }
}

/// The counters of the server after a connection was closed.
pub open spec fn after_disconnection(s: ServerMetrics) -> ServerMetrics {
    ServerMetrics { active_connections: discounted(s.active_connections), ..s }
}

/// A connection that was opened and closed is counted, and is active no more.
pub proof fn closed_connection_is_not_active(s: ServerMetrics)
    ensures
        after_disconnection(after_connection(s)) == (ServerMetrics {
            total_connections: counted(s.total_connections, 1),
            ..s
        }),
{
}

/// What happens to the connections of a server.
pub enum ConnectionEvent {
    Opened,
    Closed,
}

/// The counters of the server after a series of events.
pub open spec fn after_events(s: ServerMetrics, events: Seq<ConnectionEvent>) -> ServerMetrics
    decreases events.len(),
{
    if events.len() == 0 {
        s
    } else {
        let before = after_events(s, events.drop_last());
        match events.last() {
            ConnectionEvent::Opened => after_connection(before),
            ConnectionEvent::Closed => after_disconnection(before),
        }
    }
}

/// How many connections were opened.
pub open spec fn opened_in(events: Seq<ConnectionEvent>) -> nat
    decreases events.len(),
{
    if events.len() == 0 {
        0
    } else if events.last() is Opened {
        opened_in(events.drop_last()) + 1
    } else {
        opened_in(events.drop_last())
    }
}

/// How many connections were closed.
pub open spec fn closed_in(events: Seq<ConnectionEvent>) -> nat {
    (events.len() - opened_in(events)) as nat
}

/// Whether at no time more connections were closed than opened.
pub open spec fn closes_what_was_opened(events: Seq<ConnectionEvent>) -> bool
    decreases events.len(),
{
    events.len() == 0 || (closes_what_was_opened(events.drop_last()) && closed_in(events)
        <= opened_in(events))
}

/// From zero on, the counters say how many connections were opened and how many of them are
/// still open. (Behind the range of `u64` they start over.)
pub proof fn counters_tell_connections(s: ServerMetrics, events: Seq<ConnectionEvent>)
    requires
        s.total_connections == 0,
        s.active_connections == 0,
        closes_what_was_opened(events),
        events.len() <= u64::MAX,
    ensures
        after_events(s, events).total_connections == opened_in(events),
        after_events(s, events).active_connections == opened_in(events) - closed_in(events),
        opened_in(events) <= events.len(),
    decreases events.len(),
{
    if events.len() > 0 {
        counters_tell_connections(s, events.drop_last());
    }
}

/// Counters go up by what is counted and down by one, modulo the range of `u64`.
pub proof fn counters_count(c: u64, n: u64)
    ensures
        counted(c, n) as int == (c + n) % 0x1_0000_0000_0000_0000,
        discounted(c) as int == (c - 1) % 0x1_0000_0000_0000_0000,
{
}

/// The state of a new proxy: nothing was counted.
pub proof fn new_proxies_start_at_zero()
    ensures
        ProxyMetrics::zero().connections_in == 0,
        ProxyMetrics::zero().connections_out == 0,
        ProxyMetrics::zero().bytes_in == 0,
        ProxyMetrics::zero().bytes_out == 0,
{
}

proof fn lemma_counter_lines(
    a: Seq<(String, ProxyMetrics)>,
    b: Seq<(String, ProxyMetrics)>,
    counter: ProxyCounter,
)
    ensures
        counter_lines(a + b, counter) == counter_lines(a, counter) + counter_lines(b, counter),
    decreases b.len(),
{
    if b.len() == 0 {
        assert(a + b == a);
        assert(counter_lines(a, counter) + counter_lines(b, counter) == counter_lines(a, counter));
    } else {
        assert((a + b).drop_last() == a + b.drop_last());
        assert((a + b).last() == b.last());
        lemma_counter_lines(a, b.drop_last(), counter);
        assert(counter_lines(a + b, counter) == counter_lines(a, counter) + counter_lines(
            b,
            counter,
        ));
    }
}

/// Each proxy has a line of its own for each counter, with its name and its value, in the order
/// of the proxies.
pub proof fn each_proxy_has_a_line(
    before: Seq<(String, ProxyMetrics)>,
    name: String,
    m: ProxyMetrics,
    after: Seq<(String, ProxyMetrics)>,
)
    ensures
        ({
            let all = before + seq![(name, m)] + after;
            &&& counter_lines(all, ProxyCounter::ConnectionsIn) == counter_lines(
                before,
                ProxyCounter::ConnectionsIn,
            ) + "chagle_proxy_connections_in"@ + "{proxy=\""@ + name@ + "\"} "@ + text::decimal(
                m.connections_in as nat,
            ) + "\n"@ + counter_lines(after, ProxyCounter::ConnectionsIn)
            &&& counter_lines(all, ProxyCounter::ConnectionsOut) == counter_lines(
                before,
                ProxyCounter::ConnectionsOut,
            ) + "chagle_proxy_connections_out"@ + "{proxy=\""@ + name@ + "\"} "@ + text::decimal(
                m.connections_out as nat,
            ) + "\n"@ + counter_lines(after, ProxyCounter::ConnectionsOut)
            &&& counter_lines(all, ProxyCounter::BytesIn) == counter_lines(
                before,
                ProxyCounter::BytesIn,
            ) + "chagle_proxy_bytes_in"@ + "{proxy=\""@ + name@ + "\"} "@ + text::decimal(
                m.bytes_in as nat,
            ) + "\n"@ + counter_lines(after, ProxyCounter::BytesIn)
            &&& counter_lines(all, ProxyCounter::BytesOut) == counter_lines(
                before,
                ProxyCounter::BytesOut,
            ) + "chagle_proxy_bytes_out"@ + "{proxy=\""@ + name@ + "\"} "@ + text::decimal(
                m.bytes_out as nat,
            ) + "\n"@ + counter_lines(after, ProxyCounter::BytesOut)
        }),
        forall|counter: ProxyCounter| #[trigger]
            counter_lines(Seq::empty(), counter) == Seq::<char>::empty(),
{
    let upto = before + seq![(name, m)];
    assert(upto.drop_last() == before);
    assert(upto.last() == (name, m));
    lemma_counter_lines(upto, after, ProxyCounter::ConnectionsIn);
    lemma_counter_lines(upto, after, ProxyCounter::ConnectionsOut);
    lemma_counter_lines(upto, after, ProxyCounter::BytesIn);
    lemma_counter_lines(upto, after, ProxyCounter::BytesOut);
}

/// The output tells the counters of the server, then those of the proxies, each under its name
/// with an explanation and a kind.
pub proof fn output_tells_all_counters(server: ServerMetrics, entries: Seq<(String, ProxyMetrics)>)
    ensures
        prometheus_text(server, entries) == ("# HELP "@ + "chagle_server_connections_total"@
            + " "@ + "Total connections received"@ + "\n# TYPE "@
            + "chagle_server_connections_total"@ + " "@
            + "counter"@ + "\n"@ + "chagle_server_connections_total"@ + " "@
            + text::decimal(server.total_connections as nat) + "\n"@) + ("# HELP "@
            + "chagle_server_connections_active"@ + " "@ + "Active connections"@ + "\n# TYPE "@
            + "chagle_server_connections_active"@ + " "@
            + "gauge"@ + "\n"@ + "chagle_server_connections_active"@ + " "@
            + text::decimal(server.active_connections as nat) + "\n"@) + ("\n"@ + ("# HELP "@
            + "chagle_proxy_connections_in"@ + " "@ + "Inbound connections per proxy"@
            + "\n# TYPE "@ + "chagle_proxy_connections_in"@ + " "@
            + "counter"@ + "\n"@) + counter_lines(entries, ProxyCounter::ConnectionsIn)) + ("\n"@
            + ("# HELP "@ + "chagle_proxy_connections_out"@ + " "@
            + "Outbound connections per proxy"@ + "\n# TYPE "@ + "chagle_proxy_connections_out"@
            + " "@
            + "counter"@ + "\n"@) + counter_lines(entries, ProxyCounter::ConnectionsOut)) + ("\n"@
            + ("# HELP "@ + "chagle_proxy_bytes_in"@ + " "@ + "Bytes received per proxy"@
            + "\n# TYPE "@ + "chagle_proxy_bytes_in"@ + " "@
            + "counter"@ + "\n"@) + counter_lines(entries, ProxyCounter::BytesIn)) + ("\n"@
            + ("# HELP "@ + "chagle_proxy_bytes_out"@ + " "@ + "Bytes sent per proxy"@
            + "\n# TYPE "@ + "chagle_proxy_bytes_out"@ + " "@
            + "counter"@ + "\n"@) + counter_lines(entries, ProxyCounter::BytesOut)),
{
}

} // verus!
