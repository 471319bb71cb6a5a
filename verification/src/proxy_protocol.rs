//! The PROXY protocol: telling a service who its visitor is.

use vstd::prelude::*;

use crate::key_map::Key;
use crate::text;

verus! {

/// An IP address with a port.
#[derive(Debug, Clone, Copy, PartialEq, Eq)]
pub enum SocketAddress {
    V4([u8; 4], u16),
    V6([u8; 16], u16),
}

/// Whether the address is of IPv6, the IP address, and the port.
impl View for SocketAddress {
    type V = (bool, Seq<u8>, u16);

    open spec fn view(&self) -> (bool, Seq<u8>, u16) {
        match self {
            SocketAddress::V4(ip, port) => (false, ip@, *port),
            SocketAddress::V6(ip, port) => (true, ip@, *port),
        }
    }
}

impl Key for SocketAddress {
    fn same(&self, other: &Self) -> (r: bool) {
        match (self, other) {
            (SocketAddress::V4(x, p), SocketAddress::V4(y, q)) => text::bytes_equal(x, y) && *p
                == *q,
            (SocketAddress::V6(x, p), SocketAddress::V6(y, q)) => text::bytes_equal(x, y) && *p
                == *q,
            _ => false,
        }
    }
}

impl SocketAddress {
    /// The port.
    pub open spec fn port(self) -> u16 {
        match self {
            SocketAddress::V4(_, p) => p,
            SocketAddress::V6(_, p) => p,
        }
    }

    /// The address as text.
    pub open spec fn ip_text(self) -> Seq<char> {
        match self {
            SocketAddress::V4(ip, _) => ipv4_text(ip@),
            SocketAddress::V6(ip, _) => ipv6_text(ip@),
        }
    }
}

// ---------- addresses as text ----------

/// Four bytes in decimal, with dots between them.
pub open spec fn ipv4_text(ip: Seq<u8>) -> Seq<char> {
    text::decimal(ip[0] as nat) + "."@ + text::decimal(ip[1] as nat) + "."@ + text::decimal(
        ip[2] as nat,
    ) + "."@ + text::decimal(ip[3] as nat)
}

/// A number in hexadecimal without leading zeros.
pub open spec fn hex(n: nat) -> Seq<char>
    decreases n,
{
    if n < 16 {
        seq![text::hex_digit(n)]
    } else {
        hex(n / 16).push(text::hex_digit(n % 16))
    }
}

/// Group `i` of the eight groups of an IPv6 address.
pub open spec fn group_at(ip: Seq<u8>, i: int) -> nat {
    ip[2 * i] as nat * 256 + ip[2 * i + 1] as nat
}

/// The groups of an IPv6 address.
pub open spec fn groups(ip: Seq<u8>) -> Seq<nat> {
    Seq::new(8, |i: int| group_at(ip, i))
}

/// How many groups from `i` on are zero.
pub open spec fn zeros_at(g: Seq<nat>, i: int) -> nat
    decreases g.len() - i,
{
    if 0 <= i < g.len() && g[i] == 0 {
        1 + zeros_at(g, i + 1)
    } else {
        0
    }
}

/// The longest run of zero groups that starts before index `k`: where it starts and how long
/// it is. Of runs of one length the first counts.
pub open spec fn longest_run(g: Seq<nat>, k: nat) -> (int, nat)
    decreases k,
{
    if k == 0 {
        (0, 0)
    } else {
        let best = longest_run(g, (k - 1) as nat);
        if zeros_at(g, k - 1) > best.1 {
            (k - 1, zeros_at(g, k - 1))
        } else {
            best
        }
    }
}

/// The groups from `a` to `b` in hexadecimal, with colons between them.
pub open spec fn groups_text(g: Seq<nat>, a: int, b: int) -> Seq<char>
    decreases b - a,
{
    if a >= b {
        Seq::empty()
    } else if a + 1 == b {
        hex(g[a])
    } else {
        groups_text(g, a, b - 1) + ":"@ + hex(g[b - 1])
    }
}

/// Whether an IPv6 address stands for an IPv4 address.
pub open spec fn is_mapped(ip: Seq<u8>) -> bool {
    (forall|i: int| 0 <= i < 10 ==> #[trigger] ip[i] == 0) && ip[10] == 255 && ip[11] == 255
}

/// An IPv6 address as text. The longest run of zero groups, if it has more than one, is
/// written `::`; an address that stands for an IPv4 address ends in that address.
pub open spec fn ipv6_text(ip: Seq<u8>) -> Seq<char> {
    if is_mapped(ip) {
        "::ffff:"@ + ipv4_text(ip.subrange(12, 16))
    } else {
        let g = groups(ip);
        let run = longest_run(g, 8);
        if run.1 > 1 {
            groups_text(g, 0, run.0) + "::"@ + groups_text(g, run.0 + run.1, 8)
        } else {
            groups_text(g, 0, 8)
        }
    }
}

/// Writes four bytes in decimal, with dots between them.
fn push_ipv4(out: &mut String, a: u8, b: u8, c: u8, d: u8)
    ensures
        final(out)@ == old(out)@ + ipv4_text(seq![a, b, c, d]),
{
    text::push_decimal(out, a as u64);
    out.append(".");
    text::push_decimal(out, b as u64);
    out.append(".");
    text::push_decimal(out, c as u64);
    out.append(".");
    text::push_decimal(out, d as u64);
    assert(out@ == old(out)@ + ipv4_text(seq![a, b, c, d]));
}

/// Computes [`text::hex_digit`].
fn hex_char(d: u16) -> (r: char)
    requires
        d < 16,
    ensures
        r == text::hex_digit(d as nat),
{
    if d < 10 {
        (48 + d as u8) as char
    } else {
        (87 + d as u8) as char
    }
}

/// Writes a number in hexadecimal.
fn push_hex(out: &mut String, n: u16)
    ensures
        final(out)@ == old(out)@ + hex(n as nat),
    decreases n,
{
    if n >= 16 {
        push_hex(out, n / 16);
    }
    out.push(hex_char(n % 16));
    assert(out@ == old(out)@ + hex(n as nat));
}

/// Writes the groups from `a` to `b`.
fn push_groups(out: &mut String, g: &Vec<u16>, a: usize, b: usize)
    requires
        g@.len() == 8,
        a <= b <= 8,
    ensures
        final(out)@ == old(out)@ + groups_text(g@.map_values(|x: u16| x as nat), a as int, b as int),
{
    let ghost all = g@.map_values(|x: u16| x as nat);
    let ghost start = out@;
    let mut i = a;
    assert(start + groups_text(all, a as int, a as int) == start);
    while i < b
        invariant
            g@.len() == 8,
            a <= i <= b <= 8,
            all == g@.map_values(|x: u16| x as nat),
            out@ == start + groups_text(all, a as int, i as int),
        decreases b - i,
    {
        if i > a {
            out.append(":");
        }
        push_hex(out, g[i]);
        i = i + 1;
        assert(all[i - 1] == g@[i - 1] as nat);
        assert(out@ == start + groups_text(all, a as int, i as int));
    }
}

/// The eight groups of an address.
fn split_groups(ip: &[u8; 16]) -> (r: Vec<u16>)
    ensures
        r@.len() == 8,
        r@.map_values(|x: u16| x as nat) == groups(ip@),
{
    let mut g: Vec<u16> = Vec::new();
    let mut i: usize = 0;
    while i < 8
        invariant
            i <= 8,
            g@.len() == i,
            forall|j: int| 0 <= j < i ==> #[trigger] g@[j] as nat == group_at(ip@, j),
        decreases 8 - i,
    {
        g.push(ip[2 * i] as u16 * 256 + ip[2 * i + 1] as u16);
        i = i + 1;
    }
    assert(g@.map_values(|x: u16| x as nat) == groups(ip@));
    g
}

/// Computes [`zeros_at`].
fn count_zeros(g: &Vec<u16>, i: usize) -> (r: usize)
    requires
        g@.len() == 8,
        i <= 8,
    ensures
        r == zeros_at(g@.map_values(|x: u16| x as nat), i as int),
        r <= 8 - i,
    decreases 8 - i,
{
    if i < 8 && g[i] == 0 {
        assert(g@.map_values(|x: u16| x as nat)[i as int] == 0);
        1 + count_zeros(g, i + 1)
    } else {
        assert(i < 8 ==> g@.map_values(|x: u16| x as nat)[i as int] != 0);
        0
    }
}

/// Computes [`longest_run`] over all groups.
fn find_longest_run(g: &Vec<u16>) -> (r: (usize, usize))
    requires
        g@.len() == 8,
    ensures
        longest_run(g@.map_values(|x: u16| x as nat), 8) == (r.0 as int, r.1 as nat),
        r.0 + r.1 <= 8,
{
    let ghost all = g@.map_values(|x: u16| x as nat);
    let mut start: usize = 0;
    let mut len: usize = 0;
    let mut k: usize = 0;
    while k < 8
        invariant
            g@.len() == 8,
            k <= 8,
            all == g@.map_values(|x: u16| x as nat),
            longest_run(all, k as nat) == (start as int, len as nat),
            start + len <= 8,
        decreases 8 - k,
    {
        let n = count_zeros(g, k);
        if n > len {
            start = k;
            len = n;
        }
        k = k + 1;
    }
    (start, len)
}

/// Whether the first ten bytes are zero.
fn starts_with_zeros(ip: &[u8; 16]) -> (r: bool)
    ensures
        r == forall|i: int| 0 <= i < 10 ==> #[trigger] ip@[i] == 0,
{
    let mut i: usize = 0;
    while i < 10
        invariant
            i <= 10,
            forall|j: int| 0 <= j < i ==> #[trigger] ip@[j] == 0,
        decreases 10 - i,
    {
        if ip[i] != 0 {
            return false;
        }
        i = i + 1;
    }
    true
}

/// Writes an IPv6 address.
fn push_ipv6(out: &mut String, ip: &[u8; 16])
    ensures
        final(out)@ == old(out)@ + ipv6_text(ip@),
{
    if starts_with_zeros(ip) && ip[10] == 255 && ip[11] == 255 {
        out.append("::ffff:");
        push_ipv4(out, ip[12], ip[13], ip[14], ip[15]);
        assert(ip@.subrange(12, 16) == seq![ip@[12], ip@[13], ip@[14], ip@[15]]);
        assert(out@ == old(out)@ + ipv6_text(ip@));
        return ;
    }
    let g = split_groups(ip);
    let (start, len) = find_longest_run(&g);
    if len > 1 {
        push_groups(out, &g, 0, start);
        out.append("::");
        push_groups(out, &g, start + len, 8);
    } else {
        push_groups(out, &g, 0, 8);
    }
    assert(out@ == old(out)@ + ipv6_text(ip@));
}

// ---------- version 1 ----------

/// The header of version 1.
pub open spec fn v1_text(src: SocketAddress, dst: SocketAddress) -> Seq<char> {
    "PROXY "@ + (if src is V4 {
        "TCP4"@
    } else {
        "TCP6"@
    }) + " "@ + src.ip_text() + " "@ + dst.ip_text() + " "@ + text::decimal(src.port() as nat)
        + " "@ + text::decimal(dst.port() as nat) + "\r\n"@
}

/// Writes the IP address of a socket address.
fn push_ip(out: &mut String, a: &SocketAddress)
    ensures
        final(out)@ == old(out)@ + a.ip_text(),
{
    match a {
        SocketAddress::V4(ip, _) => {
            push_ipv4(out, ip[0], ip[1], ip[2], ip[3]);
            assert(ip@ == seq![ip@[0], ip@[1], ip@[2], ip@[3]]);
        },
        SocketAddress::V6(ip, _) => push_ipv6(out, ip),
    }
}

/// The port of a socket address.
fn port_of(a: &SocketAddress) -> (r: u16)
    ensures
        r == a.port(),
{
    match a {
        SocketAddress::V4(_, p) => *p,
        SocketAddress::V6(_, p) => *p,
    }
}

/// The header of version 1: a line of text.
pub fn proxy_protocol_v1_header(src: SocketAddress, dst: SocketAddress) -> (r: Vec<u8>)
    ensures
        r@ == vstd::utf8::encode_utf8(v1_text(src, dst)),
{
    let mut out = "PROXY ".to_string();
    match src {
        SocketAddress::V4(_, _) => {
            out.append("TCP4");
        },
        SocketAddress::V6(_, _) => {
            out.append("TCP6");
        },
    }
    out.append(" ");
    push_ip(&mut out, &src);
    out.append(" ");
    push_ip(&mut out, &dst);
    out.append(" ");
    text::push_decimal(&mut out, port_of(&src) as u64);
    out.append(" ");
    text::push_decimal(&mut out, port_of(&dst) as u64);
    out.append("\r\n");
    assert(out@ == v1_text(src, dst));
    text::to_bytes(out.as_str())
}

// ---------- version 2 ----------

/// The bytes that every header of version 2 begins with.
pub open spec fn v2_signature() -> Seq<u8> {
    seq![
        0x0Du8,
        0x0Au8,
        0x0Du8,
        0x0Au8,
        0x00u8,
        0x0Du8,
        0x0Au8,
        0x51u8,
        0x55u8,
        0x49u8,
        0x54u8,
        0x0Au8,
    ]
}

/// A port in two bytes, the high byte first.
pub open spec fn port_bytes(port: u16) -> Seq<u8> {
    seq![(port / 256) as u8, (port % 256) as u8]
}

/// The header of version 2: the signature, the command, the address family, the length of
/// the rest, and the rest: both addresses and both ports. Where the two addresses are of
/// different families, the header says nothing of them.
pub open spec fn v2_bytes(src: SocketAddress, dst: SocketAddress) -> Seq<u8> {
    match (src, dst) {
        (SocketAddress::V4(s, sp), SocketAddress::V4(d, dp)) => v2_signature() + seq![
            0x21u8,
            0x11u8,
            0u8,
            12u8,
        ] + s@ + d@ + port_bytes(sp) + port_bytes(dp),
        (SocketAddress::V6(s, sp), SocketAddress::V6(d, dp)) => v2_signature() + seq![
            0x21u8,
            0x21u8,
            0u8,
            36u8,
        ] + s@ + d@ + port_bytes(sp) + port_bytes(dp),
        _ => v2_signature() + seq![0x20u8, 0x00u8, 0u8, 0u8],
    }
}

/// Writes a port.
fn push_port(out: &mut Vec<u8>, port: u16)
    ensures
        final(out)@ == old(out)@ + port_bytes(port),
{
    out.push((port / 256) as u8);
    out.push((port % 256) as u8);
    assert(out@ == old(out)@ + port_bytes(port));
}

/// Writes the command, the family and the length of the rest.
fn push_v2_head(out: &mut Vec<u8>, command: u8, family: u8, len: u8)
    ensures
        final(out)@ == old(out)@ + v2_signature() + seq![command, family, 0u8, len],
{
    let signature: [u8; 12] = [
        0x0D, 0x0A, 0x0D, 0x0A, 0x00, 0x0D, 0x0A, 0x51, 0x55, 0x49, 0x54, 0x0A,
    ];
    out.extend_from_slice(&signature);
    assert(signature@ == v2_signature());
    out.push(command);
    out.push(family);
    out.push(0);
    out.push(len);
    assert(out@ == old(out)@ + v2_signature() + seq![command, family, 0u8, len]);
}

/// The header of version 2, which is binary.
pub fn proxy_protocol_v2_header(src: SocketAddress, dst: SocketAddress) -> (r: Vec<u8>)
    ensures
        r@ == v2_bytes(src, dst),
{
    let mut out: Vec<u8> = Vec::new();
    match (src, dst) {
        (SocketAddress::V4(s, sp), SocketAddress::V4(d, dp)) => {
            push_v2_head(&mut out, 0x21, 0x11, 12);
            out.extend_from_slice(&s);
            out.extend_from_slice(&d);
            push_port(&mut out, sp);
            push_port(&mut out, dp);
        },
        (SocketAddress::V6(s, sp), SocketAddress::V6(d, dp)) => {
            push_v2_head(&mut out, 0x21, 0x21, 36);
            out.extend_from_slice(&s);
            out.extend_from_slice(&d);
            push_port(&mut out, sp);
            push_port(&mut out, dp);
        },
        _ => {
            push_v2_head(&mut out, 0x20, 0x00, 0);
        },
    }
    assert(out@ == v2_bytes(src, dst));
    out
}

/// The length field of a header of version 2 counts the bytes behind it.
pub proof fn v2_length_is_right(src: SocketAddress, dst: SocketAddress)
    ensures
        v2_bytes(src, dst).len() == 16 + v2_bytes(src, dst)[14] * 256 + v2_bytes(src, dst)[15],
{
}

/// A header of version 2 tells which addresses of one family it was made for.
pub proof fn v2_tells_addresses_apart(
    a: SocketAddress,
    b: SocketAddress,
    c: SocketAddress,
    d: SocketAddress,
)
    requires
        v2_bytes(a, b) == v2_bytes(c, d),
        a is V4 && b is V4 || a is V6 && b is V6,
    ensures
        a is V4 ==> c is V4 && d is V4,
        a is V6 ==> c is V6 && d is V6,
        a.port() == c.port(),
        b.port() == d.port(),
        a is V4 ==> a->V4_0@ == c->V4_0@ && b->V4_0@ == d->V4_0@,
        a is V6 ==> a->V6_0@ == c->V6_0@ && b->V6_0@ == d->V6_0@,
{
    let x = v2_bytes(a, b);
    let y = v2_bytes(c, d);
    assert(x[13] == y[13]);
    match (a, b) {
        (SocketAddress::V4(s, sp), SocketAddress::V4(t, tp)) => {
            assert(x.subrange(16, 20) == s@);
            assert(y.subrange(16, 20) == c->V4_0@);
            assert(x.subrange(20, 24) == t@);
            assert(y.subrange(20, 24) == d->V4_0@);
            assert(x[24] == y[24] && x[25] == y[25] && x[26] == y[26] && x[27] == y[27]);
        },
        (SocketAddress::V6(s, sp), SocketAddress::V6(t, tp)) => {
            assert(x.subrange(16, 32) == s@);
            assert(y.subrange(16, 32) == c->V6_0@);
            assert(x.subrange(32, 48) == t@);
            assert(y.subrange(32, 48) == d->V6_0@);
            assert(x[48] == y[48] && x[49] == y[49] && x[50] == y[50] && x[51] == y[51]);
        },
        _ => {},
    }
}

// ---------- choice of the version ----------

/// The header in the version that is configured. Any other version is an error with this
/// message.
pub fn proxy_protocol_header(version: &str, src: SocketAddress, dst: SocketAddress) -> (r: Result<
    Vec<u8>,
    String,
>)
    ensures
        match r {
            Ok(h) => version@ == "v1"@ && h@ == vstd::utf8::encode_utf8(v1_text(src, dst))
                || version@ == "v2"@ && h@ == v2_bytes(src, dst),
            Err(e) => version@ != "v1"@ && version@ != "v2"@ && e@
                == "Unsupported proxy protocol version: "@ + version@,
        },
{
    if text::str_eq(version, "v1") {
        Ok(proxy_protocol_v1_header(src, dst))
    } else if text::str_eq(version, "v2") {
        Ok(proxy_protocol_v2_header(src, dst))
    } else {
        let mut e = "Unsupported proxy protocol version: ".to_string();
        e.append(version);
        Err(e)
    }
}

// ---------- what follows ----------

/// Two addresses are the same if they are of one family and have the same bytes and port.
pub proof fn addresses_count_by_family_bytes_and_port(a: SocketAddress, b: SocketAddress)
    ensures
        a@ == b@ <==> match (a, b) {
            (SocketAddress::V4(x, p), SocketAddress::V4(y, q)) => x@ == y@ && p == q,
            (SocketAddress::V6(x, p), SocketAddress::V6(y, q)) => x@ == y@ && p == q,
            _ => false,
        },
{
}

/// The four parts of an IPv4 address can be told from its text.
pub proof fn ipv4_parts_are_told(ip: Seq<u8>)
    requires
        ip.len() == 4,
    ensures
        ({
            let s = ipv4_text(ip);
            let a = text::decimal(ip[0] as nat);
            let b = text::decimal(ip[1] as nat);
            let s2 = s.skip(1 + a.len() as int);
            let s3 = s2.skip(1 + b.len() as int);
            &&& text::before_first(s, '.') == a
            &&& text::before_first(s2, '.') == b
            &&& text::before_first(s3, '.') == text::decimal(ip[2] as nat)
            &&& text::after_last(s, '.') == text::decimal(ip[3] as nat)
        }),
{
    reveal_strlit(".");
    assert("."@ == seq!['.']);
    let a = text::decimal(ip[0] as nat);
    let b = text::decimal(ip[1] as nat);
    let c = text::decimal(ip[2] as nat);
    let d = text::decimal(ip[3] as nat);
    lemma_decimal_has_no(ip[0] as nat, '.');
    lemma_decimal_has_no(ip[1] as nat, '.');
    lemma_decimal_has_no(ip[2] as nat, '.');
    lemma_decimal_has_no(ip[3] as nat, '.');
    let dot = seq!['.'];
    let s3 = c + dot + d;
    let s2 = b + dot + s3;
    let s = ipv4_text(ip);
    assert(s == a + dot + s2);
    assert(s.skip(1 + a.len() as int) == s2);
    assert(s2.skip(1 + b.len() as int) == s3);
    text::parts_are_found(a, '.', s2);
    text::parts_are_found(b, '.', s3);
    text::parts_are_found(c, '.', d);
    let front = a + dot + b + dot + c;
    assert(s == front + dot + d);
    text::parts_are_found(d, '.', front);
}

proof fn lemma_decimal_has_no(n: nat, c: char)
    requires
        !('0' <= c <= '9'),
    ensures
        !text::decimal(n).contains(c),
{
    text::decimal_reads_back(n);
    let d = text::decimal(n);
    if d.contains(c) {
        let i = choose|i: int| 0 <= i < d.len() && d[i] == c;
        assert(text::is_digit(d[i]));
    }
}

/// Hexadecimal digits count by sixteens, without leading zeros and in lower case.
pub proof fn hex_counts_by_sixteens(n: nat, d: nat)
    requires
        d < 16,
    ensures
        n > 0 ==> hex(16 * n + d) == hex(n) + hex(d),
        hex(d).len() == 1,
        d < 10 ==> hex(d)[0] as u32 == '0' as u32 + d,
        d >= 10 ==> hex(d)[0] as u32 == 'a' as u32 + (d - 10),
{
    if n > 0 {
        assert((16 * n + d) / 16 == n && (16 * n + d) % 16 == d);
        assert(hex(n).push(text::hex_digit(d)) == hex(n) + hex(d));
    }
}

/// Each group is made of two bytes, the high byte first.
pub proof fn groups_have_two_bytes(ip: Seq<u8>, i: int)
    requires
        ip.len() == 16,
        0 <= i < 8,
    ensures
        groups(ip).len() == 8,
        groups(ip)[i] == 256 * ip[2 * i] + ip[2 * i + 1],
{
}

/// Colons stand between groups.
pub proof fn colons_stand_between_groups(g: Seq<nat>, a: int, m: int, b: int)
    requires
        a < m < b,
    ensures
        groups_text(g, a, b) == groups_text(g, a, m) + seq![':'] + groups_text(g, m, b),
        groups_text(g, a, a + 1) == hex(g[a]),
        groups_text(g, a, a) == Seq::<char>::empty(),
    decreases b - m,
{
    reveal_strlit(":");
    assert(":"@ == seq![':']);
    if m + 1 < b {
        colons_stand_between_groups(g, a, m, b - 1);
        assert(groups_text(g, a, b) == groups_text(g, a, m) + seq![':'] + groups_text(g, m, b));
    }
}

proof fn lemma_zeros(g: Seq<nat>, i: int, n: nat)
    requires
        0 <= i,
        i + n <= g.len(),
        forall|j: int| i <= j < i + n ==> #[trigger] g[j] == 0,
    ensures
        zeros_at(g, i) >= n,
    decreases n,
{
    if n > 0 {
        assert(g[i] == 0);
        lemma_zeros(g, i + 1, (n - 1) as nat);
    }
}

proof fn lemma_zeros_are_zero(g: Seq<nat>, i: int)
    requires
        0 <= i,
    ensures
        i <= g.len() ==> i + zeros_at(g, i) <= g.len(),
        forall|j: int| i <= j < i + zeros_at(g, i) ==> #[trigger] g[j] == 0,
    decreases g.len() - i,
{
    if i < g.len() && g[i] == 0 {
        lemma_zeros_are_zero(g, i + 1);
    }
}

proof fn lemma_longest_run(g: Seq<nat>, k: nat)
    requires
        k <= g.len(),
    ensures
        0 <= longest_run(g, k).0,
        longest_run(g, k).0 + longest_run(g, k).1 <= g.len(),
        longest_run(g, k).1 > 0 ==> longest_run(g, k).0 < k && longest_run(g, k).1 == zeros_at(
            g,
            longest_run(g, k).0,
        ),
        forall|i: int| 0 <= i < k ==> #[trigger] zeros_at(g, i) <= longest_run(g, k).1,
        forall|i: int|
            0 <= i < longest_run(g, k).0 ==> #[trigger] zeros_at(g, i) < longest_run(g, k).1,
    decreases k,
{
    if k > 0 {
        lemma_longest_run(g, (k - 1) as nat);
        lemma_zeros_are_zero(g, k - 1);
    }
}

/// Where two or more groups in a row are zero, the longest such run is left out of the text of
/// the address, the first of them if there are several.
pub proof fn longest_run_of_zeros_is_left_out(ip: Seq<u8>, start: int, n: nat)
    requires
        ip.len() == 16,
        exists|i: int| 0 <= i < 12 && !(#[trigger] ip[i] == (if i < 10 {
            0u8
        } else {
            255u8
        })),
        n > 1,
        0 <= start,
        start + n <= 8,
        forall|j: int| start <= j < start + n ==> #[trigger] groups(ip)[j] == 0,
        forall|a: int, m: nat|
            #![trigger groups(ip).subrange(a, a + m)]
            0 <= a && a + m <= 8 && (m > n || m == n && a < start) ==> exists|j: int|
                a <= j < a + m && #[trigger] groups(ip)[j] != 0,
    ensures
        ipv6_text(ip) == groups_text(groups(ip), 0, start) + seq![':', ':'] + groups_text(
            groups(ip),
            start + n,
            8,
        ),
{
    reveal_strlit("::");
    assert("::"@ == seq![':', ':']);
    let g = groups(ip);
    let run = longest_run(g, 8);
    lemma_longest_run(g, 8);
    lemma_zeros(g, start, n);
    lemma_zeros_are_zero(g, run.0);
    assert(zeros_at(g, start) >= n);
    assert(run.1 >= n);
    let other = g.subrange(run.0, run.0 + run.1);
    assert(run.1 == n);
    if run.0 != start {
        assert(run.0 > start);
        assert(zeros_at(g, start) < run.1);
    }
}

/// Where no two groups in a row are zero, all groups are written.
pub proof fn other_groups_are_written(ip: Seq<u8>)
    requires
        ip.len() == 16,
        exists|i: int| 0 <= i < 12 && !(#[trigger] ip[i] == (if i < 10 {
            0u8
        } else {
            255u8
        })),
        forall|i: int, j: int|
            0 <= i < 8 && j == i + 1 && j < 8 ==> #[trigger] groups(ip)[i] != 0 || #[trigger] groups(
                ip,
            )[j] != 0,
    ensures
        ipv6_text(ip) == groups_text(groups(ip), 0, 8),
{
    let g = groups(ip);
    let run = longest_run(g, 8);
    lemma_longest_run(g, 8);
    if run.1 > 1 {
        lemma_zeros_are_zero(g, run.0);
        assert(g[run.0] == 0 && g[run.0 + 1] == 0);
    }
}

/// An IPv6 address that stands for an IPv4 address ends in that address.
pub proof fn mapped_addresses_end_in_ipv4(ip: Seq<u8>, v4: Seq<u8>)
    requires
        ip == seq![0u8, 0, 0, 0, 0, 0, 0, 0, 0, 0, 255, 255] + v4,
        v4.len() == 4,
    ensures
        ipv6_text(ip) == "::ffff:"@ + ipv4_text(v4),
{
    assert(ip.subrange(12, 16) == v4);
}

/// What the text of an address can hold.
spec fn is_address_char(c: char) -> bool {
    '0' <= c <= '9' || 'a' <= c <= 'f' || c == '.' || c == ':'
}

spec fn all_address_chars(s: Seq<char>) -> bool {
    forall|i: int| 0 <= i < s.len() ==> is_address_char(#[trigger] s[i])
}

proof fn lemma_decimal_chars(n: nat)
    ensures
        all_address_chars(text::decimal(n)),
        text::decimal(n).len() > 0,
{
    text::decimal_reads_back(n);
    let d = text::decimal(n);
    assert forall|i: int| 0 <= i < d.len() implies is_address_char(#[trigger] d[i]) by {
        assert(text::is_digit(d[i]));
    }
}

proof fn lemma_ipv4_chars(ip: Seq<u8>)
    ensures
        all_address_chars(ipv4_text(ip)),
        ipv4_text(ip).len() > 0,
{
    reveal_strlit(".");
    assert("."@ == seq!['.']);
    lemma_decimal_chars(ip[0] as nat);
    lemma_decimal_chars(ip[1] as nat);
    lemma_decimal_chars(ip[2] as nat);
    lemma_decimal_chars(ip[3] as nat);
}

proof fn lemma_hex_chars(n: nat)
    ensures
        all_address_chars(hex(n)),
        hex(n).len() > 0,
    decreases n,
{
    if n >= 16 {
        lemma_hex_chars(n / 16);
    }
}

proof fn lemma_groups_chars(g: Seq<nat>, a: int, b: int)
    ensures
        all_address_chars(groups_text(g, a, b)),
        a < b ==> groups_text(g, a, b).len() > 0,
    decreases b - a,
{
    reveal_strlit(":");
    assert(":"@ == seq![':']);
    if a < b {
        lemma_hex_chars(g[a]);
        lemma_hex_chars(g[b - 1]);
        if a + 1 < b {
            lemma_groups_chars(g, a, b - 1);
        }
    }
}

proof fn lemma_ip_chars(a: SocketAddress)
    ensures
        all_address_chars(a.ip_text()),
        a.ip_text().len() > 0,
{
    match a {
        SocketAddress::V4(ip, _) => {
            lemma_ipv4_chars(ip@);
        },
        SocketAddress::V6(ip, _) => {
            reveal_strlit("::ffff:");
            assert("::ffff:"@ == seq![':', ':', 'f', 'f', 'f', 'f', ':']);
            reveal_strlit("::");
            assert("::"@ == seq![':', ':']);
            let g = groups(ip@);
            let run = longest_run(g, 8);
            lemma_ipv4_chars(ip@.subrange(12, 16));
            lemma_groups_chars(g, 0, run.0);
            lemma_groups_chars(g, run.0 + run.1, 8);
            lemma_groups_chars(g, 0, 8);
        },
    }
}

/// A header of version 1 is one line of six words: the name of the protocol, the family of the
/// visitor, the address of the visitor, the address that was visited, and the two ports in the
/// same order.
pub proof fn v1_words_are_read_back(src: SocketAddress, dst: SocketAddress)
    ensures
        ({
            let sp = match src {
                SocketAddress::V4(_, p) => p,
                SocketAddress::V6(_, p) => p,
            };
            let dp = match dst {
                SocketAddress::V4(_, p) => p,
                SocketAddress::V6(_, p) => p,
            };
            let family = match src {
                SocketAddress::V4(_, _) => seq!['T', 'C', 'P', '4'],
                SocketAddress::V6(_, _) => seq!['T', 'C', 'P', '6'],
            };
            let sip = match src {
                SocketAddress::V4(ip, _) => ipv4_text(ip@),
                SocketAddress::V6(ip, _) => ipv6_text(ip@),
            };
            let dip = match dst {
                SocketAddress::V4(ip, _) => ipv4_text(ip@),
                SocketAddress::V6(ip, _) => ipv6_text(ip@),
            };
            v1_text(src, dst) == "PROXY "@ + family + " "@ + sip + " "@ + dip + " "@ + text::decimal(
                sp as nat,
            ) + " "@ + text::decimal(dp as nat) + "\r\n"@ && text::words(v1_text(src, dst)) == seq![
                seq!['P', 'R', 'O', 'X', 'Y'],
                family,
                sip,
                dip,
                text::decimal(sp as nat),
                text::decimal(dp as nat),
            ]
        }),
{
    reveal_strlit("PROXY ");
    reveal_strlit("TCP4");
    reveal_strlit("TCP6");
    reveal_strlit(" ");
    reveal_strlit("\r\n");
    assert("PROXY "@ == seq!['P', 'R', 'O', 'X', 'Y', ' ']);
    assert("TCP4"@ == seq!['T', 'C', 'P', '4']);
    assert("TCP6"@ == seq!['T', 'C', 'P', '6']);
    assert(" "@ == seq![' ']);
    assert("\r\n"@ == seq!['\r', '\n']);
    lemma_ip_chars(src);
    lemma_ip_chars(dst);
    lemma_decimal_chars(src.port() as nat);
    lemma_decimal_chars(dst.port() as nat);
    let w0 = seq!['P', 'R', 'O', 'X', 'Y'];
    let w1 = if src is V4 {
        "TCP4"@
    } else {
        "TCP6"@
    };
    let w2 = src.ip_text();
    let w3 = dst.ip_text();
    let w4 = text::decimal(src.port() as nat);
    let w5 = text::decimal(dst.port() as nat);
    let space = seq![' '];
    assert("PROXY "@ == w0 + space);
    lemma_address_word(w2);
    lemma_address_word(w3);
    lemma_address_word(w4);
    lemma_address_word(w5);
    lemma_six_words(w0, w1, w2, w3, w4, w5);
}

/// Whether a text is a word.
spec fn is_word(w: Seq<char>) -> bool {
    w.len() > 0 && forall|i: int| 0 <= i < w.len() ==> !text::is_space(#[trigger] w[i])
}

proof fn lemma_address_word(w: Seq<char>)
    requires
        all_address_chars(w),
        w.len() > 0,
    ensures
        is_word(w),
{
    assert forall|i: int| 0 <= i < w.len() implies !text::is_space(#[trigger] w[i]) by {
        assert(is_address_char(w[i]));
    }
}

/// A word in front of others, behind a space.
proof fn lemma_next_word(w: Seq<char>, rest: Seq<char>)
    requires
        is_word(w),
        rest.len() > 0,
        text::is_space(rest[0]),
    ensures
        text::words(seq![' '] + w + rest) == seq![w] + text::words(rest),
{
    text::text_is_split_into_words(seq![' '], w, rest);
}

/// Six words with a space between them, in a line.
proof fn lemma_six_words(
    w0: Seq<char>,
    w1: Seq<char>,
    w2: Seq<char>,
    w3: Seq<char>,
    w4: Seq<char>,
    w5: Seq<char>,
)
    requires
        is_word(w0),
        is_word(w1),
        is_word(w2),
        is_word(w3),
        is_word(w4),
        is_word(w5),
    ensures
        text::words(
            (w0 + seq![' ']) + w1 + seq![' '] + w2 + seq![' '] + w3 + seq![' '] + w4 + seq![' '] + w5
                + seq!['\r', '\n'],
        ) == seq![w0, w1, w2, w3, w4, w5],
{
    let space = seq![' '];
    let r5 = seq!['\r', '\n'];
    let r4 = space + w5 + r5;
    let r3 = space + w4 + r4;
    let r2 = space + w3 + r3;
    let r1 = space + w2 + r2;
    let r0 = space + w1 + r1;
    let s = (w0 + space) + w1 + space + w2 + space + w3 + space + w4 + space + w5 + r5;
    assert(s == Seq::<char>::empty() + w0 + r0);
    text::text_is_split_into_words(Seq::empty(), w0, r0);
    lemma_next_word(w1, r1);
    lemma_next_word(w2, r2);
    lemma_next_word(w3, r3);
    lemma_next_word(w4, r4);
    lemma_next_word(w5, r5);
    text::text_is_split_into_words(r5, w0, Seq::empty());
    assert(text::words(s) == seq![w0, w1, w2, w3, w4, w5]);
}

/// A header of version 2 is read back byte by byte: the signature of the protocol, the version
/// with the command, the family, the length, both addresses, and both ports with the high byte
/// first. Addresses of different families are not told.
pub proof fn v2_bytes_are_read_back(src: SocketAddress, dst: SocketAddress)
    ensures
        ({
            let h = v2_bytes(src, dst);
            &&& h.len() >= 16
            &&& h.take(12) == seq![13u8, 10, 13, 10, 0, 13, 10, 81, 85, 73, 84, 10]
            &&& match (src, dst) {
                (SocketAddress::V4(s, sp), SocketAddress::V4(d, dp)) => {
                    &&& h.len() == 28
                    &&& h.subrange(12, 16) == seq![0x21u8, 0x11, 0, 12]
                    &&& h.subrange(16, 20) == s@
                    &&& h.subrange(20, 24) == d@
                    &&& sp == h[24] * 256 + h[25]
                    &&& dp == h[26] * 256 + h[27]
                },
                (SocketAddress::V6(s, sp), SocketAddress::V6(d, dp)) => {
                    &&& h.len() == 52
                    &&& h.subrange(12, 16) == seq![0x21u8, 0x21, 0, 36]
                    &&& h.subrange(16, 32) == s@
                    &&& h.subrange(32, 48) == d@
                    &&& sp == h[48] * 256 + h[49]
                    &&& dp == h[50] * 256 + h[51]
                },
                _ => h.len() == 16 && h.subrange(12, 16) == seq![0x20u8, 0, 0, 0],
            }
        }),
{
}

} // verus!
