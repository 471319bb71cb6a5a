//! The server name in a TLS ClientHello message.

use vstd::prelude::*;
use vstd::slice::slice_subrange;
use vstd::slice::slice_to_vec;

use crate::text;

verus! {

/// The two-byte number at index `i`, the high byte first.
pub open spec fn be16(b: Seq<u8>, i: int) -> nat {
    (b[i] as nat) * 256 + b[i + 1] as nat
}

/// The ClientHello that a TLS record holds, without the record header.
pub open spec fn client_hello(buf: Seq<u8>) -> Option<Seq<u8>> {
    if buf.len() >= 5 && buf[0] == 0x16 && buf.len() >= 5 + be16(buf, 3) && be16(buf, 3) > 0
        && buf[5] == 0x01 {
        Some(buf.subrange(5, 5 + be16(buf, 3) as int))
    } else {
        None
    }
}

/// Where the extensions of a ClientHello start and where they claim to end. The header, the
/// version and the random bytes take the first 38 bytes; the session id, the cipher suites
/// and the compression methods follow, each behind its length.
pub open spec fn extensions_span(h: Seq<u8>) -> Option<(int, int)> {
    if 38 >= h.len() {
        None
    } else {
        let ciphers = 39 + h[38];
        if ciphers + 2 > h.len() {
            None
        } else {
            let methods = ciphers + 2 + be16(h, ciphers);
            if methods >= h.len() {
                None
            } else {
                let extensions = methods + 1 + h[methods];
                if extensions + 2 > h.len() {
                    None
                } else {
                    Some((extensions + 2, extensions + 2 + be16(h, extensions)))
                }
            }
        }
    }
}

/// The first host name that lies within the message, in the list of names from `pos` to `end`.
pub open spec fn name_in_list(h: Seq<u8>, pos: int, end: int) -> Option<Seq<u8>>
    decreases h.len() + 65536 - pos,
{
    if pos < 0 || pos + 3 > end || pos + 3 > h.len() {
        None
    } else {
        let next = pos + 3 + be16(h, pos + 1);
        if h[pos] == 0 && next <= h.len() {
            Some(h.subrange(pos + 3, next))
        } else {
            name_in_list(h, next, end)
        }
    }
}

/// The first host name in the server name extensions from `pos` to `end`.
pub open spec fn name_in_extensions(h: Seq<u8>, pos: int, end: int) -> Option<Seq<u8>>
    decreases h.len() + 65536 - pos,
{
    if pos < 0 || pos + 4 > end || pos + 4 > h.len() {
        None
    } else {
        let next = pos + 4 + be16(h, pos + 2);
        let found = if be16(h, pos) == 0 && pos + 6 <= h.len() {
            name_in_list(h, pos + 6, pos + 6 + be16(h, pos + 4))
        } else {
            None
        };
        if found is Some {
            found
        } else {
            name_in_extensions(h, next, end)
        }
    }
}

/// The bytes of the server name that a TLS record asks for.
pub open spec fn server_name(buf: Seq<u8>) -> Option<Seq<u8>> {
    match client_hello(buf) {
        Some(h) => match extensions_span(h) {
            Some(span) => name_in_extensions(h, span.0, span.1),
            None => None,
        },
        None => None,
    }
}

/// Reads a two-byte number.
fn read_be16(b: &[u8], i: usize) -> (r: usize)
    requires
        i + 1 < b@.len(),
    ensures
        r == be16(b@, i as int),
        r <= 65535,
{
    (b[i] as usize) * 256 + (b[i + 1] as usize)
}

/// Computes [`extensions_span`].
fn find_extensions(h: &[u8]) -> (r: Option<(usize, usize)>)
    requires
        h@.len() <= 65535,
    ensures
        match r {
            Some(span) => extensions_span(h@) == Some((span.0 as int, span.1 as int)) && span.0
                <= h@.len() && span.1 <= h@.len() + 65535,
            None => extensions_span(h@) is None,
        },
{
    let n = h.len();
    if 38 >= n {
        return None;
    }
    let ciphers = 39 + h[38] as usize;
    if ciphers + 2 > n {
        return None;
    }
    let methods = ciphers + 2 + read_be16(h, ciphers);
    if methods >= n {
        return None;
    }
    let extensions = methods + 1 + h[methods] as usize;
    if extensions + 2 > n {
        return None;
    }
    Some((extensions + 2, extensions + 2 + read_be16(h, extensions)))
}

/// Computes [`name_in_list`]: where the name starts and ends.
fn find_name_in_list(h: &[u8], start: usize, end: usize) -> (r: Option<(usize, usize)>)
    requires
        h@.len() <= 65535,
        start <= h@.len(),
    ensures
        match r {
            Some(span) => span.0 <= span.1 <= h@.len() && name_in_list(
                h@,
                start as int,
                end as int,
            ) == Some(h@.subrange(span.0 as int, span.1 as int)),
            None => name_in_list(h@, start as int, end as int) is None,
        },
{
    let mut pos = start;
    while pos + 3 <= end && pos + 3 <= h.len()
        invariant
            h@.len() <= 65535,
            pos <= 65538 + 65535,
            name_in_list(h@, pos as int, end as int) == name_in_list(h@, start as int, end as int),
        decreases h@.len() + 65538 - pos,
    {
        let next = pos + 3 + read_be16(h, pos + 1);
        if h[pos] == 0 && next <= h.len() {
            return Some((pos + 3, next));
        }
        pos = next;
    }
    None
}

/// Computes [`name_in_extensions`]: where the name starts and ends.
fn find_name_in_extensions(h: &[u8], start: usize, end: usize) -> (r: Option<(usize, usize)>)
    requires
        h@.len() <= 65535,
        start <= h@.len(),
    ensures
        match r {
            Some(span) => span.0 <= span.1 <= h@.len() && name_in_extensions(
                h@,
                start as int,
                end as int,
            ) == Some(h@.subrange(span.0 as int, span.1 as int)),
            None => name_in_extensions(h@, start as int, end as int) is None,
        },
{
    let mut pos = start;
    while pos + 4 <= end && pos + 4 <= h.len()
        invariant
            h@.len() <= 65535,
            pos <= 65539 + 65535,
            name_in_extensions(h@, pos as int, end as int) == name_in_extensions(
                h@,
                start as int,
                end as int,
            ),
        decreases h@.len() + 65539 - pos,
    {
        let next = pos + 4 + read_be16(h, pos + 2);
        if read_be16(h, pos) == 0 && pos + 6 <= h.len() {
            let list_end = pos + 6 + read_be16(h, pos + 4);
            if let Some(span) = find_name_in_list(h, pos + 6, list_end) {
                return Some(span);
            }
        }
        pos = next;
    }
    None
}

/// The server name (SNI) that a TLS ClientHello message asks for, if it is there and is
/// valid UTF-8.
pub fn extract_sni(buf: &[u8]) -> (r: Option<String>)
    ensures
        match r {
            Some(name) => server_name(buf@) is Some && vstd::utf8::valid_utf8(
                server_name(buf@).unwrap(),
            ) && name@ == vstd::utf8::decode_utf8(server_name(buf@).unwrap()),
            None => server_name(buf@) is Some ==> !vstd::utf8::valid_utf8(
                server_name(buf@).unwrap(),
            ),
        },
{
    if buf.len() < 5 || buf[0] != 0x16 {
        return None;
    }
    let record_len = read_be16(buf, 3);
    if buf.len() - 5 < record_len || record_len == 0 || buf[5] != 0x01 {
        return None;
    }
    let h = slice_subrange(buf, 5, 5 + record_len);
    match find_extensions(h) {
        Some((start, end)) => match find_name_in_extensions(h, start, end) {
            Some((from, to)) => {
                let name = slice_to_vec(slice_subrange(h, from, to));
                match text::string_from_utf8(name) {
                    Ok(s) => Some(s),
                    Err(_) => None,
                }
            },
            None => None,
        },
        None => None,
    }
}

// ---------- what is found in a well-formed message ----------

/// A number in two bytes, the high byte first.
pub open spec fn be16_bytes(n: nat) -> Seq<u8> {
    seq![(n / 256) as u8, (n % 256) as u8]
}

/// An extension of a ClientHello: its type, its length and its body.
pub open spec fn extension_bytes(kind: u16, body: Seq<u8>) -> Seq<u8> {
    be16_bytes(kind as nat) + be16_bytes(body.len()) + body
}

/// A server name extension that holds one host name.
pub open spec fn server_name_extension(name: Seq<u8>) -> Seq<u8> {
    extension_bytes(
        0,
        be16_bytes(name.len() + 3) + seq![0u8] + be16_bytes(name.len()) + name,
    )
}

/// Extensions one after the other.
pub open spec fn extensions_bytes(list: Seq<(u16, Seq<u8>)>) -> Seq<u8>
    decreases list.len(),
{
    if list.len() == 0 {
        Seq::empty()
    } else {
        extension_bytes(list[0].0, list[0].1) + extensions_bytes(list.skip(1))
    }
}

/// A ClientHello message. `head` is all that stands before the session id.
pub open spec fn hello_bytes(
    head: Seq<u8>,
    session: Seq<u8>,
    ciphers: Seq<u8>,
    methods: Seq<u8>,
    extensions: Seq<u8>,
) -> Seq<u8> {
    head + seq![session.len() as u8] + session + be16_bytes(ciphers.len()) + ciphers + seq![
        methods.len() as u8,
    ] + methods + be16_bytes(extensions.len()) + extensions
}

/// A TLS handshake record, with `version` in its header.
pub open spec fn record_bytes(version: Seq<u8>, handshake: Seq<u8>) -> Seq<u8> {
    seq![0x16u8] + version + be16_bytes(handshake.len()) + handshake
}

proof fn lemma_be16_bytes(b: Seq<u8>, i: int, n: nat)
    requires
        n <= 65535,
        0 <= i,
        i + 2 <= b.len(),
        b.subrange(i, i + 2) == be16_bytes(n),
    ensures
        be16(b, i) == n,
{
    assert(b[i] == b.subrange(i, i + 2)[0]);
    assert(b[i + 1] == b.subrange(i, i + 2)[1]);
}

/// A host name stands in the list of names of the extension at `pos`.
proof fn lemma_name_found(h: Seq<u8>, pos: int, end: int, name: Seq<u8>)
    requires
        0 <= pos,
        name.len() + 9 <= 65535,
        pos + server_name_extension(name).len() <= h.len(),
        pos + server_name_extension(name).len() <= end,
        h.subrange(pos, pos + server_name_extension(name).len()) == server_name_extension(name),
    ensures
        name_in_extensions(h, pos, end) == Some(name),
{
    let e = server_name_extension(name);
    let n = name.len();
    assert(e.len() == n + 9);
    let body = be16_bytes(n + 3) + seq![0u8] + be16_bytes(n) + name;
    assert(body.len() == n + 5);
    assert(e == be16_bytes(0) + be16_bytes(n + 5) + body);
    assert forall|i: int| 0 <= i < e.len() implies h[pos + i] == #[trigger] e[i] by {
        assert(h.subrange(pos, pos + e.len())[i] == h[pos + i]);
    }
    assert(e.subrange(0, 2) == be16_bytes(0));
    assert(h.subrange(pos, pos + 2) == be16_bytes(0));
    lemma_be16_bytes(h, pos, 0);
    assert(h.subrange(pos + 4, pos + 6) == be16_bytes(n + 3)) by {
        assert(e[4] == be16_bytes(n + 3)[0] && e[5] == be16_bytes(n + 3)[1]);
        assert(h[pos + 4] == e[4] && h[pos + 5] == e[5]);
    }
    lemma_be16_bytes(h, pos + 4, n + 3);
    assert(h[pos + 6] == e[6]);
    assert(h[pos + 6] == 0);
    assert(h.subrange(pos + 7, pos + 9) == be16_bytes(n)) by {
        assert(e[7] == be16_bytes(n)[0] && e[8] == be16_bytes(n)[1]);
        assert(h[pos + 7] == e[7] && h[pos + 8] == e[8]);
    }
    lemma_be16_bytes(h, pos + 7, n);
    assert(h.subrange(pos + 9, pos + 9 + n) == name) by {
        assert forall|i: int| 0 <= i < n implies h[pos + 9 + i] == #[trigger] name[i] by {
            assert(e[9 + i] == name[i]);
            assert(h[pos + (9 + i)] == e[9 + i]);
        }
    }
}

/// Extensions of other types are skipped.
proof fn lemma_others_skipped(h: Seq<u8>, pos: int, end: int, others: Seq<(u16, Seq<u8>)>)
    requires
        0 <= pos,
        h.len() <= 65535,
        forall|i: int| 0 <= i < others.len() ==> (#[trigger] others[i]).0 != 0,
        pos + extensions_bytes(others).len() <= h.len(),
        pos + extensions_bytes(others).len() <= end,
        h.subrange(pos, pos + extensions_bytes(others).len()) == extensions_bytes(others),
    ensures
        name_in_extensions(h, pos, end) == name_in_extensions(
            h,
            pos + extensions_bytes(others).len(),
            end,
        ),
    decreases others.len(),
{
    if others.len() > 0 {
        let (kind, body) = others[0];
        let rest = others.skip(1);
        let e = extension_bytes(kind, body);
        let all = extensions_bytes(others);
        let tail = extensions_bytes(rest);
        assert(all == e + tail);
        assert(e.len() == body.len() + 4);
        assert forall|i: int| 0 <= i < all.len() implies h[pos + i] == #[trigger] all[i] by {
            assert(h.subrange(pos, pos + all.len())[i] == h[pos + i]);
        }
        assert(h.subrange(pos, pos + 2) == be16_bytes(kind as nat)) by {
            assert(e[0] == be16_bytes(kind as nat)[0] && e[1] == be16_bytes(kind as nat)[1]);
            assert(all[0] == e[0] && all[1] == e[1]);
            assert(h[pos + 0] == all[0] && h[pos + 1] == all[1]);
        }
        lemma_be16_bytes(h, pos, kind as nat);
        assert(h.subrange(pos + 2, pos + 4) == be16_bytes(body.len())) by {
            assert(e[2] == be16_bytes(body.len())[0] && e[3] == be16_bytes(body.len())[1]);
            assert(all[2] == e[2] && all[3] == e[3]);
            assert(h[pos + 2] == all[2] && h[pos + 3] == all[3]);
        }
        lemma_be16_bytes(h, pos + 2, body.len());
        let next = pos + 4 + body.len();
        assert(h.subrange(next, next + tail.len()) == tail) by {
            assert forall|i: int| 0 <= i < tail.len() implies h[next + i] == #[trigger] tail[i] by {
                assert(all[e.len() + i] == tail[i]);
                assert(h[pos + (e.len() + i)] == all[e.len() + i]);
            }
        }
        assert forall|i: int| 0 <= i < rest.len() implies (#[trigger] rest[i]).0 != 0 by {
            assert(rest[i] == others[i + 1]);
        }
        assert(others[0].0 != 0);
        lemma_others_skipped(h, next, end, rest);
    }
}

/// Where the extensions of a message lie.
proof fn lemma_hello_span(
    head: Seq<u8>,
    session: Seq<u8>,
    ciphers: Seq<u8>,
    methods: Seq<u8>,
    extensions: Seq<u8>,
)
    requires
        head.len() == 38,
        session.len() <= 255,
        methods.len() <= 255,
        hello_bytes(head, session, ciphers, methods, extensions).len() <= 65535,
    ensures
        ({
            let h = hello_bytes(head, session, ciphers, methods, extensions);
            let start = h.len() - extensions.len();
            &&& extensions_span(h) == Some((start as int, h.len() as int))
            &&& 0 <= start
            &&& h.subrange(start, h.len() as int) == extensions
        }),
{
    let h = hello_bytes(head, session, ciphers, methods, extensions);
    let s = session.len() as int;
    let c = ciphers.len() as int;
    let m = methods.len() as int;
    let x = extensions.len() as int;
    assert(h.len() == 44 + s + c + m + x);
    assert(h[38] == s);
    let p1 = 39 + s;
    assert(h.subrange(p1, p1 + 2) == be16_bytes(c as nat));
    lemma_be16_bytes(h, p1, c as nat);
    let p2 = p1 + 2 + c;
    assert(h[p2] == m);
    let p3 = p2 + 1 + m;
    assert(h.subrange(p3, p3 + 2) == be16_bytes(x as nat));
    lemma_be16_bytes(h, p3, x as nat);
    assert(h.subrange(p3 + 2, h.len() as int) == extensions);
}

/// A record is read back, whatever bytes follow it.
proof fn lemma_record(version: Seq<u8>, h: Seq<u8>, trailing: Seq<u8>)
    requires
        version.len() == 2,
        0 < h.len() <= 65535,
        h[0] == 1,
    ensures
        client_hello(record_bytes(version, h) + trailing) == Some(h),
{
    let buf = record_bytes(version, h) + trailing;
    assert(buf.subrange(3, 5) == be16_bytes(h.len()));
    lemma_be16_bytes(buf, 3, h.len());
    assert(buf.subrange(5, 5 + h.len() as int) == h);
    assert(buf[5] == h[0]) by {
        assert(buf.subrange(5, 5 + h.len() as int)[0] == buf[5]);
    }
}

/// The name is found among the extensions.
proof fn lemma_name_among_extensions(
    h: Seq<u8>,
    start: int,
    before: Seq<(u16, Seq<u8>)>,
    name: Seq<u8>,
    behind: Seq<u8>,
)
    requires
        0 <= start,
        h.len() <= 65535,
        forall|i: int| 0 <= i < before.len() ==> (#[trigger] before[i]).0 != 0,
        start + extensions_bytes(before).len() + server_name_extension(name).len() + behind.len()
            == h.len(),
        h.subrange(start, h.len() as int) == extensions_bytes(before) + server_name_extension(name)
            + behind,
    ensures
        name_in_extensions(h, start, h.len() as int) == Some(name),
{
    let first = extensions_bytes(before);
    let sne = server_name_extension(name);
    let extensions = first + sne + behind;
    let end = h.len() as int;
    assert forall|i: int| 0 <= i < extensions.len() implies h[start + i] == #[trigger] extensions[i]
        by {
        assert(h.subrange(start, end)[i] == h[start + i]);
    }
    assert(h.subrange(start, start + first.len()) == first) by {
        assert forall|i: int| 0 <= i < first.len() implies h[start + i] == #[trigger] first[i] by {
            assert(extensions[i] == first[i]);
        }
    }
    lemma_others_skipped(h, start, end, before);
    let pos = start + first.len();
    assert(sne.len() == name.len() + 9);
    assert(h.subrange(pos, pos + sne.len()) == sne) by {
        assert forall|i: int| 0 <= i < sne.len() implies h[pos + i] == #[trigger] sne[i] by {
            assert(extensions[first.len() + i] == sne[i]);
            assert(h[start + (first.len() + i)] == extensions[first.len() + i]);
        }
    }
    lemma_name_found(h, pos, end, name);
}

/// The server name of a well-formed ClientHello is found, whatever other extensions stand
/// before and behind it and whatever bytes follow the record.
pub proof fn server_name_is_found(
    version: Seq<u8>,
    head: Seq<u8>,
    session: Seq<u8>,
    ciphers: Seq<u8>,
    methods: Seq<u8>,
    before: Seq<(u16, Seq<u8>)>,
    name: Seq<u8>,
    behind: Seq<u8>,
    trailing: Seq<u8>,
)
    requires
        version.len() == 2,
        head.len() == 38,
        head[0] == 1,
        session.len() <= 255,
        methods.len() <= 255,
        forall|i: int| 0 <= i < before.len() ==> (#[trigger] before[i]).0 != 0,
        hello_bytes(
            head,
            session,
            ciphers,
            methods,
            extensions_bytes(before) + server_name_extension(name) + behind,
        ).len() <= 65535,
    ensures
        server_name(
            record_bytes(
                version,
                hello_bytes(
                    head,
                    session,
                    ciphers,
                    methods,
                    extensions_bytes(before) + server_name_extension(name) + behind,
                ),
            ) + trailing,
        ) == Some(name),
{
    let extensions = extensions_bytes(before) + server_name_extension(name) + behind;
    let h = hello_bytes(head, session, ciphers, methods, extensions);
    lemma_hello_span(head, session, ciphers, methods, extensions);
    assert(h[0] == head[0]);
    lemma_record(version, h, trailing);
    lemma_name_among_extensions(h, h.len() - extensions.len(), before, name, behind);
}

/// Numbers have the high byte first.
pub proof fn high_bytes_come_first(b: Seq<u8>, i: int, n: nat)
    requires
        n <= 65535,
    ensures
        be16(b, i) == 256 * b[i] + b[i + 1],
        be16_bytes(n) == seq![(n / 256) as u8, (n % 256) as u8],
{
}

/// What is no TLS handshake record with a whole ClientHello message asks for no server.
pub proof fn other_records_have_no_name(buf: Seq<u8>)
    requires
        buf.len() < 6 || buf[0] != 0x16 || buf[5] != 0x01 || buf.len() < 5 + 256 * buf[3] + buf[4]
            || (buf[3] == 0 && buf[4] == 0),
    ensures
        server_name(buf) is None,
{
}

/// A message whose extensions are all of other types asks for no server.
pub proof fn other_extensions_have_no_name(
    version: Seq<u8>,
    head: Seq<u8>,
    session: Seq<u8>,
    ciphers: Seq<u8>,
    methods: Seq<u8>,
    others: Seq<(u16, Seq<u8>)>,
    trailing: Seq<u8>,
)
    requires
        version.len() == 2,
        head.len() == 38,
        head[0] == 1,
        session.len() <= 255,
        methods.len() <= 255,
        forall|i: int| 0 <= i < others.len() ==> (#[trigger] others[i]).0 != 0,
        hello_bytes(head, session, ciphers, methods, extensions_bytes(others)).len() <= 65535,
    ensures
        server_name(
            record_bytes(
                version,
                hello_bytes(head, session, ciphers, methods, extensions_bytes(others)),
            ) + trailing,
        ) is None,
{
    let extensions = extensions_bytes(others);
    let h = hello_bytes(head, session, ciphers, methods, extensions);
    lemma_hello_span(head, session, ciphers, methods, extensions);
    assert(h[0] == head[0]);
    lemma_record(version, h, trailing);
    lemma_others_skipped(h, h.len() - extensions.len(), h.len() as int, others);
}

/// Names of other types in front of the host name are skipped.
pub proof fn other_names_are_skipped(
    h: Seq<u8>,
    pos: int,
    end: int,
    kind: u8,
    other: Seq<u8>,
    name: Seq<u8>,
)
    requires
        0 <= pos,
        kind != 0,
        other.len() <= 65535,
        name.len() <= 65535,
        pos + 6 + other.len() + name.len() <= h.len(),
        pos + 6 + other.len() + name.len() <= end,
        h.subrange(pos, pos + 6 + other.len() + name.len()) == seq![
            kind,
            (other.len() / 256) as u8,
            (other.len() % 256) as u8,
        ] + other + seq![0u8, (name.len() / 256) as u8, (name.len() % 256) as u8] + name,
    ensures
        name_in_list(h, pos, end) == Some(name),
{
    let n = 6 + other.len() + name.len();
    let part = seq![kind, (other.len() / 256) as u8, (other.len() % 256) as u8] + other + seq![
        0u8,
        (name.len() / 256) as u8,
        (name.len() % 256) as u8,
    ] + name;
    assert forall|i: int| 0 <= i < n implies h[pos + i] == #[trigger] part[i] by {
        assert(h.subrange(pos, pos + n)[i] == h[pos + i]);
    }
    assert(h[pos + 0] == part[0] && h[pos + 1] == part[1] && h[pos + 2] == part[2]);
    assert(be16(h, pos + 1) == other.len());
    let next = pos + 3 + other.len();
    let m = 3 + other.len() as int;
    assert(h[pos + m] == part[m] && h[pos + (m + 1)] == part[m + 1] && h[pos + (m + 2)] == part[m
        + 2]);
    assert(be16(h, next + 1) == name.len());
    assert(h.subrange(next + 3, next + 3 + name.len()) == name) by {
        assert forall|i: int| 0 <= i < name.len() implies h[next + 3 + i] == #[trigger] name[i] by {
            assert(part[m + 3 + i] == name[i]);
            assert(h[pos + (m + 3 + i)] == part[m + 3 + i]);
        }
    }
    reveal_with_fuel(name_in_list, 2);
}

/// The layout of a record that asks for a server, byte by byte.
pub proof fn record_is_laid_out(
    version: Seq<u8>,
    head: Seq<u8>,
    session: Seq<u8>,
    ciphers: Seq<u8>,
    methods: Seq<u8>,
    name: Seq<u8>,
    behind: Seq<u8>,
    trailing: Seq<u8>,
)
    requires
        version.len() == 2,
        head.len() == 38,
        head[0] == 1,
        session.len() <= 255,
        methods.len() <= 255,
        53 + session.len() + ciphers.len() + methods.len() + name.len() + behind.len() <= 65535,
    ensures
        ({
            let n = name.len();
            let c = ciphers.len();
            let x = 9 + n + behind.len();
            let r = 44 + session.len() + c + methods.len() + x;
            server_name(
                seq![0x16u8] + version + seq![(r / 256) as u8, (r % 256) as u8] + (head + seq![
                    session.len() as u8,
                ] + session + seq![(c / 256) as u8, (c % 256) as u8] + ciphers + seq![
                    methods.len() as u8,
                ] + methods + seq![(x / 256) as u8, (x % 256) as u8] + (seq![
                    0u8,
                    0u8,
                    ((n + 5) / 256) as u8,
                    ((n + 5) % 256) as u8,
                    ((n + 3) / 256) as u8,
                    ((n + 3) % 256) as u8,
                    0u8,
                    (n / 256) as u8,
                    (n % 256) as u8,
                ] + name + behind)) + trailing,
            ) == Some(name)
        }),
{
    let n = name.len();
    let c = ciphers.len();
    let x = 9 + n + behind.len();
    let r = 44 + session.len() + c + methods.len() + x;
    let front = seq![
        0u8,
        0u8,
        ((n + 5) / 256) as u8,
        ((n + 5) % 256) as u8,
        ((n + 3) / 256) as u8,
        ((n + 3) % 256) as u8,
        0u8,
        (n / 256) as u8,
        (n % 256) as u8,
    ];
    let before = Seq::<(u16, Seq<u8>)>::empty();
    let body = be16_bytes(n + 3) + seq![0u8] + be16_bytes(n) + name;
    assert(body.len() == n + 5);
    assert(server_name_extension(name) == front + name);
    let extensions = extensions_bytes(before) + server_name_extension(name) + behind;
    assert(extensions == front + name + behind);
    assert(extensions.len() == x);
    let h = hello_bytes(head, session, ciphers, methods, extensions);
    assert(h.len() == r);
    server_name_is_found(
        version,
        head,
        session,
        ciphers,
        methods,
        before,
        name,
        behind,
        trailing,
    );
}

} // verus!
