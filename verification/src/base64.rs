//! Base64, as the dashboard writes it and the HTTP proxy reads it.

use vstd::prelude::*;

use crate::text;

verus! {

/// The character that stands for a six-bit value.
pub open spec fn sextet_char(v: nat) -> char {
    if v < 26 {
        (65 + v) as char
    } else if v < 52 {
        (71 + v) as char
    } else if v < 62 {
        (v - 4) as char
    } else if v == 62 {
        '+'
    } else {
        '/'
    }
}

/// The six-bit value that a character stands for.
pub open spec fn char_sextet(c: char) -> Option<nat> {
    if 'A' <= c <= 'Z' {
        Some((c as u32 - 65) as nat)
    } else if 'a' <= c <= 'z' {
        Some((c as u32 - 71) as nat)
    } else if '0' <= c <= '9' {
        Some((c as u32 + 4) as nat)
    } else if c == '+' {
        Some(62nat)
    } else if c == '/' {
        Some(63nat)
    } else {
        None
    }
}

/// The byte at index `i`, or zero behind the end.
pub open spec fn byte_or_zero(b: Seq<u8>, i: int) -> nat {
    if 0 <= i < b.len() {
        b[i] as nat
    } else {
        0
    }
}

/// Character `k` of the encoding of `b`: three bytes become four characters, and `=` fills
/// up the last group.
pub open spec fn encoded_char(b: Seq<u8>, k: int) -> char {
    let q = 3 * (k / 4);
    let x = byte_or_zero(b, q);
    let y = byte_or_zero(b, q + 1);
    let z = byte_or_zero(b, q + 2);
    if k % 4 == 0 {
        sextet_char(x / 4)
    } else if k % 4 == 1 {
        sextet_char((x % 4) * 16 + y / 16)
    } else if k % 4 == 2 {
        if q + 1 < b.len() {
            sextet_char((y % 16) * 4 + z / 64)
        } else {
            '='
        }
    } else {
        if q + 2 < b.len() {
            sextet_char(z % 64)
        } else {
            '='
        }
    }
}

/// The encoding of a byte string.
pub open spec fn encoded(b: Seq<u8>) -> Seq<char> {
    Seq::new((4 * ((b.len() + 2) / 3)) as nat, |k: int| encoded_char(b, k))
}

/// The value of character `i`.
pub open spec fn sextet_at(p: Seq<char>, i: int) -> nat {
    char_sextet(p[i]).unwrap()
}

/// Byte `k` of what the characters `p` encode.
pub open spec fn decoded_byte(p: Seq<char>, k: int) -> u8 {
    let q = 4 * (k / 3);
    if k % 3 == 0 {
        (sextet_at(p, q) * 4 + sextet_at(p, q + 1) / 16) as u8
    } else if k % 3 == 1 {
        ((sextet_at(p, q + 1) % 16) * 16 + sextet_at(p, q + 2) / 4) as u8
    } else {
        ((sextet_at(p, q + 2) % 4) * 64 + sextet_at(p, q + 3)) as u8
    }
}

/// The bytes that the characters `p` encode; bits that make up no whole byte are dropped.
pub open spec fn decoded_bytes(p: Seq<char>) -> Seq<u8> {
    Seq::new((6 * p.len()) / 8, |k: int| decoded_byte(p, k))
}

/// Whether every character stands for a six-bit value.
pub open spec fn all_sextets(p: Seq<char>) -> bool {
    forall|i: int| 0 <= i < p.len() ==> char_sextet(#[trigger] p[i]) is Some
}

/// What an encoded text decodes to. Reading stops at the first `=`; a character outside the
/// alphabet before it makes the text invalid.
pub open spec fn decoded(s: Seq<char>) -> Option<Seq<u8>> {
    let p = text::before_first(s, '=');
    if all_sextets(p) {
        Some(decoded_bytes(p))
    } else {
        None
    }
}

/// Computes [`sextet_char`].
fn encode_sextet(v: u8) -> (r: char)
    requires
        v < 64,
    ensures
        r == sextet_char(v as nat),
{
    if v < 26 {
        (65 + v) as char
    } else if v < 52 {
        (71 + v) as char
    } else if v < 62 {
        (v - 4) as char
    } else if v == 62 {
        '+'
    } else {
        '/'
    }
}

/// Computes [`char_sextet`].
fn decode_sextet(c: char) -> (r: Option<u8>)
    ensures
        match r {
            Some(v) => char_sextet(c) == Some(v as nat) && v < 64,
            None => char_sextet(c) is None,
        },
{
    if 'A' <= c && c <= 'Z' {
        Some((c as u8) - 65)
    } else if 'a' <= c && c <= 'z' {
        Some((c as u8) - 71)
    } else if '0' <= c && c <= '9' {
        Some((c as u8) + 4)
    } else if c == '+' {
        Some(62)
    } else if c == '/' {
        Some(63)
    } else {
        None
    }
}

/// Encodes a byte string in Base64 with padding.
pub fn simple_base64_encode(input: &[u8]) -> (r: String)
    ensures
        r@ == encoded(input@),
{
    let mut output = String::new();
    let n = input.len();
    let mut i: usize = 0;
    let ghost b = input@;
    let ghost total = encoded(b);
    assert(total.take(0) == Seq::<char>::empty());
    let ghost mut g: int = 0;
    while i < n
        invariant
            i <= n,
            n == input@.len(),
            b == input@,
            total == encoded(b),
            0 <= g,
            i == 3 * g || (i == n && 3 * (g - 1) < n <= 3 * g),
            4 * g <= total.len(),
            output@ == total.take(4 * g),
        decreases n - i,
    {
        let rest = n - i;
        let x = input[i];
        let y = if rest > 1 {
            input[i + 1]
        } else {
            0
        };
        let z = if rest > 2 {
            input[i + 2]
        } else {
            0
        };
        let ghost k = 4 * g;
        proof {
            assert(byte_or_zero(b, 3 * g) == x);
            assert(byte_or_zero(b, 3 * g + 1) == y);
            assert(byte_or_zero(b, 3 * g + 2) == z);
            assert(k / 4 == g && (k + 1) / 4 == g && (k + 2) / 4 == g && (k + 3) / 4 == g);
            assert(k + 4 <= total.len());
        }
        let c0 = encode_sextet(x / 4);
        output.push(c0);
        let c1 = encode_sextet((x % 4) * 16 + y / 16);
        output.push(c1);
        let c2 = if rest > 1 {
            encode_sextet((y % 16) * 4 + z / 64)
        } else {
            '='
        };
        output.push(c2);
        let c3 = if rest > 2 {
            encode_sextet(z % 64)
        } else {
            '='
        };
        output.push(c3);
        proof {
            assert(total[k] == c0);
            assert(total[k + 1] == c1);
            assert(total[k + 2] == c2);
            assert(total[k + 3] == c3);
            assert(total.take(k).push(c0).push(c1).push(c2).push(c3) == total.take(k + 4));
            g = g + 1;
        }
        if rest > 3 {
            i = i + 3;
        } else {
            i = n;
        }
    }
    assert(total.take(4 * g) == total);
    output
}

/// Why a text is no Base64 of a text.
#[derive(Debug)]
pub enum DecodeError {
    /// A character outside the alphabet.
    InvalidCharacter,
    /// The bytes are not valid UTF-8; where they go wrong, in words.
    InvalidUtf8(String),
}

impl DecodeError {
    /// The message for the user.
    pub open spec fn text(self) -> Seq<char> {
        match self {
            DecodeError::InvalidCharacter => "Invalid base64 character"@,
            DecodeError::InvalidUtf8(_) => "Invalid UTF-8 in base64 decoded string"@,
        }
    }

    /// Renders the error for the user.
    pub fn message(&self) -> (r: String)
        ensures
            r@ == self.text(),
            self is InvalidCharacter ==> r@ == "Invalid base64 character"@,
            self is InvalidUtf8 ==> r@ == "Invalid UTF-8 in base64 decoded string"@,
    {
        match self {
            DecodeError::InvalidCharacter => "Invalid base64 character".to_string(),
            DecodeError::InvalidUtf8(_) => "Invalid UTF-8 in base64 decoded string".to_string(),
        }
    }
}

/// Decodes Base64. The padding is not checked.
pub fn base64_decode_bytes(input: &str) -> (r: Result<Vec<u8>, DecodeError>)
    ensures
        match r {
            Ok(v) => decoded(input@) == Some(v@),
            Err(e) => decoded(input@) is None && e is InvalidCharacter,
        },
{
    let payload = text::split_first(input, '=');
    let cs = text::to_chars(payload);
    let ghost p = payload@;
    let ghost total = decoded_bytes(p);
    let mut output: Vec<u8> = Vec::new();
    let mut i: usize = 0;
    let mut phase: u8 = 0;
    let mut carry: u8 = 0;
    while i < cs.len()
        invariant
            i <= cs@.len(),
            cs@ == p,
            p == text::before_first(input@, '='),
            total == decoded_bytes(p),
            forall|j: int| 0 <= j < i ==> char_sextet(#[trigger] p[j]) is Some,
            phase as int == i as int % 4,
            output@.len() == (6 * i) / 8,
            forall|k: int| 0 <= k < output@.len() ==> output@[k] == total[k],
            phase == 1 ==> carry == sextet_at(p, i - 1) && carry < 64,
            phase == 2 ==> carry == sextet_at(p, i - 1) % 16 && carry < 16,
            phase == 3 ==> carry == sextet_at(p, i - 1) % 4 && carry < 4,
        decreases cs@.len() - i,
    {
        match decode_sextet(cs[i]) {
            None => {
                assert(char_sextet(p[i as int]) is None);
                return Err(DecodeError::InvalidCharacter);
            },
            Some(v) => {
                let ghost k = output@.len() as int;
                assert(sextet_at(p, i as int) == v);
                if phase == 0 {
                    carry = v;
                    phase = 1;
                } else if phase == 1 {
                    output.push(carry * 4 + v / 16);
                    assert(k % 3 == 0 && 4 * (k / 3) == i - 1);
                    assert(total[k] == decoded_byte(p, k));
                    carry = v % 16;
                    phase = 2;
                } else if phase == 2 {
                    output.push(carry * 16 + v / 4);
                    assert(k % 3 == 1 && 4 * (k / 3) == i - 2);
                    assert(total[k] == decoded_byte(p, k));
                    carry = v % 4;
                    phase = 3;
                } else {
                    output.push(carry * 64 + v);
                    assert(k % 3 == 2 && 4 * (k / 3) == i - 3);
                    assert(total[k] == decoded_byte(p, k));
                    carry = 0;
                    phase = 0;
                }
            },
        }
        i = i + 1;
    }
    assert(output@ == total);
    Ok(output)
}

/// Decodes Base64 into a text.
pub fn base64_decode(input: &str) -> (r: Result<String, DecodeError>)
    ensures
        match r {
            Ok(s) => decoded(input@) is Some && vstd::utf8::valid_utf8(decoded(input@).unwrap())
                && s@ == vstd::utf8::decode_utf8(decoded(input@).unwrap()),
            Err(DecodeError::InvalidCharacter) => decoded(input@) is None,
            Err(DecodeError::InvalidUtf8(e)) => decoded(input@) is Some && !vstd::utf8::valid_utf8(
                decoded(input@).unwrap(),
            ) && e@ == text::utf8_error(decoded(input@).unwrap()),
        },
{
    match base64_decode_bytes(input) {
        Ok(bytes) => match text::string_from_utf8(bytes) {
            Ok(s) => Ok(s),
            Err(e) => Err(DecodeError::InvalidUtf8(e)),
        },
        Err(e) => Err(e),
    }
}

proof fn lemma_sextet_round_trip(v: nat)
    requires
        v < 64,
    ensures
        char_sextet(sextet_char(v)) == Some(v),
        sextet_char(v) != '=',
{
}

/// What stands at index `k` of an encoding before the padding.
proof fn lemma_encoded_char(b: Seq<u8>, k: int)
    requires
        0 <= k < (8 * b.len() + 5) / 6,
    ensures
        k < encoded(b).len(),
        encoded(b)[k] != '=',
        char_sextet(encoded(b)[k]) == Some(
            {
                let q = 3 * (k / 4);
                let x = byte_or_zero(b, q);
                let y = byte_or_zero(b, q + 1);
                let z = byte_or_zero(b, q + 2);
                if k % 4 == 0 {
                    x / 4
                } else if k % 4 == 1 {
                    (x % 4) * 16 + y / 16
                } else if k % 4 == 2 {
                    (y % 16) * 4 + z / 64
                } else {
                    z % 64
                }
            },
        ),
{
    let q = 3 * (k / 4);
    let x = byte_or_zero(b, q);
    let y = byte_or_zero(b, q + 1);
    let z = byte_or_zero(b, q + 2);
    assert(encoded(b)[k] == encoded_char(b, k));
    if k % 4 == 0 {
        lemma_sextet_round_trip(x / 4);
    } else if k % 4 == 1 {
        lemma_sextet_round_trip((x % 4) * 16 + y / 16);
    } else if k % 4 == 2 {
        lemma_sextet_round_trip((y % 16) * 4 + z / 64);
    } else {
        lemma_sextet_round_trip(z % 64);
    }
}

/// The characters before the padding hold byte `k`.
proof fn lemma_decoded_byte(b: Seq<u8>, k: int)
    requires
        0 <= k < b.len(),
    ensures
        decoded_byte(encoded(b).take((8 * b.len() as int + 5) / 6), k) == b[k],
{
    let m = (8 * b.len() as int + 5) / 6;
    let p = encoded(b).take(m);
    let g = k / 3;
    let q = 4 * g;
    assert(q / 4 == g && (q + 1) / 4 == g && (q + 2) / 4 == g && (q + 3) / 4 == g);
    if k % 3 == 0 {
        lemma_encoded_char(b, q);
        lemma_encoded_char(b, q + 1);
        assert(p[q] == encoded(b)[q] && p[q + 1] == encoded(b)[q + 1]);
    } else if k % 3 == 1 {
        lemma_encoded_char(b, q + 1);
        lemma_encoded_char(b, q + 2);
        assert(p[q + 1] == encoded(b)[q + 1] && p[q + 2] == encoded(b)[q + 2]);
    } else {
        lemma_encoded_char(b, q + 2);
        lemma_encoded_char(b, q + 3);
        assert(p[q + 2] == encoded(b)[q + 2] && p[q + 3] == encoded(b)[q + 3]);
    }
}

/// Decoding what was encoded gives the bytes back.
pub proof fn decode_undoes_encode(b: Seq<u8>)
    ensures
        decoded(encoded(b)) == Some(b),
{
    let e = encoded(b);
    let m = (8 * b.len() as int + 5) / 6;
    assert forall|k: int| 0 <= k < m implies e[k] != '=' && char_sextet(#[trigger] e[k]) is Some by {
        lemma_encoded_char(b, k);
    }
    if m < e.len() {
        assert(e[m] == encoded_char(b, m));
        assert(e[m] == '=');
    }
    text::lemma_find_char(e, '=', m);
    let p = e.take(m);
    assert(all_sextets(p)) by {
        assert forall|i: int| 0 <= i < p.len() implies char_sextet(#[trigger] p[i]) is Some by {
            assert(char_sextet(e[i]) is Some);
        }
    }
    let d = decoded_bytes(p);
    assert(d.len() == b.len());
    assert forall|k: int| 0 <= k < d.len() implies d[k] == b[k] by {
        lemma_decoded_byte(b, k);
    }
    assert(d == b);
}

/// The alphabet: upper case, lower case, digits, plus and slash, and nothing else.
pub proof fn alphabet_is_standard(v: nat, c: char)
    requires
        v < 64,
    ensures
        v < 26 ==> sextet_char(v) as u32 == 'A' as u32 + v,
        26 <= v < 52 ==> sextet_char(v) as u32 == 'a' as u32 + (v - 26),
        52 <= v < 62 ==> sextet_char(v) as u32 == '0' as u32 + (v - 52),
        v == 62 ==> sextet_char(v) == '+',
        v == 63 ==> sextet_char(v) == '/',
        char_sextet(c) == Some(v) <==> c == sextet_char(v),
        char_sextet(c) is Some ==> char_sextet(c).unwrap() < 64,
        char_sextet(c) is None <==> !('A' <= c <= 'Z' || 'a' <= c <= 'z' || '0' <= c <= '9' || c
            == '+' || c == '/'),
{
}

/// Three bytes are the number that their four characters denote, and what follows is encoded
/// on its own. One or two bytes at the end are filled up with zero bits and `=`.
pub proof fn bytes_are_encoded_by_threes(x: u8, y: u8, z: u8, rest: Seq<u8>)
    ensures
        ({
            let e = encoded(seq![x, y, z]);
            let e2 = encoded(seq![x, y]);
            let e1 = encoded(seq![x]);
            &&& encoded(Seq::empty()) == Seq::<char>::empty()
            &&& encoded(seq![x, y, z] + rest) == e + encoded(rest)
            &&& e.len() == 4 && e2.len() == 4 && e1.len() == 4
            &&& all_sextets(e)
            &&& 65536 * x + 256 * y + z == 262144 * sextet_at(e, 0) + 4096 * sextet_at(e, 1) + 64
                * sextet_at(e, 2) + sextet_at(e, 3)
            &&& all_sextets(e2.take(3)) && e2[3] == '='
            &&& 4 * (256 * x + y) == 4096 * sextet_at(e2, 0) + 64 * sextet_at(e2, 1) + sextet_at(
                e2,
                2,
            )
            &&& all_sextets(e1.take(2)) && e1[2] == '=' && e1[3] == '='
            &&& 16 * x == 64 * sextet_at(e1, 0) + sextet_at(e1, 1)
        }),
{
    let b = seq![x, y, z];
    let e = encoded(b);
    let all = encoded(b + rest);
    let tail = encoded(rest);
    assert(all.len() == 4 + tail.len());
    assert forall|k: int| 0 <= k < all.len() implies all[k] == (e + tail)[k] by {
        assert(all[k] == encoded_char(b + rest, k));
        if k < 4 {
            assert(e[k] == encoded_char(b, k));
        } else {
            let j = k - 4;
            assert(tail[j] == encoded_char(rest, j));
            assert(k / 4 == j / 4 + 1 && k % 4 == j % 4);
            let q = 3 * (j / 4);
            assert(byte_or_zero(b + rest, q + 3) == byte_or_zero(rest, q));
            assert(byte_or_zero(b + rest, q + 4) == byte_or_zero(rest, q + 1));
            assert(byte_or_zero(b + rest, q + 5) == byte_or_zero(rest, q + 2));
        }
    }
    assert(all == e + tail);
    lemma_encoded_char(b, 0);
    lemma_encoded_char(b, 1);
    lemma_encoded_char(b, 2);
    lemma_encoded_char(b, 3);
    let two = seq![x, y];
    lemma_encoded_char(two, 0);
    lemma_encoded_char(two, 1);
    lemma_encoded_char(two, 2);
    assert(encoded(two)[3] == encoded_char(two, 3));
    let one = seq![x];
    lemma_encoded_char(one, 0);
    lemma_encoded_char(one, 1);
    assert(encoded(one)[2] == encoded_char(one, 2));
    assert(encoded(one)[3] == encoded_char(one, 3));
    assert(encoded(Seq::<u8>::empty()) == Seq::<char>::empty());
}

/// Four characters are decoded to the three bytes of the number that they denote, and what
/// follows on its own. Bits that make up no whole byte are dropped.
pub proof fn characters_are_decoded_by_fours(a: char, b: char, c: char, d: char, rest: Seq<char>)
    requires
        char_sextet(a) is Some,
        char_sextet(b) is Some,
        char_sextet(c) is Some,
        char_sextet(d) is Some,
        !rest.contains('='),
    ensures
        ({
            let p = seq![a, b, c, d];
            let w = char_sextet(a).unwrap();
            let x = char_sextet(b).unwrap();
            let y = char_sextet(c).unwrap();
            let z = char_sextet(d).unwrap();
            let four = decoded(p).unwrap();
            let three = decoded(seq![a, b, c]).unwrap();
            let two = decoded(seq![a, b]).unwrap();
            &&& decoded(Seq::empty()) == Some(Seq::<u8>::empty())
            &&& decoded(seq![a]) == Some(Seq::<u8>::empty())
            &&& decoded(p) is Some && four.len() == 3
            &&& 65536 * four[0] + 256 * four[1] + four[2] == 262144 * w + 4096 * x + 64 * y + z
            &&& decoded(seq![a, b, c]) is Some && three.len() == 2
            &&& 4 * (256 * three[0] + three[1]) <= 4096 * w + 64 * x + y < 4 * (256 * three[0]
                + three[1]) + 4
            &&& decoded(seq![a, b]) is Some && two.len() == 1
            &&& 16 * two[0] <= 64 * w + x < 16 * two[0] + 16
            &&& decoded(p + rest) == (match decoded(rest) {
                Some(more) => Some(decoded(p).unwrap() + more),
                None => None,
            })
        }),
{
    let p = seq![a, b, c, d];
    let none = Seq::<char>::empty();
    assert(!p.contains('=') && !seq![a, b, c].contains('=') && !seq![a, b].contains('=') && !seq![
        a,
    ].contains('='));
    lemma_decoded_plain(none);
    lemma_decoded_plain(p);
    lemma_decoded_plain(seq![a, b, c]);
    lemma_decoded_plain(seq![a, b]);
    lemma_decoded_plain(seq![a]);
    assert(decoded_bytes(none) == Seq::<u8>::empty());
    assert(decoded_bytes(seq![a]) == Seq::<u8>::empty());
    lemma_group_decoded(a, b, c, d);
    lemma_groups_decoded(p, rest);
}

/// What one group of characters, whole or not, is decoded to.
proof fn lemma_group_decoded(a: char, b: char, c: char, d: char)
    requires
        char_sextet(a) is Some,
        char_sextet(b) is Some,
        char_sextet(c) is Some,
        char_sextet(d) is Some,
    ensures
        ({
            let w = char_sextet(a).unwrap();
            let x = char_sextet(b).unwrap();
            let y = char_sextet(c).unwrap();
            let z = char_sextet(d).unwrap();
            let four = decoded_bytes(seq![a, b, c, d]);
            let three = decoded_bytes(seq![a, b, c]);
            let two = decoded_bytes(seq![a, b]);
            &&& four.len() == 3 && three.len() == 2 && two.len() == 1
            &&& 65536 * four[0] + 256 * four[1] + four[2] == 262144 * w + 4096 * x + 64 * y + z
            &&& 4 * (256 * three[0] + three[1]) <= 4096 * w + 64 * x + y < 4 * (256 * three[0]
                + three[1]) + 4
            &&& 16 * two[0] <= 64 * w + x < 16 * two[0] + 16
        }),
{
    alphabet_is_standard(0, a);
    alphabet_is_standard(0, b);
    alphabet_is_standard(0, c);
    alphabet_is_standard(0, d);
    let four = seq![a, b, c, d];
    let three = seq![a, b, c];
    let two = seq![a, b];
    assert(decoded_bytes(four)[0] == decoded_byte(four, 0));
    assert(decoded_bytes(four)[1] == decoded_byte(four, 1));
    assert(decoded_bytes(four)[2] == decoded_byte(four, 2));
    assert(decoded_bytes(three)[0] == decoded_byte(three, 0));
    assert(decoded_bytes(three)[1] == decoded_byte(three, 1));
    assert(decoded_bytes(two)[0] == decoded_byte(two, 0));
}

/// A whole group and what follows are decoded one after the other.
proof fn lemma_groups_decoded(p: Seq<char>, rest: Seq<char>)
    requires
        p.len() == 4,
        !p.contains('='),
        !rest.contains('='),
        all_sextets(p),
    ensures
        decoded(p + rest) == (match decoded(rest) {
            Some(more) => Some(decoded_bytes(p) + more),
            None => None,
        }),
{
    let bytes = decoded_bytes(p);
    let all = p + rest;
    lemma_decoded_plain(rest);
    assert(!all.contains('=')) by {
        if all.contains('=') {
            let i = choose|i: int| 0 <= i < all.len() && all[i] == '=';
            if i >= 4 {
                assert(rest[i - 4] == '=');
            } else {
                assert(p[i] == '=');
            }
        }
    }
    lemma_decoded_plain(all);
    assert(all_sextets(all) <==> all_sextets(rest)) by {
        if all_sextets(all) {
            assert forall|i: int| 0 <= i < rest.len() implies char_sextet(
                #[trigger] rest[i],
            ) is Some by {
                assert(char_sextet(all[i + 4]) is Some);
            }
        }
        if all_sextets(rest) {
            assert forall|i: int| 0 <= i < all.len() implies char_sextet(#[trigger] all[i]) is Some by {
                if i < 4 {
                    assert(char_sextet(p[i]) is Some);
                } else {
                    assert(char_sextet(rest[i - 4]) is Some);
                }
            }
        }
    }
    let da = decoded_bytes(all);
    let dr = decoded_bytes(rest);
    assert(da.len() == 3 + dr.len());
    assert forall|k: int| 0 <= k < da.len() implies da[k] == (bytes + dr)[k] by {
        assert(da[k] == decoded_byte(all, k));
        if k < 3 {
            assert(all[0] == p[0] && all[1] == p[1] && all[2] == p[2] && all[3] == p[3]);
            assert(bytes[k] == decoded_byte(p, k));
        } else {
            let j = k - 3;
            assert(dr[j] == decoded_byte(rest, j));
            assert(k / 3 == j / 3 + 1 && k % 3 == j % 3);
            let q = 4 * (j / 3);
            assert(all[q + 4] == rest[q]);
            assert(all[q + 5] == rest[q + 1]);
            if j % 3 > 0 {
                assert(all[q + 6] == rest[q + 2]);
            }
            if j % 3 > 1 {
                assert(all[q + 7] == rest[q + 3]);
            }
        }
    }
    assert(da == bytes + dr);
}

/// Without `=` the whole text is decoded.
proof fn lemma_decoded_plain(p: Seq<char>)
    requires
        !p.contains('='),
    ensures
        decoded(p) == (if all_sextets(p) {
            Some(decoded_bytes(p))
        } else {
            None
        }),
{
    text::parts_are_found(p, '=', Seq::empty());
}

/// What follows the first `=` does not matter. A character outside the alphabet before it makes
/// the text invalid, and nothing else does.
pub proof fn other_characters_are_refused(p: Seq<char>, rest: Seq<char>)
    requires
        !p.contains('='),
    ensures
        decoded(p + seq!['='] + rest) == decoded(p),
        decoded(p) is None <==> exists|i: int| 0 <= i < p.len() && char_sextet(#[trigger] p[i]) is None,
{
    text::parts_are_found(p, '=', rest);
    lemma_decoded_plain(p);
}

} // verus!
