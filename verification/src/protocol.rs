//! What client and server say to each other.

use vstd::prelude::*;

use crate::text;

verus! {

/// The width of a digest in bytes.
pub const HASH_WIDTH_IN_BYTES: usize = 32;

/// A SHA-256 digest, or a number of the same width that is used once.
pub type Digest = [u8; 32];

/// The first message on a connection. All of them carry the version of the protocol.
#[derive(Debug, Clone, Copy)]
pub enum Hello {
    /// Opens a control channel. The client sends the digest of the name of a service, the
    /// server a nonce.
    ControlChannelHello(u8, Digest),
    /// Opens a data channel, by the session key of its control channel.
    DataChannelHello(u8, Digest),
    /// Opens a visit, by the digest of the name of a secret service.
    VisitorHello(u8, Digest),
}

/// What the server says to an authentication.
#[derive(Debug, Clone, Copy, PartialEq, Eq, Structural)]
pub enum Ack {
    Accepted,
    ServiceNotExist,
    AuthFailed,
    SecretKeyMismatch,
    ServiceNotReady,
}

/// What the server tells the client on a control channel.
#[derive(Debug, Clone, Copy, PartialEq, Eq, Structural)]
pub enum ControlChannelCmd {
    CreateDataChannel,
    HeartBeat,
}

/// What the server tells the client on a data channel.
#[derive(Debug, Clone, Copy, PartialEq, Eq, Structural)]
pub enum DataChannelCmd {
    StartForwardTcp,
    StartForwardUdp,
    StartForwardHttp,
    StartForwardStcp,
}

// ---------- digests ----------

/// What `sha2::Sha256` makes of a byte string.
pub uninterp spec fn sha256(data: Seq<u8>) -> Seq<u8>;

/// `sha2::Sha256::digest`. The digest depends on the bytes alone.
#[verifier::external_body]
pub(crate) fn digest(data: &[u8]) -> (r: Digest)
    ensures
        r@ == sha256(data@),
{
    <sha2::Sha256 as sha2::Digest>::digest(data).into()
}

/// `rand::RngCore::fill_bytes` on the generator of the thread. Any bytes may come out.
#[verifier::external_body]
fn random_digest() -> Digest {
    let mut bytes = [0u8; 32];
    rand::RngCore::fill_bytes(&mut rand::thread_rng(), &mut bytes);
    bytes
}

/// A number that is used once, drawn by chance.
pub fn fresh_nonce() -> (r: Digest)
    ensures
        r@.len() == HASH_WIDTH_IN_BYTES,
{
    random_digest()
}

/// The lower-case hexadecimal text of a byte string, two digits for each byte.
pub open spec fn hex_text(data: Seq<u8>) -> Seq<char> {
    Seq::new(
        2 * data.len(),
        |k: int|
            text::hex_digit(
                if k % 2 == 0 {
                    data[k / 2] as nat / 16
                } else {
                    data[k / 2] as nat % 16
                },
            ),
    )
}

/// Every byte is written with two digits, the high one first, and can be read back from them.
pub proof fn hex_digits_tell_the_byte(data: Seq<u8>, i: int)
    requires
        0 <= i < data.len(),
    ensures
        hex_text(data).len() == 2 * data.len(),
        ({
            let value = |c: char| if '0' <= c <= '9' {
                c as u32 - '0' as u32
            } else {
                c as u32 - 'a' as u32 + 10
            };
            value(hex_text(data)[2 * i]) * 16 + value(hex_text(data)[2 * i + 1]) == data[i]
        }),
{
    assert((2 * i) / 2 == i && (2 * i + 1) / 2 == i);
}

/// `hex::encode` writes each byte as two lower-case hexadecimal digits.
#[verifier::external_body]
fn hex_encode(data: &[u8]) -> (r: String)
    ensures
        r@ == hex_text(data@),
{
    hex::encode(data)
}

/// A digest as it shows in messages.
pub fn digest_text(d: &Digest) -> (r: String)
    ensures
        r@ == hex_text(d@),
{
    hex_encode(d)
}

/// Whether two digests are the same.
pub fn digests_equal(a: &Digest, b: &Digest) -> (r: bool)
    ensures
        r == (a@ == b@),
{
    text::bytes_equal(a, b)
}

/// The digest of a name.
pub open spec fn name_digest(name: Seq<char>) -> Seq<u8> {
    sha256(vstd::utf8::encode_utf8(name))
}

/// The digest by which a service is known.
pub fn service_digest(name: &str) -> (r: Digest)
    ensures
        r@ == name_digest(name@),
        r@ == sha256(vstd::utf8::encode_utf8(name@)),
{
    digest(name.as_bytes())
}

/// The proof that one knows a secret: the digest of the secret and the nonce behind it.
pub open spec fn proof_of(secret: Seq<char>, nonce: Seq<u8>) -> Seq<u8> {
    sha256(vstd::utf8::encode_utf8(secret) + nonce)
}

/// A proof is the digest of the secret with the nonce behind it, and a service is known by the
/// digest of its name.
pub proof fn proofs_cover_secret_and_nonce(secret: Seq<char>, nonce: Seq<u8>, data: Seq<u8>)
    requires
        data.len() == vstd::utf8::encode_utf8(secret).len() + nonce.len(),
        vstd::utf8::encode_utf8(secret).is_prefix_of(data),
        nonce.is_suffix_of(data),
    ensures
        proof_of(secret, nonce) == sha256(data),
        name_digest(secret) == sha256(vstd::utf8::encode_utf8(secret)),
{
    let bytes = vstd::utf8::encode_utf8(secret);
    assert(data == bytes + nonce) by {
        assert forall|i: int| 0 <= i < data.len() implies data[i] == (bytes + nonce)[i] by {
            if i < bytes.len() {
                assert(data.take(bytes.len() as int)[i] == data[i]);
            } else {
                assert(data.skip(data.len() - nonce.len())[i - bytes.len()] == data[i]);
            }
        }
    }
}

/// Computes [`proof_of`].
pub fn auth_digest(secret: &str, nonce: &Digest) -> (r: Digest)
    ensures
        r@ == proof_of(secret@, nonce@),
        r@ == sha256(vstd::utf8::encode_utf8(secret@) + nonce@),
{
    let mut bytes = text::to_bytes(secret);
    bytes.extend_from_slice(nonce);
    assert(bytes@ == vstd::utf8::encode_utf8(secret@) + nonce@);
    digest(bytes.as_slice())
}

} // verus!
