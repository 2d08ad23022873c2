//! The origin's side of the trust bootstrap: make a secret, register it until accepted.
use vstd::prelude::*;
use vstd::string::StringSliceAdditionalSpecFns;
use crate::bytes::{decimal, matches_at, matches_here, push_all, push_decimal};

verus! {

/// Pause between two registration attempts, in milliseconds.
pub const RETRY_BACKOFF_MS: u64 = 1000;

/// SHA-256 digest of `data`.
pub uninterp spec fn sha256_of(data: Seq<u8>) -> Seq<u8>;

/// Lower-case hexadecimal digit of a value below sixteen.
pub open spec fn hex_digit(n: u8) -> u8 {
    if n < 10 {
        (48 + n) as u8
    } else {
        (87 + n) as u8
    }
}

/// Two lower-case hexadecimal digits for each byte, high nibble first.
pub open spec fn hex_of(b: Seq<u8>) -> Seq<u8>
    decreases b.len(),
{
    if b.len() == 0 {
        Seq::empty()
    } else {
        hex_of(b.drop_last()) + seq![hex_digit(b.last() / 16), hex_digit(b.last() % 16)]
    }
}

/// A lower-case hexadecimal digit.
pub open spec fn is_hex_digit(c: u8) -> bool {
    (48 <= c && c <= 57) || (97 <= c && c <= 102)
}

/// Hex text is twice as long as its input and holds only hexadecimal digits, so no
/// white space, NUL, or line break that framing could trim or split.
pub proof fn lemma_hex_of_digits(b: Seq<u8>)
    ensures
        hex_of(b).len() == 2 * b.len(),
        forall|i: int| 0 <= i < hex_of(b).len() ==> is_hex_digit(#[trigger] hex_of(b)[i]),
    decreases b.len(),
{
    if b.len() > 0 {
        lemma_hex_of_digits(b.drop_last());
        let h = hex_of(b.drop_last());
        let t = seq![hex_digit(b.last() / 16), hex_digit(b.last() % 16)];
        assert forall|i: int| 0 <= i < hex_of(b).len() implies is_hex_digit(#[trigger] hex_of(b)[i]) by {
            if i < h.len() {
                assert(hex_of(b)[i] == h[i]);
            } else {
                assert(hex_of(b)[i] == t[i - h.len()]);
            }
        }
    }
}

/// Relies on rand's `Rng::random_range` on the thread-local generator: a value in
/// `0..bound`; the call panics on an empty range.
#[verifier::external_body]
fn random_index(bound: usize) -> (r: usize)
    requires
        bound > 0,
    ensures
        r < bound,
{
    rand::Rng::random_range(&mut rand::rng(), 0..bound)
}

/// Relies on sha2's `Digest::digest` for `Sha256`: the 32-byte digest of `data`.
#[verifier::external_body]
fn sha256(data: &[u8]) -> (r: Vec<u8>)
    ensures
        r@ == sha256_of(data@),
        r@.len() == 32,
{
    <sha2::Sha256 as sha2::Digest>::digest(data).to_vec()
}

/// Relies on `hex::encode`: two lower-case hexadecimal digits per byte, in order.
#[verifier::external_body]
fn hex_encode(data: &[u8]) -> (r: Vec<u8>)
    ensures
        r@ == hex_of(data@),
{
    hex::encode(data).into_bytes()
}

/// A random string of `size` bytes, each drawn from `charset`.
pub fn generate_secret_key_string(size: usize, charset: &[u8]) -> (r: Vec<u8>)
    requires
        charset@.len() > 0,
    ensures
        r@.len() == size,
        forall|i: int| 0 <= i < size ==> charset@.contains(#[trigger] r@[i]),
{
    let mut out: Vec<u8> = Vec::new();
    let mut i: usize = 0;
    while i < size
        invariant
            i <= size,
            out@.len() == i,
            charset@.len() > 0,
            forall|j: int| 0 <= j < i ==> charset@.contains(#[trigger] out@[j]),
        decreases size - i,
    {
        let k = random_index(charset.len());
        out.push(charset[k]);
        assert(charset@.contains(out@[i as int])) by {
            assert(charset@[k as int] == out@[i as int]);
        }
        i = i + 1;
    }
    out
}

/// The secret text for a digest: its lower-case hex.
pub fn secret_from_digest(digest: &[u8]) -> (r: Vec<u8>)
    ensures
        r@ == hex_of(digest@),
        r@.len() == 2 * digest@.len(),
{
    proof {
        lemma_hex_of_digits(digest@);
    }
    hex_encode(digest)
}

/// The secret derived from a seed: the hex text of its SHA-256 digest.
pub fn secret_from_seed(seed: &[u8]) -> (r: Vec<u8>)
    ensures
        r@ == hex_of(sha256_of(seed@)),
        r@.len() == 64,
{
    let d = sha256(seed);
    secret_from_digest(d.as_slice())
}

/// A fresh secret: a random string of `size` bytes from `charset`, digested and hex
/// encoded, so that the transmitted token is not typed entropy.
pub fn generate_secret(size: usize, charset: &[u8]) -> (r: Vec<u8>)
    requires
        charset@.len() > 0,
    ensures
        r@.len() == 64,
        exists|seed: Seq<u8>|
            seed.len() == size && (forall|i: int| 0 <= i < size ==> charset@.contains(#[trigger] seed[i]))
                && r@ == hex_of(sha256_of(seed)),
{
    let seed = generate_secret_key_string(size, charset);
    let r = secret_from_seed(seed.as_slice());
    assert(seed@.len() == size && (forall|i: int| 0 <= i < size ==> charset@.contains(#[trigger] seed@[i]))
        && r@ == hex_of(sha256_of(seed@)));
    r
}

/// The registration call that hands `secret` to the edge.
pub open spec fn registration_request(secret: Seq<u8>) -> Seq<u8> {
    "POST /register-secret HTTP/1.1\r\nHost: 0.0.0.0:2006\r\nContent-Type: text/plain\r\nContent-Length: ".spec_bytes()
        + decimal(secret.len()) + "\r\n\r\n".spec_bytes() + secret
}

/// The status line with which the edge accepts a registration.
pub open spec fn accepted_status() -> Seq<u8> {
    "HTTP/1.1 200 OK".spec_bytes()
}

/// The edge's answer accepts the registration.
pub open spec fn accepted(answer: Seq<u8>) -> bool {
    matches_at(answer, accepted_status(), 0)
}

/// Bytes of the registration call for `secret`.
pub fn registration_request_bytes(secret: &[u8]) -> (r: Vec<u8>)
    ensures
        r@ == registration_request(secret@),
{
    let mut out: Vec<u8> = Vec::new();
    push_all(
        &mut out,
        "POST /register-secret HTTP/1.1\r\nHost: 0.0.0.0:2006\r\nContent-Type: text/plain\r\nContent-Length: ".as_bytes(),
    );
    push_decimal(&mut out, secret.len());
    push_all(&mut out, "\r\n\r\n".as_bytes());
    push_all(&mut out, secret);
    assert(out@ =~= registration_request(secret@));
    out
}

/// Whether the edge's answer accepts the registration.
pub fn is_accepted(answer: &[u8]) -> (r: bool)
    ensures
        r == accepted(answer@),
{
    matches_here(answer, "HTTP/1.1 200 OK".as_bytes(), 0)
}

/// What the origin does after a registration attempt.
#[derive(Clone, Copy, Debug, PartialEq, Eq, Structural)]
pub enum HandshakeStep {
    /// Wait this many milliseconds, then attempt again.
    Retry { after_ms: u64 },
    /// Registered: begin accepting client connections.
    Serve,
}

/// Progress of the registration loop.
pub struct Handshake {
    pub attempts: u64,
    pub registered: bool,
}

impl Handshake {
    /// No attempt made yet.
    pub fn new() -> (r: Self)
        ensures
            r.attempts == 0,
            !r.registered,
    {
        Handshake { attempts: 0, registered: false }
    }

    /// Records one attempt: `answer` is what the edge replied, or `None` when it could
    /// not be reached. The loop ends only on an accepting answer; every failure is
    /// retried after the same pause, without limit.
    pub fn record_attempt(&mut self, answer: Option<&[u8]>) -> (r: HandshakeStep)
        ensures
            final(self).registered == (old(self).registered || (answer matches Some(a) && accepted(a@))),
            final(self).attempts == if old(self).attempts < u64::MAX {
                old(self).attempts + 1
            } else {
                old(self).attempts as int
            },
            final(self).registered ==> r == HandshakeStep::Serve,
            !final(self).registered ==> r == (HandshakeStep::Retry { after_ms: RETRY_BACKOFF_MS }),
    {
        if self.attempts < u64::MAX {
            self.attempts = self.attempts + 1;
        }
        let ok = match answer {
            Some(a) => is_accepted(a),
            None => false,
        };
        if ok {
            self.registered = true;
        }
        if self.registered {
            HandshakeStep::Serve
        } else {
            HandshakeStep::Retry { after_ms: RETRY_BACKOFF_MS }
        }
    }

    /// Whether the origin may accept client connections.
    pub fn may_serve(&self) -> (r: bool)
        ensures
            r == self.registered,
    {
        self.registered
    }
}

} // verus!
