//! Signed tokens: three base64url segments joined by dots, the header, the
//! claim set, and the HMAC-SHA256 tag of the first two with their dot.

use crate::claims::{
    check_claims, checked, lemma_checked_raw_of, lemma_checked_subject_fits,
    lemma_payload_json_of_read, lemma_read_payload_json, parse_payload, payload_json, raw_of,
    read_payload, write_payload, Claims, ClaimsView, RawClaims, RawClaimsView,
    MAX_SUBJECT_BYTES,
};
use crate::clock::unix_now;
use crate::encoding::{
    base64url, base64url_decoded, decode_base64url, encode_base64url, is_base64url_byte,
};
use crate::mac::{hmac_sha256, hmac_sha256_tag};
use crate::role::Role;
use crate::text::{append, ascii_string, bytes_eq, constant_time_eq, is_ascii_bytes};
use vstd::prelude::*;
use vstd::slice::slice_subrange;
use vstd::utf8::*;

verus! {

/// The byte that joins the segments of a token.
pub const DOT: u8 = 0x2E;

/// Why a token was not accepted.
#[derive(Clone, Copy, Debug, PartialEq, Eq, Structural)]
pub enum TokenError {
    /// The token is not three segments under this codec's header with the
    /// tag that this codec's secret gives them.
    InvalidSignature,
    /// The signature holds and the token's expiry is not in the future.
    TokenExpired,
    /// The signature holds and the token is not expired, but its second
    /// segment is not a claim set, or names no role or no subject.
    MalformedClaims,
}

/// `{"alg":"HS256","typ":"JWT"}`
pub open spec fn header_json() -> Seq<u8> {
    seq![
        0x7B, 0x22, 0x61, 0x6C, 0x67, 0x22, 0x3A, 0x22, 0x48, 0x53, 0x32, 0x35, 0x36, 0x22, 0x2C,
        0x22, 0x74, 0x79, 0x70, 0x22, 0x3A, 0x22, 0x4A, 0x57, 0x54, 0x22, 0x7D,
    ]
}

/// The first segment of every token.
pub open spec fn header_segment() -> Seq<u8> {
    base64url(header_json())
}

/// What is signed: the header segment, a dot, and the segment of the claim
/// set whose JSON text is `payload`.
pub open spec fn signing_input(payload: Seq<u8>) -> Seq<u8> {
    header_segment() + seq![DOT] + base64url(payload)
}

/// The third segment: the tag of `message` under `secret`, in base64url.
pub open spec fn signature_segment(secret: Seq<u8>, message: Seq<u8>) -> Seq<u8> {
    base64url(hmac_sha256_tag(secret, message))
}

/// The token that `secret` makes of the claim set whose JSON text is
/// `payload`.
pub open spec fn token_text(secret: Seq<u8>, payload: Seq<u8>) -> Seq<u8> {
    signing_input(payload) + seq![DOT] + signature_segment(secret, signing_input(payload))
}

/// The index of the first dot at or behind `from`, or the length of `text`
/// where there is none.
pub open spec fn next_dot(text: Seq<u8>, from: int) -> int
    decreases text.len() - from,
{
    if from < 0 || from >= text.len() {
        text.len() as int
    } else if text[from] == DOT {
        from
    } else {
        next_dot(text, from + 1)
    }
}

/// True when `text` holds no dot.
pub open spec fn no_dot(text: Seq<u8>) -> bool {
    forall|i: int| 0 <= i < text.len() ==> #[trigger] text[i] != DOT
}

/// The indices of the two dots of a token, where it holds exactly two.
pub open spec fn dots(token: Seq<u8>) -> Option<(int, int)> {
    let first = next_dot(token, 0);
    let second = next_dot(token, first + 1);
    if first < token.len() && second < token.len() && next_dot(token, second + 1) == token.len() {
        Some((first, second))
    } else {
        None
    }
}

/// Where the third segment of a token starts: behind its second dot.
pub open spec fn signature_start(token: Seq<u8>) -> int {
    match dots(token) {
        Some((first, second)) => second + 1,
        None => token.len() as int,
    }
}

/// The three segments of a token, where it holds exactly two dots.
pub open spec fn parts(token: Seq<u8>) -> Option<(Seq<u8>, Seq<u8>, Seq<u8>)> {
    match dots(token) {
        Some((first, second)) => Some(
            (
                token.subrange(0, first),
                token.subrange(first + 1, second),
                token.subrange(second + 1, token.len() as int),
            ),
        ),
        None => None,
    }
}

/// The second segment of a token that `secret` signed: the token has three
/// segments, the first is the header segment, and the third is the signature
/// segment of the first two.
pub open spec fn signed_payload(secret: Seq<u8>, token: Seq<u8>) -> Option<Seq<u8>> {
    match parts(token) {
        Some((header, payload, signature)) => if header == header_segment() && signature
            == signature_segment(secret, header + seq![DOT] + payload) {
            Some(payload)
        } else {
            None
        },
        None => None,
    }
}

/// The members that a token carries, whenever it is read: the signature is
/// judged first, and only a signed segment is decoded and read.
pub open spec fn unsealed(secret: Seq<u8>, token: Seq<u8>) -> Result<RawClaimsView, TokenError> {
    match signed_payload(secret, token) {
        None => Err(TokenError::InvalidSignature),
        Some(segment) => match base64url_decoded(segment) {
            None => Err(TokenError::MalformedClaims),
            Some(json) => match read_payload(json) {
                None => Err(TokenError::MalformedClaims),
                Some(raw) => Ok(raw),
            },
        },
    }
}

/// What decoding a token at the time `now` gives: the signature first, then
/// the expiry, then the subject and the role.
pub open spec fn decoded(secret: Seq<u8>, token: Seq<u8>, now: u64) -> Result<
    ClaimsView,
    TokenError,
> {
    match unsealed(secret, token) {
        Err(e) => Err(e),
        Ok(raw) => if raw.exp <= now {
            Err(TokenError::TokenExpired)
        } else {
            match checked(raw) {
                None => Err(TokenError::MalformedClaims),
                Some(claims) => Ok(claims),
            }
        },
    }
}

/// The claim set that a token carries, whatever the time: the signature
/// first, then the subject and the role.
pub open spec fn carried(secret: Seq<u8>, token: Seq<u8>) -> Result<ClaimsView, TokenError> {
    match unsealed(secret, token) {
        Err(e) => Err(e),
        Ok(raw) => match checked(raw) {
            None => Err(TokenError::MalformedClaims),
            Some(claims) => Ok(claims),
        },
    }
}

/// A fixed message by which the signing of two secrets is told apart: the
/// bytes of `probe`.
pub open spec fn key_probe() -> Seq<u8> {
    seq![0x70, 0x72, 0x6F, 0x62, 0x65]
}

/// True when two secrets give the probe message one signature. Equal secrets
/// do, and so do secrets that HMAC takes for one key, as a short secret and
/// the same secret with zero bytes behind it.
pub open spec fn sign_alike(a: Seq<u8>, b: Seq<u8>) -> bool {
    signature_segment(a, key_probe()) == signature_segment(b, key_probe())
}

/// The outcome of a decoding as a mathematical value.
pub open spec fn outcome_view(outcome: Result<Claims, TokenError>) -> Result<
    ClaimsView,
    TokenError,
> {
    match outcome {
        Ok(claims) => Ok(claims@),
        Err(e) => Err(e),
    }
}

/// The expiry of a token issued at `now` that lives `ttl` seconds; it stops
/// at the last second a `u64` can name.
pub open spec fn expiry(now: u64, ttl: u64) -> u64 {
    if now + ttl > u64::MAX {
        u64::MAX
    } else {
        (now + ttl) as u64
    }
}

/// The claim set of a token issued at `now` that lives `ttl` seconds.
pub open spec fn issued_claims(subject: Seq<char>, role: Role, now: u64, ttl: u64) -> ClaimsView {
    ClaimsView { sub: subject, role, iat: now, exp: expiry(now, ttl) }
}

/// A dot is found where the bytes before it hold none.
pub proof fn lemma_next_dot_is(text: Seq<u8>, from: int, at: int)
    requires
        0 <= from <= at <= text.len(),
        forall|i: int| from <= i < at ==> #[trigger] text[i] != DOT,
        at < text.len() ==> text[at] == DOT,
    ensures
        next_dot(text, from) == at,
    decreases at - from,
{
    if from < at {
        lemma_next_dot_is(text, from + 1, at);
    }
}

/// Three segments without dots, joined by dots, are the parts of what they
/// make.
pub proof fn lemma_parts_of_joined(header: Seq<u8>, payload: Seq<u8>, signature: Seq<u8>)
    requires
        no_dot(header),
        no_dot(payload),
        no_dot(signature),
    ensures
        parts(header + seq![DOT] + payload + seq![DOT] + signature) == Some(
            (header, payload, signature),
        ),
{
    let token = header + seq![DOT] + payload + seq![DOT] + signature;
    let first = header.len() as int;
    let second = first + 1 + payload.len();
    assert(forall|i: int| 0 <= i < first ==> token[i] == header[i]);
    assert(forall|i: int| first < i < second ==> token[i] == payload[i - first - 1]);
    assert(forall|i: int| second < i < token.len() ==> token[i] == signature[i - second - 1]);
    lemma_next_dot_is(token, 0, first);
    lemma_next_dot_is(token, first + 1, second);
    lemma_next_dot_is(token, second + 1, token.len() as int);
    assert(token.subrange(0, first) =~= header);
    assert(token.subrange(first + 1, second) =~= payload);
    assert(token.subrange(second + 1, token.len() as int) =~= signature);
}

/// Text in the base64url alphabet holds no dot and is ASCII.
pub proof fn lemma_base64url_text(text: Seq<u8>)
    requires
        forall|i: int| 0 <= i < text.len() ==> is_base64url_byte(#[trigger] text[i]),
    ensures
        no_dot(text),
        is_ascii_bytes(text),
{
}

/// A correctly signed token whose expiry has come is refused as expired,
/// whatever else it holds.
pub proof fn lemma_expired_is_refused(secret: Seq<u8>, token: Seq<u8>, now: u64)
    requires
        unsealed(secret, token) matches Ok(raw) && raw.exp <= now,
    ensures
        decoded(secret, token, now) == Err::<ClaimsView, TokenError>(TokenError::TokenExpired),
{
}

/// A token with any other third segment than the one that was signed is
/// refused for its signature, at any time and whatever its claim set says.
pub proof fn lemma_tampered_signature_is_refused(
    secret: Seq<u8>,
    token: Seq<u8>,
    forged: Seq<u8>,
    now: u64,
)
    requires
        signed_payload(secret, token) is Some,
        forged != token.subrange(signature_start(token), token.len() as int),
    ensures
        decoded(secret, token.subrange(0, signature_start(token)) + forged, now) == Err::<
            ClaimsView,
            TokenError,
        >(TokenError::InvalidSignature),
{
    let (first, second) = dots(token).unwrap();
    let (header, payload, signature) = parts(token).unwrap();
    let other = token.subrange(0, second + 1) + forged;
    lemma_next_dot_bounds(token, 0);
    lemma_next_dot_bounds(token, first + 1);
    lemma_next_dot_bounds(token, second + 1);
    assert(no_dot(header));
    assert(no_dot(payload));
    assert(other =~= header + seq![DOT] + payload + seq![DOT] + forged);
    if no_dot(forged) {
        lemma_parts_of_joined(header, payload, forged);
    } else {
        let k = choose|k: int| 0 <= k < forged.len() && forged[k] == DOT;
        assert(forall|i: int| 0 <= i < first ==> other[i] == header[i]);
        assert(forall|i: int| first < i < second ==> other[i] == payload[i - first - 1]);
        lemma_next_dot_is(other, 0, first);
        lemma_next_dot_is(other, first + 1, second);
        assert(other[second + 1 + k] == forged[k]);
        lemma_next_dot_bounds(other, second + 1);
        assert(next_dot(other, second + 1) <= second + 1 + k);
        assert(dots(other) is None);
    }
}

/// Where the next dot is: not before `from`, not behind the end, behind
/// bytes that are no dots, and on a dot unless at the end.
pub proof fn lemma_next_dot_bounds(text: Seq<u8>, from: int)
    requires
        0 <= from <= text.len(),
    ensures
        from <= next_dot(text, from) <= text.len(),
        forall|i: int| from <= i < next_dot(text, from) ==> #[trigger] text[i] != DOT,
        next_dot(text, from) < text.len() ==> text[next_dot(text, from)] == DOT,
    decreases text.len() - from,
{
    if from < text.len() && text[from] != DOT {
        lemma_next_dot_bounds(text, from + 1);
    }
}

/// Changing one bit of one byte of the third segment of a signed token makes
/// a token that is refused for its signature.
pub proof fn lemma_flipped_bit_is_refused(
    secret: Seq<u8>,
    token: Seq<u8>,
    at: int,
    bit: u8,
    now: u64,
)
    requires
        signed_payload(secret, token) is Some,
        signature_start(token) <= at < token.len(),
        bit < 8,
    ensures
        decoded(secret, token.update(at, token[at] ^ (1u8 << bit)), now) == Err::<
            ClaimsView,
            TokenError,
        >(TokenError::InvalidSignature),
{
    lemma_next_dot_bounds(token, 0);
    lemma_next_dot_bounds(token, dots(token).unwrap().0 + 1);
    let start = signature_start(token);
    let signature = token.subrange(start, token.len() as int);
    let old_byte = token[at];
    let new_byte = old_byte ^ (1u8 << bit);
    assert(new_byte != old_byte) by (bit_vector)
        requires
            new_byte == old_byte ^ (1u8 << bit),
            bit < 8,
    ;
    let forged = signature.update(at - start, new_byte);
    assert(forged[at - start] != signature[at - start]);
    assert(token.update(at, new_byte) =~= token.subrange(0, start) + forged);
    lemma_tampered_signature_is_refused(secret, token, forged, now);
}

/// A token that carries a claim set decodes to it before its expiry, and is
/// refused as expired from then on.
pub proof fn lemma_carried_decodes(secret: Seq<u8>, token: Seq<u8>)
    requires
        carried(secret, token) is Ok,
    ensures
        forall|at: u64|
            #[trigger] decoded(secret, token, at) == if at < carried(secret, token).unwrap().exp {
                carried(secret, token)
            } else {
                Err::<ClaimsView, TokenError>(TokenError::TokenExpired)
            },
        encode_utf8(carried(secret, token).unwrap().sub).len() <= MAX_SUBJECT_BYTES,
{
    lemma_checked_subject_fits(unsealed(secret, token).unwrap());
}

/// A token that decodes at some time carries the claim set it decodes to.
pub proof fn lemma_decoded_is_carried(secret: Seq<u8>, token: Seq<u8>, now: u64)
    requires
        decoded(secret, token, now) is Ok,
    ensures
        carried(secret, token) == decoded(secret, token, now),
        now < decoded(secret, token, now).unwrap().exp,
        encode_utf8(decoded(secret, token, now).unwrap().sub).len() <= MAX_SUBJECT_BYTES,
{
    lemma_checked_subject_fits(unsealed(secret, token).unwrap());
}

/// The second segment of a token that carries a claim set decodes to the
/// JSON text of that claim set, as this library writes it.
pub proof fn lemma_carried_payload_is_written(secret: Seq<u8>, token: Seq<u8>)
    requires
        carried(secret, token) is Ok,
    ensures
        ({
            let claims = carried(secret, token).unwrap();
            let segment = signed_payload(secret, token).unwrap();
            base64url_decoded(segment) == Some(
                payload_json(encode_utf8(claims.sub), claims.role.name(), claims.iat, claims.exp),
            )
        }),
{
    let raw = unsealed(secret, token).unwrap();
    let json = base64url_decoded(signed_payload(secret, token).unwrap()).unwrap();
    lemma_checked_subject_fits(raw);
    lemma_payload_json_of_read(json);
}

/// A signed token whose second segment is the claim set issued to `subject`
/// carries that claim set.
pub proof fn lemma_sealed_carries(
    secret: Seq<u8>,
    token: Seq<u8>,
    subject: Seq<char>,
    role: Role,
    now: u64,
    ttl: u64,
)
    requires
        encode_utf8(subject).len() <= MAX_SUBJECT_BYTES,
        ({
            let json = payload_json(encode_utf8(subject), role.name(), now, expiry(now, ttl));
            signed_payload(secret, token) == Some(base64url(json)) && base64url_decoded(
                base64url(json),
            ) == Some(json)
        }),
    ensures
        carried(secret, token) == Ok::<ClaimsView, TokenError>(
            issued_claims(subject, role, now, ttl),
        ),
{
    let claims = issued_claims(subject, role, now, ttl);
    lemma_read_payload_json(encode_utf8(subject), role.name(), now, expiry(now, ttl));
    lemma_checked_raw_of(claims);
    assert(unsealed(secret, token) == Ok::<RawClaimsView, TokenError>(raw_of(claims)));
}

/// Finds the first dot at or behind `from`.
fn find_dot(text: &[u8], from: usize) -> (at: usize)
    requires
        from <= text@.len(),
    ensures
        at == next_dot(text@, from as int),
        from <= at <= text@.len(),
{
    let mut i: usize = from;
    while i < text.len() && text[i] != DOT
        invariant
            from <= i <= text.len(),
            next_dot(text@, from as int) == next_dot(text@, i as int),
        decreases text.len() - i,
    {
        i += 1;
    }
    i
}

/// Finds the two dots of a token that holds exactly two.
pub fn split_token(token: &[u8]) -> (found: Option<(usize, usize)>)
    ensures
        match found {
            Some((first, second)) => first < second < token@.len() && dots(token@) == Some(
                (first as int, second as int),
            ),
            None => dots(token@) is None,
        },
{
    let len: usize = token.len();
    let first: usize = find_dot(token, 0);
    if first >= len {
        return None;
    }
    let second: usize = find_dot(token, first + 1);
    if second >= len {
        return None;
    }
    let third: usize = find_dot(token, second + 1);
    if third < len {
        return None;
    }
    Some((first, second))
}

fn header_json_bytes() -> (bytes: Vec<u8>)
    ensures
        bytes@ == header_json(),
{
    let json: [u8; 27] = [
        0x7B, 0x22, 0x61, 0x6C, 0x67, 0x22, 0x3A, 0x22, 0x48, 0x53, 0x32, 0x35, 0x36, 0x22, 0x2C,
        0x22, 0x74, 0x79, 0x70, 0x22, 0x3A, 0x22, 0x4A, 0x57, 0x54, 0x22, 0x7D,
    ];
    assert(json@ =~= header_json());
    let mut bytes: Vec<u8> = Vec::new();
    append(&mut bytes, json.as_slice());
    assert(bytes@ =~= header_json());
    bytes
}

/// Signs a message: its tag under `secret`, in base64url.
pub fn sign(secret: &[u8], message: &[u8]) -> (signature: Vec<u8>)
    ensures
        signature@ == signature_segment(secret@, message@),
        no_dot(signature@),
        is_ascii_bytes(signature@),
{
    let tag = hmac_sha256(secret, message);
    let signature = encode_base64url(tag.as_slice());
    proof {
        lemma_base64url_text(signature@);
    }
    signature
}

/// Makes the token of a claim set from its JSON text.
pub fn seal(secret: &[u8], payload: &[u8]) -> (token: Vec<u8>)
    requires
        payload@.len() <= usize::MAX / 2,
    ensures
        token@ == token_text(secret@, payload@),
        is_ascii_bytes(token@),
        signed_payload(secret@, token@) == Some(base64url(payload@)),
        base64url_decoded(base64url(payload@)) == Some(payload@),
{
    let header_json = header_json_bytes();
    let mut token = encode_base64url(header_json.as_slice());
    let ghost header = token@;
    token.push(DOT);
    let segment = encode_base64url(payload);
    append(&mut token, segment.as_slice());
    assert(token@ =~= signing_input(payload@));
    let signature = sign(secret, token.as_slice());
    token.push(DOT);
    append(&mut token, signature.as_slice());
    proof {
        assert(token@ =~= header + seq![DOT] + segment@ + seq![DOT] + signature@);
        assert(token@ =~= token_text(secret@, payload@));
        lemma_base64url_text(header);
        lemma_base64url_text(segment@);
        lemma_parts_of_joined(header, segment@, signature@);
    }
    token
}

/// Reads the members that a token carries, after judging its signature.
pub fn unseal(secret: &[u8], token: &[u8]) -> (members: Result<RawClaims, TokenError>)
    ensures
        match members {
            Ok(raw) => unsealed(secret@, token@) == Ok::<RawClaimsView, TokenError>(raw@),
            Err(e) => unsealed(secret@, token@) == Err::<RawClaimsView, TokenError>(e),
        },
{
    let len: usize = token.len();
    let (first, second) = match split_token(token) {
        Some(found) => found,
        None => { return Err(TokenError::InvalidSignature); },
    };
    proof {
        lemma_next_dot_bounds(token@, 0);
        lemma_next_dot_bounds(token@, first + 1);
    }
    let header_json = header_json_bytes();
    let header = encode_base64url(header_json.as_slice());
    if !bytes_eq(slice_subrange(token, 0, first), header.as_slice()) {
        return Err(TokenError::InvalidSignature);
    }
    let signature = sign(secret, slice_subrange(token, 0, second));
    assert(token@.subrange(0, second as int) =~= token@.subrange(0, first as int) + seq![DOT]
        + token@.subrange(first + 1, second as int));
    if !constant_time_eq(signature.as_slice(), slice_subrange(token, second + 1, len)) {
        return Err(TokenError::InvalidSignature);
    }
    let json = match decode_base64url(slice_subrange(token, first + 1, second)) {
        Ok(json) => json,
        Err(_) => { return Err(TokenError::MalformedClaims); },
    };
    match parse_payload(json.as_slice()) {
        Some(raw) => Ok(raw),
        None => Err(TokenError::MalformedClaims),
    }
}

/// Makes and reads the tokens of one class: access tokens or refresh tokens.
/// Its secret and the lifetime of its tokens are fixed when it is made.
pub struct TokenCodec {
    secret: Vec<u8>,
    ttl: u64,
}

impl TokenCodec {
    /// The secret that signs this codec's tokens.
    pub closed spec fn secret(&self) -> Seq<u8> {
        self.secret@
    }

    /// How many seconds a token of this codec lives.
    pub closed spec fn ttl(&self) -> u64 {
        self.ttl
    }

    /// The bytes of the token that this codec issues to `subject` at `now`.
    pub open spec fn issued(&self, subject: Seq<char>, role: Role, now: u64) -> Seq<u8> {
        token_text(
            self.secret(),
            payload_json(encode_utf8(subject), role.name(), now, expiry(now, self.ttl())),
        )
    }

    /// What this codec makes of `token` at the time `now`.
    pub open spec fn decoded(&self, token: Seq<char>, now: u64) -> Result<ClaimsView, TokenError> {
        decoded(self.secret(), encode_utf8(token), now)
    }

    /// The claim set that `token` carries under this codec, whatever the
    /// time.
    pub open spec fn carried(&self, token: Seq<char>) -> Result<ClaimsView, TokenError> {
        carried(self.secret(), encode_utf8(token))
    }

    /// True when `token` is what this codec issues to `subject` at `now`,
    /// and carries the claim set issued then.
    pub open spec fn issues(&self, token: Seq<char>, subject: Seq<char>, role: Role, now: u64) -> bool {
        &&& encode_utf8(token) == self.issued(subject, role, now)
        &&& encode_utf8(subject).len() <= MAX_SUBJECT_BYTES
        &&& self.carried(token) == Ok::<ClaimsView, TokenError>(
            issued_claims(subject, role, now, self.ttl()),
        )
    }

    /// A codec with the given secret whose tokens live `ttl` seconds.
    pub fn new(secret: &[u8], ttl: u64) -> (codec: TokenCodec)
        ensures
            codec.secret() == secret@,
            codec.ttl() == ttl,
    {
        let mut owned: Vec<u8> = Vec::new();
        append(&mut owned, secret);
        TokenCodec { secret: owned, ttl }
    }

    /// How many seconds a token of this codec lives.
    pub fn ttl_seconds(&self) -> (ttl: u64)
        ensures
            ttl == self.ttl(),
    {
        self.ttl
    }

    /// Whether two codecs sign with the same secret.
    pub fn shares_secret_with(&self, other: &TokenCodec) -> (same: bool)
        ensures
            same == (self.secret() == other.secret()),
    {
        constant_time_eq(self.secret.as_slice(), other.secret.as_slice())
    }

    /// Whether two codecs give the probe message one signature.
    pub fn signs_like(&self, other: &TokenCodec) -> (same: bool)
        ensures
            same == sign_alike(self.secret(), other.secret()),
    {
        let probe: [u8; 5] = [0x70, 0x72, 0x6F, 0x62, 0x65];
        assert(probe@ =~= key_probe());
        let mine = sign(self.secret.as_slice(), probe.as_slice());
        let theirs = sign(other.secret.as_slice(), probe.as_slice());
        constant_time_eq(mine.as_slice(), theirs.as_slice())
    }

    /// Issues a token to `subject` at the time `now`. The token is issued at
    /// `now` and expires `ttl` seconds later. Decoded by this codec it gives
    /// its claim set back at any time before its expiry, and is refused as
    /// expired from then on.
    pub fn encode_at(&self, subject: &str, role: Role, now: u64) -> (token: String)
        requires
            encode_utf8(subject@).len() <= MAX_SUBJECT_BYTES,
        ensures
            self.issues(token@, subject@, role, now),
            forall|at: u64|
                #[trigger] self.decoded(token@, at) == if at < expiry(now, self.ttl()) {
                    Ok::<ClaimsView, TokenError>(issued_claims(subject@, role, now, self.ttl()))
                } else {
                    Err::<ClaimsView, TokenError>(TokenError::TokenExpired)
                },
    {
        let exp: u64 = now.saturating_add(self.ttl);
        let name = role.name_bytes();
        let payload = write_payload(subject.as_bytes(), name.as_slice(), now, exp);
        assert(payload@.len() <= usize::MAX / 2) by {
            assert(name@.len() <= 5);
            assert(usize::MAX >= 0xFFFF_FFFF);
        }
        let bytes = seal(self.secret.as_slice(), payload.as_slice());
        let token = ascii_string(bytes);
        proof {
            lemma_sealed_carries(self.secret(), encode_utf8(token@), subject@, role, now, self.ttl());
            lemma_carried_decodes(self.secret(), encode_utf8(token@));
        }
        token
    }

    /// Issues a token to `subject` at the time the clock shows, which is no
    /// later than the last second an `i64` can name.
    pub fn encode(&self, subject: &str, role: Role) -> (token: String)
        requires
            encode_utf8(subject@).len() <= MAX_SUBJECT_BYTES,
        ensures
            exists|now: u64| now <= i64::MAX && #[trigger] self.issues(token@, subject@, role, now),
    {
        let now: u64 = unix_now();
        self.encode_at(subject, role, now)
    }

    /// Decodes `token` at the time `now`: the claim set it carries, where
    /// this codec signed it, it has not expired, and it names a subject and
    /// a role; else the first of these that fails.
    pub fn decode_at(&self, token: &str, now: u64) -> (outcome: Result<Claims, TokenError>)
        ensures
            outcome_view(outcome) == self.decoded(token@, now),
            outcome matches Ok(claims) ==> encode_utf8(claims.sub@).len() <= MAX_SUBJECT_BYTES,
    {
        proof {
            if self.decoded(token@, now) is Ok {
                lemma_decoded_is_carried(self.secret(), encode_utf8(token@), now);
            }
        }
        let raw = match unseal(self.secret.as_slice(), token.as_bytes()) {
            Ok(raw) => raw,
            Err(e) => { return Err(e); },
        };
        if raw.exp <= now {
            return Err(TokenError::TokenExpired);
        }
        match check_claims(raw) {
            Some(claims) => Ok(claims),
            None => Err(TokenError::MalformedClaims),
        }
    }

    /// Decodes `token` at the time the clock shows, which is no later than
    /// the last second an `i64` can name: a token that carries a claim set
    /// with a later expiry is accepted whatever the clock shows.
    pub fn decode(&self, token: &str) -> (outcome: Result<Claims, TokenError>)
        ensures
            exists|now: u64|
                now <= i64::MAX && outcome_view(outcome) == #[trigger] self.decoded(token@, now),
    {
        let now: u64 = unix_now();
        self.decode_at(token, now)
    }
}

} // verus!
