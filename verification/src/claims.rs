//! The claim set a token carries, and its JSON form.
//!
//! A claim set is written as one JSON object with the members `sub`, `role`,
//! `iat` and `exp`, in this order and without white space. The reader accepts
//! this form and no other.

use crate::json::{
    decimal, escape, lemma_decimal_digits, lemma_read_decimal, lemma_read_number_is_decimal,
    lemma_read_quoted, lemma_read_string_is_quoted, lemma_unescape_bounds, parse_number,
    parse_string, push_decimal, push_quoted, quoted, read_number, read_string,
};
use crate::role::Role;
use crate::text::{append, string_from_utf8};
use vstd::prelude::*;
use vstd::utf8::*;

verus! {

/// The longest subject, in bytes of UTF-8, that a claim set can name. It
/// keeps the length of every token within a `usize` of 32 bits.
pub const MAX_SUBJECT_BYTES: usize = 0x1000_0000;

/// What a token says: who the subject is, which role the subject holds, when
/// the token was issued and when it expires, both in seconds since the epoch.
#[derive(Clone, Debug, PartialEq, Eq)]
pub struct Claims {
    pub sub: String,
    pub role: Role,
    pub iat: u64,
    pub exp: u64,
}

/// A claim set as a mathematical value.
pub struct ClaimsView {
    pub sub: Seq<char>,
    pub role: Role,
    pub iat: u64,
    pub exp: u64,
}

impl View for Claims {
    type V = ClaimsView;

    open spec fn view(&self) -> ClaimsView {
        ClaimsView { sub: self.sub@, role: self.role, iat: self.iat, exp: self.exp }
    }
}

/// The members of a claim set as they are read, before the subject is known
/// to be text and the role to be one of the roles.
#[derive(Clone, Debug, PartialEq, Eq)]
pub struct RawClaims {
    pub sub: Vec<u8>,
    pub role: Vec<u8>,
    pub iat: u64,
    pub exp: u64,
}

/// Unchecked members as a mathematical value.
pub struct RawClaimsView {
    pub sub: Seq<u8>,
    pub role: Seq<u8>,
    pub iat: u64,
    pub exp: u64,
}

impl View for RawClaims {
    type V = RawClaimsView;

    open spec fn view(&self) -> RawClaimsView {
        RawClaimsView { sub: self.sub@, role: self.role@, iat: self.iat, exp: self.exp }
    }
}

/// `{"sub":`
pub open spec fn key_sub() -> Seq<u8> {
    seq![0x7B, 0x22, 0x73, 0x75, 0x62, 0x22, 0x3A]
}

/// `,"role":`
pub open spec fn key_role() -> Seq<u8> {
    seq![0x2C, 0x22, 0x72, 0x6F, 0x6C, 0x65, 0x22, 0x3A]
}

/// `,"iat":`
pub open spec fn key_iat() -> Seq<u8> {
    seq![0x2C, 0x22, 0x69, 0x61, 0x74, 0x22, 0x3A]
}

/// `,"exp":`
pub open spec fn key_exp() -> Seq<u8> {
    seq![0x2C, 0x22, 0x65, 0x78, 0x70, 0x22, 0x3A]
}

/// `}`
pub const CLOSE: u8 = 0x7D;

/// The JSON text of a claim set with the given members.
#[verifier::opaque]
pub open spec fn payload_json(sub: Seq<u8>, role: Seq<u8>, iat: u64, exp: u64) -> Seq<u8> {
    key_sub() + quoted(sub) + key_role() + quoted(role) + key_iat() + decimal(iat as nat)
        + key_exp() + decimal(exp as nat) + seq![CLOSE]
}

/// True when `key` stands in `text` at `i`.
pub open spec fn starts_at(text: Seq<u8>, i: int, key: Seq<u8>) -> bool {
    0 <= i && i + key.len() <= text.len() && text.subrange(i, i + key.len()) == key
}

/// The members that `text` writes, where it is the JSON text of a claim set.
pub open spec fn read_payload(text: Seq<u8>) -> Option<RawClaimsView> {
    if !starts_at(text, 0, key_sub()) {
        None
    } else {
        match read_string(text, 7) {
            None => None,
            Some((sub, a)) => if !starts_at(text, a, key_role()) {
                None
            } else {
                match read_string(text, a + 8) {
                    None => None,
                    Some((role, b)) => if !starts_at(text, b, key_iat()) {
                        None
                    } else {
                        match read_number(text, b + 7) {
                            None => None,
                            Some((iat, c)) => if !starts_at(text, c, key_exp()) {
                                None
                            } else {
                                match read_number(text, c + 7) {
                                    None => None,
                                    Some((exp, d)) => if d + 1 == text.len() && text[d] == CLOSE {
                                        Some(RawClaimsView { sub, role, iat, exp })
                                    } else {
                                        None
                                    },
                                }
                            },
                        }
                    },
                }
            },
        }
    }
}

/// The members of a claim set as they are written: the subject in UTF-8 and
/// the role by its name.
pub open spec fn raw_of(claims: ClaimsView) -> RawClaimsView {
    RawClaimsView {
        sub: encode_utf8(claims.sub),
        role: claims.role.name(),
        iat: claims.iat,
        exp: claims.exp,
    }
}

/// The claim set that unchecked members stand for: there is one where the
/// role is a role's name and the subject is UTF-8 of no more than
/// `MAX_SUBJECT_BYTES` bytes.
pub open spec fn checked(raw: RawClaimsView) -> Option<ClaimsView> {
    match Role::named(raw.role) {
        Some(role) => if valid_utf8(raw.sub) && raw.sub.len() <= MAX_SUBJECT_BYTES {
            Some(ClaimsView { sub: decode_utf8(raw.sub), role, iat: raw.iat, exp: raw.exp })
        } else {
            None
        },
        None => None,
    }
}

/// Ten to the power `k`.
pub open spec fn pow10(k: nat) -> nat
    decreases k,
{
    if k == 0 {
        1
    } else {
        10 * pow10((k - 1) as nat)
    }
}

/// A number below ten to the `k` is written in at most `k` digits.
pub proof fn lemma_decimal_len(n: nat, k: nat)
    requires
        k >= 1,
        n < pow10(k),
    ensures
        decimal(n).len() <= k,
    decreases k,
{
    if n >= 10 {
        reveal_with_fuel(pow10, 2);
        assert(k >= 2);
        lemma_decimal_len(n / 10, (k - 1) as nat);
    }
}

/// No `u64` takes more than twenty digits.
pub proof fn lemma_decimal_len_u64(n: u64)
    ensures
        1 <= decimal(n as nat).len() <= 20,
{
    assert(pow10(20) == 100000000000000000000) by {
        reveal_with_fuel(pow10, 21);
    }
    lemma_decimal_len(n as nat, 20);
    lemma_decimal_digits(n as nat);
}

/// A string is written in at most six bytes for each of its own.
pub proof fn lemma_escape_len(s: Seq<u8>)
    ensures
        s.len() <= escape(s).len() <= 6 * s.len(),
    decreases s.len(),
{
    if s.len() > 0 {
        lemma_escape_len(s.drop_first());
    }
}

/// How long the JSON text of a claim set can be.
pub proof fn lemma_payload_len(sub: Seq<u8>, role: Seq<u8>, iat: u64, exp: u64)
    ensures
        payload_json(sub, role, iat, exp).len() <= 6 * sub.len() + 6 * role.len() + 74,
{
    reveal(payload_json);
    lemma_escape_len(sub);
    lemma_escape_len(role);
    lemma_decimal_len_u64(iat);
    lemma_decimal_len_u64(exp);
}

/// Where the parts of nine joined strings stand in the whole.
proof fn lemma_joined_parts(
    a0: Seq<u8>,
    a1: Seq<u8>,
    a2: Seq<u8>,
    a3: Seq<u8>,
    a4: Seq<u8>,
    a5: Seq<u8>,
    a6: Seq<u8>,
    a7: Seq<u8>,
    a8: Seq<u8>,
)
    ensures
        ({
            let whole = a0 + a1 + a2 + a3 + a4 + a5 + a6 + a7 + a8;
            let o1 = a0.len() as int;
            let o2 = o1 + a1.len();
            let o3 = o2 + a2.len();
            let o4 = o3 + a3.len();
            let o5 = o4 + a4.len();
            let o6 = o5 + a5.len();
            let o7 = o6 + a6.len();
            let o8 = o7 + a7.len();
            &&& whole.len() == o8 + a8.len()
            &&& whole.subrange(0, o1) == a0
            &&& whole.subrange(o1, o2) == a1
            &&& whole.subrange(o2, o3) == a2
            &&& whole.subrange(o3, o4) == a3
            &&& whole.subrange(o4, o5) == a4
            &&& whole.subrange(o5, o6) == a5
            &&& whole.subrange(o6, o7) == a6
            &&& whole.subrange(o7, o8) == a7
            &&& whole.subrange(o8, o8 + a8.len()) == a8
        }),
{
    let whole = a0 + a1 + a2 + a3 + a4 + a5 + a6 + a7 + a8;
    let o1 = a0.len() as int;
    let o2 = o1 + a1.len();
    let o3 = o2 + a2.len();
    let o4 = o3 + a3.len();
    let o5 = o4 + a4.len();
    let o6 = o5 + a5.len();
    let o7 = o6 + a6.len();
    let o8 = o7 + a7.len();
    assert(whole.subrange(0, o1) =~= a0);
    assert(whole.subrange(o1, o2) =~= a1);
    assert(whole.subrange(o2, o3) =~= a2);
    assert(whole.subrange(o3, o4) =~= a3);
    assert(whole.subrange(o4, o5) =~= a4);
    assert(whole.subrange(o5, o6) =~= a5);
    assert(whole.subrange(o6, o7) =~= a6);
    assert(whole.subrange(o7, o8) =~= a7);
    assert(whole.subrange(o8, o8 + a8.len()) =~= a8);
}

/// True when `text` holds, one behind the other and up to its end, the keys
/// and the written members of a claim set.
spec fn laid_out(text: Seq<u8>, sub: Seq<u8>, role: Seq<u8>, iat: u64, exp: u64) -> bool {
    let a = 7 + quoted(sub).len() as int;
    let b = a + 8 + quoted(role).len() as int;
    let c = b + 7 + decimal(iat as nat).len() as int;
    let d = c + 7 + decimal(exp as nat).len() as int;
    &&& text.len() == d + 1
    &&& text.subrange(0, 7) == key_sub()
    &&& text.subrange(7, a) == quoted(sub)
    &&& text.subrange(a, a + 8) == key_role()
    &&& text.subrange(a + 8, b) == quoted(role)
    &&& text.subrange(b, b + 7) == key_iat()
    &&& text.subrange(b + 7, c) == decimal(iat as nat)
    &&& text.subrange(c, c + 7) == key_exp()
    &&& text.subrange(c + 7, d) == decimal(exp as nat)
    &&& text.subrange(d, d + 1) == seq![CLOSE]
}

/// The JSON text of a claim set is laid out as its keys and members.
proof fn lemma_payload_laid_out(sub: Seq<u8>, role: Seq<u8>, iat: u64, exp: u64)
    ensures
        laid_out(payload_json(sub, role, iat, exp), sub, role, iat, exp),
{
    reveal(payload_json);
    lemma_joined_parts(
        key_sub(),
        quoted(sub),
        key_role(),
        quoted(role),
        key_iat(),
        decimal(iat as nat),
        key_exp(),
        decimal(exp as nat),
        seq![CLOSE],
    );
}

/// A text laid out as the keys and members of a claim set reads as that
/// claim set.
proof fn lemma_read_laid_out(text: Seq<u8>, sub: Seq<u8>, role: Seq<u8>, iat: u64, exp: u64)
    requires
        laid_out(text, sub, role, iat, exp),
    ensures
        read_payload(text) == Some(RawClaimsView { sub, role, iat, exp }),
{
    let a = 7 + quoted(sub).len() as int;
    let b = a + 8 + quoted(role).len() as int;
    let c = b + 7 + decimal(iat as nat).len() as int;
    let d = c + 7 + decimal(exp as nat).len() as int;
    assert(read_string(text, 7) == Some((sub, a))) by {
        lemma_read_quoted(text, 7, sub);
    }
    assert(read_string(text, a + 8) == Some((role, b))) by {
        lemma_read_quoted(text, a + 8, role);
    }
    assert(text[c] == 0x2C) by {
        assert(text.subrange(c, c + 7)[0] == key_exp()[0]);
    }
    assert(text[d] == CLOSE) by {
        assert(text.subrange(d, d + 1)[0] == CLOSE);
    }
    assert(read_number(text, b + 7) == Some((iat, c))) by {
        lemma_read_decimal(text, b + 7, iat);
    }
    assert(read_number(text, c + 7) == Some((exp, d))) by {
        lemma_read_decimal(text, c + 7, exp);
    }
}

/// The JSON text of a claim set reads back as its members.
pub proof fn lemma_read_payload_json(sub: Seq<u8>, role: Seq<u8>, iat: u64, exp: u64)
    ensures
        read_payload(payload_json(sub, role, iat, exp)) == Some(
            RawClaimsView { sub, role, iat, exp },
        ),
{
    lemma_payload_laid_out(sub, role, iat, exp);
    lemma_read_laid_out(payload_json(sub, role, iat, exp), sub, role, iat, exp);
}

/// A string is its parts between eight cuts, joined.
proof fn lemma_whole_of_parts(
    text: Seq<u8>,
    o1: int,
    o2: int,
    o3: int,
    o4: int,
    o5: int,
    o6: int,
    o7: int,
    o8: int,
)
    requires
        0 <= o1 <= o2 <= o3 <= o4 <= o5 <= o6 <= o7 <= o8 <= text.len(),
    ensures
        text == text.subrange(0, o1) + text.subrange(o1, o2) + text.subrange(o2, o3)
            + text.subrange(o3, o4) + text.subrange(o4, o5) + text.subrange(o5, o6)
            + text.subrange(o6, o7) + text.subrange(o7, o8) + text.subrange(
            o8,
            text.len() as int,
        ),
{
    let joined = text.subrange(0, o1) + text.subrange(o1, o2) + text.subrange(o2, o3)
        + text.subrange(o3, o4) + text.subrange(o4, o5) + text.subrange(o5, o6) + text.subrange(
        o6,
        o7,
    ) + text.subrange(o7, o8) + text.subrange(o8, text.len() as int);
    assert(text =~= joined);
}

/// A text laid out as the keys and members of a claim set is the JSON text
/// of that claim set.
proof fn lemma_laid_out_is_payload(
    text: Seq<u8>,
    sub: Seq<u8>,
    role: Seq<u8>,
    iat: u64,
    exp: u64,
)
    requires
        laid_out(text, sub, role, iat, exp),
    ensures
        text == payload_json(sub, role, iat, exp),
{
    reveal(payload_json);
    let a = 7 + quoted(sub).len() as int;
    let b = a + 8 + quoted(role).len() as int;
    let c = b + 7 + decimal(iat as nat).len() as int;
    let d = c + 7 + decimal(exp as nat).len() as int;
    lemma_whole_of_parts(text, 7, a, a + 8, b, b + 7, c, c + 7, d);
}

/// A text that reads as a claim set is laid out as its keys and members.
proof fn lemma_read_is_laid_out(text: Seq<u8>)
    requires
        read_payload(text) is Some,
    ensures
        ({
            let raw = read_payload(text).unwrap();
            laid_out(text, raw.sub, raw.role, raw.iat, raw.exp)
        }),
{
    let raw = read_payload(text).unwrap();
    let (sub, a) = read_string(text, 7).unwrap();
    lemma_read_string_is_quoted(text, 7);
    let (role, b) = read_string(text, a + 8).unwrap();
    lemma_read_string_is_quoted(text, a + 8);
    let (iat, c) = read_number(text, b + 7).unwrap();
    lemma_read_number_is_decimal(text, b + 7);
    let (exp, d) = read_number(text, c + 7).unwrap();
    lemma_read_number_is_decimal(text, c + 7);
    assert(text.subrange(d, d + 1) =~= seq![CLOSE]);
}

/// A text that reads as a claim set is the JSON text of that claim set: the
/// reader accepts what the writer writes, and nothing else.
pub proof fn lemma_payload_json_of_read(text: Seq<u8>)
    requires
        read_payload(text) is Some,
    ensures
        ({
            let raw = read_payload(text).unwrap();
            text == payload_json(raw.sub, raw.role, raw.iat, raw.exp)
        }),
{
    let raw = read_payload(text).unwrap();
    lemma_read_is_laid_out(text);
    lemma_laid_out_is_payload(text, raw.sub, raw.role, raw.iat, raw.exp);
}

/// A claim set whose subject is short enough is found again in its own
/// members.
pub proof fn lemma_checked_raw_of(claims: ClaimsView)
    requires
        encode_utf8(claims.sub).len() <= MAX_SUBJECT_BYTES,
    ensures
        checked(raw_of(claims)) == Some(claims),
{
    claims.role.lemma_named_name();
    encode_utf8_valid_utf8(claims.sub);
    encode_utf8_decode_utf8(claims.sub);
}

/// Members that stand for a claim set are the members of that claim set as
/// they are written, and its subject is short enough to be issued again.
pub proof fn lemma_checked_subject_fits(raw: RawClaimsView)
    requires
        checked(raw) is Some,
    ensures
        raw_of(checked(raw).unwrap()) == raw,
        encode_utf8(checked(raw).unwrap().sub).len() <= MAX_SUBJECT_BYTES,
{
    decode_utf8_encode_utf8(raw.sub);
}

fn push_key_sub(out: &mut Vec<u8>)
    ensures
        final(out)@ == old(out)@ + key_sub(),
{
    let key: [u8; 7] = [0x7B, 0x22, 0x73, 0x75, 0x62, 0x22, 0x3A];
    assert(key@ =~= key_sub());
    append(out, key.as_slice());
}

fn push_key_role(out: &mut Vec<u8>)
    ensures
        final(out)@ == old(out)@ + key_role(),
{
    let key: [u8; 8] = [0x2C, 0x22, 0x72, 0x6F, 0x6C, 0x65, 0x22, 0x3A];
    assert(key@ =~= key_role());
    append(out, key.as_slice());
}

fn push_key_iat(out: &mut Vec<u8>)
    ensures
        final(out)@ == old(out)@ + key_iat(),
{
    let key: [u8; 7] = [0x2C, 0x22, 0x69, 0x61, 0x74, 0x22, 0x3A];
    assert(key@ =~= key_iat());
    append(out, key.as_slice());
}

fn push_key_exp(out: &mut Vec<u8>)
    ensures
        final(out)@ == old(out)@ + key_exp(),
{
    let key: [u8; 7] = [0x2C, 0x22, 0x65, 0x78, 0x70, 0x22, 0x3A];
    assert(key@ =~= key_exp());
    append(out, key.as_slice());
}

/// Writes the JSON text of a claim set with the given members.
pub fn write_payload(sub: &[u8], role: &[u8], iat: u64, exp: u64) -> (text: Vec<u8>)
    ensures
        text@ == payload_json(sub@, role@, iat, exp),
        text@.len() <= 6 * sub@.len() + 6 * role@.len() + 74,
{
    let mut text: Vec<u8> = Vec::new();
    push_key_sub(&mut text);
    push_quoted(&mut text, sub);
    push_key_role(&mut text);
    push_quoted(&mut text, role);
    push_key_iat(&mut text);
    push_decimal(&mut text, iat);
    push_key_exp(&mut text);
    push_decimal(&mut text, exp);
    text.push(CLOSE);
    proof {
        reveal(payload_json);
        assert(text@ =~= payload_json(sub@, role@, iat, exp));
        lemma_payload_len(sub@, role@, iat, exp);
    }
    text
}

/// Whether `key` stands in `text` at `at`.
fn expect_key<const N: usize>(text: &[u8], at: usize, key: &[u8; N]) -> (found: bool)
    requires
        at <= text@.len(),
    ensures
        found == starts_at(text@, at as int, key@),
        found ==> at + N <= text@.len(),
{
    if text.len() - at < N {
        return false;
    }
    assert(key@.len() == N);
    let mut i: usize = 0;
    while i < N
        invariant
            i <= N,
            at + N <= text.len(),
            key@.len() == N,
            forall|j: int| 0 <= j < i ==> text@[at + j] == key@[j],
        decreases N - i,
    {
        if text[at + i] != key[i] {
            assert(text@.subrange(at as int, at + N)[i as int] != key@[i as int]);
            return false;
        }
        i += 1;
    }
    assert(text@.subrange(at as int, at + N) =~= key@);
    true
}

/// Reads the members of a claim set from its JSON text.
pub fn parse_payload(text: &[u8]) -> (members: Option<RawClaims>)
    ensures
        match members {
            Some(raw) => read_payload(text@) == Some(raw@),
            None => read_payload(text@) is None,
        },
{
    let len: usize = text.len();
    let k_sub: [u8; 7] = [0x7B, 0x22, 0x73, 0x75, 0x62, 0x22, 0x3A];
    let k_role: [u8; 8] = [0x2C, 0x22, 0x72, 0x6F, 0x6C, 0x65, 0x22, 0x3A];
    let k_iat: [u8; 7] = [0x2C, 0x22, 0x69, 0x61, 0x74, 0x22, 0x3A];
    let k_exp: [u8; 7] = [0x2C, 0x22, 0x65, 0x78, 0x70, 0x22, 0x3A];
    proof {
        assert(k_sub@ =~= key_sub());
        assert(k_role@ =~= key_role());
        assert(k_iat@ =~= key_iat());
        assert(k_exp@ =~= key_exp());
    }
    if !expect_key(text, 0, &k_sub) {
        return None;
    }
    let (sub, a) = match parse_string(text, 7) {
        Some(found) => found,
        None => { return None; },
    };
    proof {
        lemma_unescape_bounds(text@, 8);
    }
    if !expect_key(text, a, &k_role) {
        return None;
    }
    let (role, b) = match parse_string(text, a + 8) {
        Some(found) => found,
        None => { return None; },
    };
    proof {
        lemma_unescape_bounds(text@, a + 9);
    }
    if !expect_key(text, b, &k_iat) {
        return None;
    }
    let (iat, c) = match parse_number(text, b + 7) {
        Some(found) => found,
        None => { return None; },
    };
    if !expect_key(text, c, &k_exp) {
        return None;
    }
    let (exp, d) = match parse_number(text, c + 7) {
        Some(found) => found,
        None => { return None; },
    };
    if d < len && len - d == 1 && text[d] == CLOSE {
        Some(RawClaims { sub, role, iat, exp })
    } else {
        None
    }
}

/// Checks unchecked members: the role must be a role's name, the subject
/// text of no more than `MAX_SUBJECT_BYTES` bytes.
pub fn check_claims(raw: RawClaims) -> (claims: Option<Claims>)
    ensures
        match claims {
            Some(c) => checked(raw@) == Some(c@),
            None => checked(raw@) is None,
        },
{
    let role = match Role::from_name(raw.role.as_slice()) {
        Some(role) => role,
        None => { return None; },
    };
    if raw.sub.len() > MAX_SUBJECT_BYTES {
        return None;
    }
    match string_from_utf8(raw.sub) {
        Some(sub) => Some(Claims { sub, role, iat: raw.iat, exp: raw.exp }),
        None => None,
    }
}

} // verus!
