//! What the transport is told to do with the two session cookies.

use crate::session::SessionPair;
use vstd::prelude::*;
use vstd::string::*;

verus! {

/// One cookie to set, as plain data. `expires_at` is in seconds since the
/// epoch; without it the cookie lasts as long as the client keeps it.
#[derive(Clone, Debug, PartialEq, Eq)]
pub struct SetCookie {
    pub name: String,
    pub value: String,
    pub path: String,
    pub http_only: bool,
    pub expires_at: Option<u64>,
}

/// The order to expire both session cookies at the given time.
#[derive(Clone, Copy, Debug, PartialEq, Eq)]
pub struct ExpiryInstruction {
    pub expires_at: u64,
}

/// The name of the cookie that carries the access token.
pub open spec fn access_cookie_name() -> Seq<char> {
    "access_token"@
}

/// The name of the cookie that carries the refresh token.
pub open spec fn refresh_cookie_name() -> Seq<char> {
    "refresh_token"@
}

/// True of a session cookie: it is kept from scripts, it is sent for every
/// path, and it has the given name, value and expiry.
pub open spec fn is_session_cookie(
    cookie: SetCookie,
    name: Seq<char>,
    value: Seq<char>,
    expires_at: Option<u64>,
) -> bool {
    &&& cookie.name@ == name
    &&& cookie.value@ == value
    &&& cookie.path@ == "/"@
    &&& cookie.http_only
    &&& cookie.expires_at == expires_at
}

/// The name of the cookie that carries the access token.
pub fn access_cookie() -> (name: &'static str)
    ensures
        name@ == access_cookie_name(),
{
    "access_token"
}

/// The name of the cookie that carries the refresh token.
pub fn refresh_cookie() -> (name: &'static str)
    ensures
        name@ == refresh_cookie_name(),
{
    "refresh_token"
}

fn session_cookie(name: &str, value: &str, expires_at: Option<u64>) -> (cookie: SetCookie)
    ensures
        is_session_cookie(cookie, name@, value@, expires_at),
{
    SetCookie {
        name: String::from_str(name),
        value: String::from_str(value),
        path: String::from_str("/"),
        http_only: true,
        expires_at,
    }
}

/// The cookies that hand a pair of tokens to the client: the access token
/// first, then the refresh token.
pub fn session_cookies(pair: &SessionPair) -> (cookies: (SetCookie, SetCookie))
    ensures
        is_session_cookie(cookies.0, access_cookie_name(), pair.access@, None),
        is_session_cookie(cookies.1, refresh_cookie_name(), pair.refresh@, None),
{
    (
        session_cookie(access_cookie(), pair.access.as_str(), None),
        session_cookie(refresh_cookie(), pair.refresh.as_str(), None),
    )
}

/// The cookies that take both tokens from the client: each is empty and
/// expires when the instruction says. A cookie cannot be taken back, so it
/// is set again with an expiry that has passed.
pub fn expired_cookies(instruction: &ExpiryInstruction) -> (cookies: (SetCookie, SetCookie))
    ensures
        is_session_cookie(
            cookies.0,
            access_cookie_name(),
            Seq::empty(),
            Some(instruction.expires_at),
        ),
        is_session_cookie(
            cookies.1,
            refresh_cookie_name(),
            Seq::empty(),
            Some(instruction.expires_at),
        ),
{
    proof {
        reveal_strlit("");
    }
    assert(""@ =~= Seq::<char>::empty());
    (
        session_cookie(access_cookie(), "", Some(instruction.expires_at)),
        session_cookie(refresh_cookie(), "", Some(instruction.expires_at)),
    )
}

} // verus!
