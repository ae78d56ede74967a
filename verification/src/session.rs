//! The session manager: it turns checked credentials into a pair of tokens,
//! a presented refresh token into a fresh pair, and a logout into the order
//! to expire both cookies.

use crate::claims::{ClaimsView, MAX_SUBJECT_BYTES};
use crate::clock::unix_now;
use crate::cookie::ExpiryInstruction;
use crate::error::AuthError;
use crate::password::{
    bcrypt_verdict, hash_password, is_hash_of, verdict_outcome, verify_password, HASH_LEN,
    MAX_WORK_FACTOR, MIN_WORK_FACTOR,
};
use crate::role::Role;
use crate::text::string_from_utf8;
use crate::token::{
    expiry, issued_claims, lemma_carried_decodes, lemma_decoded_is_carried, sign_alike,
    TokenCodec, TokenError,
};
use vstd::prelude::*;
use vstd::utf8::*;

verus! {

/// What a client sends to sign in. It is never printed: it holds a password.
pub struct SignInCredentials {
    pub identity: String,
    pub secret: String,
}

/// What a client sends to sign up: the credentials and a display name. It is
/// never printed: it holds a password.
pub struct SignUpCredentials {
    pub identity: String,
    pub secret: String,
    pub name: String,
}

/// A user as the storage holds one. The session manager reads it and never
/// decodes the hash.
#[derive(Clone, Debug, PartialEq, Eq)]
pub struct UserRecord {
    pub identity: String,
    pub role: Role,
    pub password_hash: String,
}

/// A user to be stored: what sign-up sent, with the hash in place of the
/// password.
#[derive(Clone, Debug, PartialEq, Eq)]
pub struct NewUser {
    pub identity: String,
    pub name: String,
    pub role: Role,
    pub password_hash: String,
}

/// What the storage answered when asked for a user by identity.
#[derive(Clone, Debug, PartialEq, Eq)]
pub enum Lookup {
    Found(UserRecord),
    NotFound,
    Unavailable,
}

/// An access token and a refresh token, issued together.
#[derive(Clone, Debug, PartialEq, Eq)]
pub struct SessionPair {
    pub access: String,
    pub refresh: String,
}

/// Why a configuration makes no session manager.
#[derive(Clone, Copy, Debug, PartialEq, Eq, Structural)]
pub enum ConfigError {
    /// Access tokens would live as long as refresh tokens, or longer.
    LifetimesNotOrdered,
    /// Both classes of token would be signed alike: the secrets are equal,
    /// or HMAC takes them for one key.
    SharedSecret,
    /// The work factor is none that bcrypt takes.
    WorkFactorOutOfRange,
}

/// Where a session stands at some time, as its two tokens show it. Nothing
/// is stored: the state is read off the tokens.
#[derive(Clone, Copy, Debug, PartialEq, Eq, Structural)]
pub enum SessionState {
    /// No refresh token that holds: signed out, or never signed in.
    Anonymous,
    /// Both tokens hold.
    AccessValid,
    /// The refresh token holds and the access token does not.
    AccessExpiredOnly,
}

/// Whom a sign-in is for: the subject and role of the user it found and
/// whose password matched, or why there is none.
pub open spec fn login_subject(lookup: Lookup, secret: Seq<char>) -> Result<
    (Seq<char>, Role),
    AuthError,
> {
    match lookup {
        Lookup::Unavailable => Err(AuthError::StorageUnavailable),
        Lookup::NotFound => Err(AuthError::AuthFailed),
        Lookup::Found(user) => verified_subject(
            user,
            verdict_outcome(bcrypt_verdict(secret, user.password_hash@)),
        ),
    }
}

/// Whom a sign-in is for once the password of `user` was checked. A fault of
/// the check is judged first and is never taken for anything else; then a
/// user whose identity no token can carry is treated as not found.
pub open spec fn verified_subject(user: UserRecord, checked: Result<bool, AuthError>) -> Result<
    (Seq<char>, Role),
    AuthError,
> {
    match checked {
        Err(e) => Err(e),
        Ok(matches) => if !matches || encode_utf8(user.identity@).len() > MAX_SUBJECT_BYTES {
            Err(AuthError::AuthFailed)
        } else {
            Ok((user.identity@, user.role))
        },
    }
}

/// What is wrong with a user as the storage holds one, if anything: a
/// password hash that is no text is judged first, then a role that is none
/// of the roles. Both are faults of the storage.
pub open spec fn record_fault(role: Seq<char>, password: Seq<u8>) -> Option<AuthError> {
    if !valid_utf8(password) {
        Some(AuthError::HashFormatError)
    } else if Role::named(encode_utf8(role)) is None {
        Some(AuthError::StorageUnavailable)
    } else {
        None
    }
}

/// Reads a user as the storage holds one: the identity, the name of the role,
/// and the bytes of the password hash. A hash that is no UTF-8 gives
/// `HashFormatError`, whatever the role; else a role that is none of the
/// roles gives `StorageUnavailable`; else the record comes back with the
/// identity as it is, the role of that name and the hash as text.
pub fn user_record(identity: String, role: &str, password: Vec<u8>) -> (record: Result<
    UserRecord,
    AuthError,
>)
    ensures
        match record {
            Ok(user) => {
                &&& record_fault(role@, password@) is None
                &&& user.identity@ == identity@
                &&& Role::named(encode_utf8(role@)) == Some(user.role)
                &&& user.password_hash@ == decode_utf8(password@)
            },
            Err(e) => record_fault(role@, password@) == Some(e),
        },
{
    let password_hash = match string_from_utf8(password) {
        Some(text) => text,
        None => { return Err(AuthError::HashFormatError); },
    };
    match Role::parse(role) {
        Some(role) => Ok(UserRecord { identity, role, password_hash }),
        None => Err(AuthError::StorageUnavailable),
    }
}

/// Makes the user to store from a sign-up and the outcome of hashing its
/// password: where there is a hash, a plain `User` with the identity and name
/// that were sent and the hash in place of the password; where there is none,
/// the fault of the hashing as it is.
pub fn new_user(credentials: SignUpCredentials, hashed: Result<String, AuthError>) -> (made: Result<
    NewUser,
    AuthError,
>)
    ensures
        match hashed {
            Ok(hash) => made matches Ok(user) && user.identity@ == credentials.identity@
                && user.name@ == credentials.name@ && user.role == Role::User
                && user.password_hash@ == hash@,
            Err(e) => made == Err::<NewUser, AuthError>(e),
        },
{
    match hashed {
        Ok(password_hash) => Ok(
            NewUser {
                identity: credentials.identity,
                name: credentials.name,
                role: Role::User,
                password_hash,
            },
        ),
        Err(e) => Err(e),
    }
}

/// The text of a token that may be missing.
pub open spec fn shown(token: Option<&str>) -> Option<Seq<char>> {
    match token {
        Some(text) => Some(text@),
        None => None,
    }
}

/// Makes and renews sessions. It holds one codec for access tokens and one
/// for refresh tokens, and the work factor for new password hashes; all are
/// fixed when it is made. Access tokens live shorter than refresh tokens.
/// The two codecs sign with different secrets, and differently: HMAC fills a
/// short key up with zero bytes, so two secrets that differ only in zero
/// bytes at the end would sign alike. Such a pair is refused, by the
/// signatures that the two secrets give one fixed probe message.
pub struct SessionManager {
    access: TokenCodec,
    refresh: TokenCodec,
    work_factor: u32,
}

impl SessionManager {
    /// The codec of the access tokens.
    pub closed spec fn for_access(&self) -> TokenCodec {
        self.access
    }

    /// The codec of the refresh tokens.
    pub closed spec fn for_refresh(&self) -> TokenCodec {
        self.refresh
    }

    /// The work factor of new password hashes.
    pub closed spec fn work_factor(&self) -> u32 {
        self.work_factor
    }

    /// What every session manager satisfies.
    #[verifier::type_invariant]
    pub closed spec fn well_formed(&self) -> bool {
        self.valid()
    }

    /// The conditions on a configuration, over what callers can see.
    pub open spec fn valid(&self) -> bool {
        &&& self.for_access().ttl() < self.for_refresh().ttl()
        &&& self.for_access().secret() != self.for_refresh().secret()
        &&& !sign_alike(self.for_access().secret(), self.for_refresh().secret())
        &&& MIN_WORK_FACTOR <= self.work_factor() <= MAX_WORK_FACTOR
    }

    /// What a configuration lacks, if anything; the lifetimes are judged
    /// first, then the secrets, then the work factor. The secrets are judged
    /// by what they sign: two that give the probe message one signature are
    /// refused, equal or not.
    pub open spec fn config_fault(
        access_secret: Seq<u8>,
        access_ttl: u64,
        refresh_secret: Seq<u8>,
        refresh_ttl: u64,
        work_factor: u32,
    ) -> Option<ConfigError> {
        if access_ttl >= refresh_ttl {
            Some(ConfigError::LifetimesNotOrdered)
        } else if sign_alike(access_secret, refresh_secret) {
            Some(ConfigError::SharedSecret)
        } else if work_factor < MIN_WORK_FACTOR || work_factor > MAX_WORK_FACTOR {
            Some(ConfigError::WorkFactorOutOfRange)
        } else {
            None
        }
    }

    /// True when `pair` is the pair issued to `subject` at `now`.
    pub open spec fn pair_issued(
        &self,
        pair: SessionPair,
        subject: Seq<char>,
        role: Role,
        now: u64,
    ) -> bool {
        &&& self.for_access().issues(pair.access@, subject, role, now)
        &&& self.for_refresh().issues(pair.refresh@, subject, role, now)
    }

    /// True when `pair` renews at `now` the session of the refresh token
    /// `presented`: the refresh codec accepts the token then, and the pair is
    /// issued then to its subject and role.
    pub open spec fn renewed(&self, presented: Seq<char>, pair: SessionPair, now: u64) -> bool {
        self.for_refresh().decoded(presented, now) matches Ok(claims) && self.pair_issued(
            pair,
            claims.sub,
            claims.role,
            now,
        )
    }

    /// True when `outcome` is what a sign-in at `now` gives: the pair issued
    /// then to the user whose password matched, or the reason why there is
    /// no such user.
    pub open spec fn signed_in(
        &self,
        lookup: Lookup,
        secret: Seq<char>,
        outcome: Result<SessionPair, AuthError>,
        now: u64,
    ) -> bool {
        match outcome {
            Ok(pair) => login_subject(lookup, secret) matches Ok((subject, role))
                && self.pair_issued(pair, subject, role, now),
            Err(e) => login_subject(lookup, secret) == Err::<(Seq<char>, Role), AuthError>(e),
        }
    }

    /// True when `outcome` is what a renewal at `now` gives: a pair that
    /// renews the presented token, or `AuthFailed` where no token is
    /// presented or the refresh codec refuses it then.
    pub open spec fn renewal(
        &self,
        presented: Option<Seq<char>>,
        outcome: Result<SessionPair, AuthError>,
        now: u64,
    ) -> bool {
        match outcome {
            Ok(pair) => presented matches Some(token) && self.renewed(token, pair, now),
            Err(e) => e == AuthError::AuthFailed && !(presented matches Some(token)
                && self.for_refresh().decoded(token, now) is Ok),
        }
    }

    /// Where a session with the given tokens stands at `now`.
    pub open spec fn state_of(
        &self,
        access: Option<Seq<char>>,
        refresh: Option<Seq<char>>,
        now: u64,
    ) -> SessionState {
        if refresh is Some && self.for_refresh().decoded(refresh->0, now) is Ok {
            if access is Some && self.for_access().decoded(access->0, now) is Ok {
                SessionState::AccessValid
            } else {
                SessionState::AccessExpiredOnly
            }
        } else {
            SessionState::Anonymous
        }
    }

    /// A session manager for the given secrets, lifetimes in seconds, and
    /// work factor.
    pub fn new(
        access_secret: &[u8],
        access_ttl: u64,
        refresh_secret: &[u8],
        refresh_ttl: u64,
        work_factor: u32,
    ) -> (made: Result<SessionManager, ConfigError>)
        ensures
            match made {
                Ok(manager) => {
                    &&& SessionManager::config_fault(
                        access_secret@,
                        access_ttl,
                        refresh_secret@,
                        refresh_ttl,
                        work_factor,
                    ) is None
                    &&& manager.valid()
                    &&& manager.for_access().secret() == access_secret@
                    &&& manager.for_access().ttl() == access_ttl
                    &&& manager.for_refresh().secret() == refresh_secret@
                    &&& manager.for_refresh().ttl() == refresh_ttl
                    &&& manager.work_factor() == work_factor
                },
                Err(e) => SessionManager::config_fault(
                    access_secret@,
                    access_ttl,
                    refresh_secret@,
                    refresh_ttl,
                    work_factor,
                ) == Some(e),
            },
    {
        if access_ttl >= refresh_ttl {
            return Err(ConfigError::LifetimesNotOrdered);
        }
        let access = TokenCodec::new(access_secret, access_ttl);
        let refresh = TokenCodec::new(refresh_secret, refresh_ttl);
        if access.signs_like(&refresh) {
            return Err(ConfigError::SharedSecret);
        }
        if work_factor < MIN_WORK_FACTOR || work_factor > MAX_WORK_FACTOR {
            return Err(ConfigError::WorkFactorOutOfRange);
        }
        Ok(SessionManager { access, refresh, work_factor })
    }

    /// The codec of the access tokens.
    pub fn access_codec(&self) -> (codec: &TokenCodec)
        ensures
            *codec == self.for_access(),
    {
        &self.access
    }

    /// The codec of the refresh tokens.
    pub fn refresh_codec(&self) -> (codec: &TokenCodec)
        ensures
            *codec == self.for_refresh(),
    {
        &self.refresh
    }

    /// Issues both tokens to `subject` at `now`.
    pub fn issue_pair(&self, subject: &str, role: Role, now: u64) -> (pair: SessionPair)
        requires
            encode_utf8(subject@).len() <= MAX_SUBJECT_BYTES,
        ensures
            self.pair_issued(pair, subject@, role, now),
    {
        let access = self.access.encode_at(subject, role, now);
        let refresh = self.refresh.encode_at(subject, role, now);
        SessionPair { access, refresh }
    }

    /// Hashes the password of a sign-up and makes the user to store: a
    /// plain `User` with the identity and name that were sent, and in place of
    /// the password a hash of it made under the configured work factor. The
    /// hash is 60 characters long, so it is not the password unless the
    /// password has that length itself.
    pub fn register(&self, credentials: SignUpCredentials) -> (made: Result<NewUser, AuthError>)
        ensures
            match made {
                Ok(user) => {
                    &&& user.identity@ == credentials.identity@
                    &&& user.name@ == credentials.name@
                    &&& user.role == Role::User
                    &&& is_hash_of(user.password_hash@, credentials.secret@, self.work_factor())
                    &&& credentials.secret@.len() != HASH_LEN ==> user.password_hash@
                        != credentials.secret@
                },
                Err(e) => e == AuthError::HashingError,
            },
    {
        let hashed = hash_password(credentials.secret.as_str(), self.work_factor);
        new_user(credentials, hashed)
    }

    /// Finishes a sign-in once the password of `user` was checked: the fault
    /// where the check failed, `AuthFailed` where the password did not match
    /// or no token can carry the identity, and else a pair for the user.
    pub fn issue_if_verified(
        &self,
        user: &UserRecord,
        checked: Result<bool, AuthError>,
        now: u64,
    ) -> (outcome: Result<SessionPair, AuthError>)
        ensures
            match outcome {
                Ok(pair) => verified_subject(*user, checked) == Ok::<(Seq<char>, Role), AuthError>(
                    (user.identity@, user.role),
                ) && self.pair_issued(pair, user.identity@, user.role, now),
                Err(e) => verified_subject(*user, checked) == Err::<(Seq<char>, Role), AuthError>(
                    e,
                ),
            },
    {
        match checked {
            Err(e) => Err(e),
            Ok(false) => Err(AuthError::AuthFailed),
            Ok(true) => {
                if user.identity.as_str().as_bytes().len() > MAX_SUBJECT_BYTES {
                    return Err(AuthError::AuthFailed);
                }
                Ok(self.issue_pair(user.identity.as_str(), user.role, now))
            },
        }
    }

    /// Signs a user in at the time `now`, given the credentials and what the
    /// storage answered when asked for their identity. An unknown identity
    /// and a wrong password both give `AuthFailed`; a storage that could not
    /// be asked and a stored hash that cannot be read give their own faults.
    pub fn login_at(&self, credentials: &SignInCredentials, lookup: &Lookup, now: u64) -> (outcome:
        Result<SessionPair, AuthError>)
        ensures
            self.signed_in(*lookup, credentials.secret@, outcome, now),
    {
        match lookup {
            Lookup::Unavailable => Err(AuthError::StorageUnavailable),
            Lookup::NotFound => Err(AuthError::AuthFailed),
            Lookup::Found(user) => {
                let checked = verify_password(
                    credentials.secret.as_str(),
                    user.password_hash.as_str(),
                );
                self.issue_if_verified(user, checked, now)
            },
        }
    }

    /// Signs a user in at the time the clock shows, which is no later than
    /// the last second an `i64` can name.
    pub fn login(&self, credentials: &SignInCredentials, lookup: &Lookup) -> (outcome: Result<
        SessionPair,
        AuthError,
    >)
        ensures
            exists|now: u64|
                now <= i64::MAX && #[trigger] self.signed_in(
                    *lookup,
                    credentials.secret@,
                    outcome,
                    now,
                ),
    {
        let now: u64 = unix_now();
        self.login_at(credentials, lookup, now)
    }

    /// Renews a session at the time `now`: where the refresh codec accepts
    /// the presented token, a new access token and a new refresh token for
    /// its subject and role, both issued at `now`. A token that is missing,
    /// or that the codec refuses for whatever reason, gives `AuthFailed`.
    pub fn refresh_at(&self, presented: Option<&str>, now: u64) -> (outcome: Result<
        SessionPair,
        AuthError,
    >)
        ensures
            self.renewal(shown(presented), outcome, now),
    {
        let token = match presented {
            Some(token) => token,
            None => { return Err(AuthError::AuthFailed); },
        };
        match self.refresh.decode_at(token, now) {
            Ok(claims) => Ok(self.issue_pair(claims.sub.as_str(), claims.role, now)),
            Err(e) => Err(AuthError::from_token_error(e)),
        }
    }

    /// Renews a session at the time the clock shows, which is no later than
    /// the last second an `i64` can name: a refresh token that carries a
    /// claim set with a later expiry is renewed whatever the clock shows.
    pub fn refresh(&self, presented: Option<&str>) -> (outcome: Result<SessionPair, AuthError>)
        ensures
            exists|now: u64|
                now <= i64::MAX && #[trigger] self.renewal(shown(presented), outcome, now),
    {
        let now: u64 = unix_now();
        self.refresh_at(presented, now)
    }

    /// Ends a session. No token can be taken back, so the client is told to
    /// expire both cookies at the epoch, a time that has passed.
    pub fn logout() -> (instruction: ExpiryInstruction)
        ensures
            instruction.expires_at == 0,
    {
        ExpiryInstruction { expires_at: 0 }
    }

    /// Reads off the two tokens where a session stands at `now`.
    pub fn state_at(&self, access: Option<&str>, refresh: Option<&str>, now: u64) -> (state:
        SessionState)
        ensures
            state == self.state_of(shown(access), shown(refresh), now),
    {
        let refresh_holds = match refresh {
            Some(token) => self.refresh.decode_at(token, now).is_ok(),
            None => false,
        };
        if !refresh_holds {
            return SessionState::Anonymous;
        }
        let access_holds = match access {
            Some(token) => self.access.decode_at(token, now).is_ok(),
            None => false,
        };
        if access_holds {
            SessionState::AccessValid
        } else {
            SessionState::AccessExpiredOnly
        }
    }
}

/// Where the storage answered and the stored hash can be read, a sign-in
/// succeeds exactly for a found user whose password matches, and fails with
/// `AuthFailed` in every other case. This holds of every identity that a
/// token can carry.
pub proof fn lemma_login_succeeds_exactly(
    manager: SessionManager,
    lookup: Lookup,
    secret: Seq<char>,
    outcome: Result<SessionPair, AuthError>,
    now: u64,
)
    requires
        lookup !is Unavailable,
        lookup matches Lookup::Found(user) ==> bcrypt_verdict(secret, user.password_hash@) is Some
            && encode_utf8(user.identity@).len() <= MAX_SUBJECT_BYTES,
        manager.signed_in(lookup, secret, outcome, now),
    ensures
        outcome is Ok <==> (lookup matches Lookup::Found(user) && bcrypt_verdict(
            secret,
            user.password_hash@,
        ) == Some(true)),
        outcome is Err ==> outcome == Err::<SessionPair, AuthError>(AuthError::AuthFailed),
{
}

/// A wrong password gives what an unknown identity gives.
pub proof fn lemma_wrong_password_as_unknown(user: UserRecord, secret: Seq<char>)
    requires
        bcrypt_verdict(secret, user.password_hash@) == Some(false),
    ensures
        login_subject(Lookup::Found(user), secret) == Err::<(Seq<char>, Role), AuthError>(
            AuthError::AuthFailed,
        ),
        login_subject(Lookup::Found(user), secret) == login_subject(Lookup::NotFound, secret),
{
}

/// A sign-in with the password that matches the stored hash succeeds, and
/// each of its tokens decodes under its own codec to the identity and role
/// of the user, at any time before the token expires.
pub proof fn lemma_login_tokens_decode(
    manager: SessionManager,
    user: UserRecord,
    secret: Seq<char>,
    outcome: Result<SessionPair, AuthError>,
    now: u64,
    at: u64,
)
    requires
        bcrypt_verdict(secret, user.password_hash@) == Some(true),
        encode_utf8(user.identity@).len() <= MAX_SUBJECT_BYTES,
        manager.signed_in(Lookup::Found(user), secret, outcome, now),
    ensures
        outcome is Ok,
        at < expiry(now, manager.for_access().ttl()) ==> manager.for_access().decoded(
            outcome.unwrap().access@,
            at,
        ) == Ok::<ClaimsView, TokenError>(
            issued_claims(user.identity@, user.role, now, manager.for_access().ttl()),
        ),
        at < expiry(now, manager.for_refresh().ttl()) ==> manager.for_refresh().decoded(
            outcome.unwrap().refresh@,
            at,
        ) == Ok::<ClaimsView, TokenError>(
            issued_claims(user.identity@, user.role, now, manager.for_refresh().ttl()),
        ),
{
    lemma_issued_pair_decodes(manager, outcome.unwrap(), user.identity@, user.role, now, at);
}

/// The access token of a sign-in lives exactly as long as access tokens are
/// configured to: it is issued at the time of the sign-in, expires that many
/// seconds later, is accepted before its expiry and is expired from then on.
/// This is stated where the expiry is a second that a `u64` can name.
pub proof fn lemma_login_access_lifetime(
    manager: SessionManager,
    user: UserRecord,
    secret: Seq<char>,
    outcome: Result<SessionPair, AuthError>,
    now: u64,
    at: u64,
)
    requires
        bcrypt_verdict(secret, user.password_hash@) == Some(true),
        encode_utf8(user.identity@).len() <= MAX_SUBJECT_BYTES,
        now + manager.for_access().ttl() <= u64::MAX,
        manager.signed_in(Lookup::Found(user), secret, outcome, now),
    ensures
        outcome is Ok,
        ({
            let codec = manager.for_access();
            let token = outcome.unwrap().access@;
            let claims = ClaimsView {
                sub: user.identity@,
                role: user.role,
                iat: now,
                exp: (now + codec.ttl()) as u64,
            };
            &&& codec.carried(token) == Ok::<ClaimsView, TokenError>(claims)
            &&& at < now + codec.ttl() ==> codec.decoded(token, at) == Ok::<ClaimsView, TokenError>(
                claims,
            )
            &&& at >= now + codec.ttl() ==> codec.decoded(token, at) == Err::<
                ClaimsView,
                TokenError,
            >(TokenError::TokenExpired)
        }),
{
    lemma_carried_decodes(manager.for_access().secret(), encode_utf8(outcome.unwrap().access@));
}

/// A refresh token that was issued decodes, before its expiry, to exactly
/// what it was issued with, and a renewal then succeeds for the same subject
/// and role.
pub proof fn lemma_issued_token_renews(
    manager: SessionManager,
    token: Seq<char>,
    subject: Seq<char>,
    role: Role,
    issued_at: u64,
    outcome: Result<SessionPair, AuthError>,
    now: u64,
)
    requires
        manager.for_refresh().issues(token, subject, role, issued_at),
        now < expiry(issued_at, manager.for_refresh().ttl()),
        manager.renewal(Some(token), outcome, now),
    ensures
        manager.for_refresh().decoded(token, now) == Ok::<ClaimsView, TokenError>(
            issued_claims(subject, role, issued_at, manager.for_refresh().ttl()),
        ),
        issued_at + manager.for_refresh().ttl() <= u64::MAX ==> manager.for_refresh().decoded(
            token,
            now,
        ).unwrap().exp == issued_at + manager.for_refresh().ttl(),
        outcome is Ok,
        manager.pair_issued(outcome.unwrap(), subject, role, now),
{
    lemma_carried_decodes(manager.for_refresh().secret(), encode_utf8(token));
}

/// Each token of an issued pair decodes under its own codec to the subject
/// and role it was issued to, at any time before it expires.
pub proof fn lemma_issued_pair_decodes(
    manager: SessionManager,
    pair: SessionPair,
    subject: Seq<char>,
    role: Role,
    now: u64,
    at: u64,
)
    requires
        manager.pair_issued(pair, subject, role, now),
    ensures
        at < expiry(now, manager.for_access().ttl()) ==> manager.for_access().decoded(
            pair.access@,
            at,
        ) == Ok::<ClaimsView, TokenError>(
            issued_claims(subject, role, now, manager.for_access().ttl()),
        ),
        at < expiry(now, manager.for_refresh().ttl()) ==> manager.for_refresh().decoded(
            pair.refresh@,
            at,
        ) == Ok::<ClaimsView, TokenError>(
            issued_claims(subject, role, now, manager.for_refresh().ttl()),
        ),
{
    lemma_carried_decodes(manager.for_access().secret(), encode_utf8(pair.access@));
    lemma_carried_decodes(manager.for_refresh().secret(), encode_utf8(pair.refresh@));
}

/// Two renewals of one refresh token at different times give different
/// tokens, and those of the later renewal are issued later.
pub proof fn lemma_refresh_rotates(
    manager: SessionManager,
    presented: Seq<char>,
    first: SessionPair,
    second: SessionPair,
    earlier: u64,
    later: u64,
)
    requires
        manager.renewed(presented, first, earlier),
        manager.renewed(presented, second, later),
        earlier < later,
    ensures
        first.refresh@ != second.refresh@,
        first.access@ != second.access@,
        manager.for_access().carried(first.access@).unwrap().iat < manager.for_access().carried(
            second.access@,
        ).unwrap().iat,
        manager.for_refresh().carried(first.refresh@).unwrap().iat
            < manager.for_refresh().carried(second.refresh@).unwrap().iat,
{
}

/// A renewal later than the presented token was issued gives another refresh
/// token than the one presented.
pub proof fn lemma_renewal_replaces(
    manager: SessionManager,
    presented: Seq<char>,
    pair: SessionPair,
    now: u64,
)
    requires
        manager.renewed(presented, pair, now),
        manager.for_refresh().decoded(presented, now).unwrap().iat < now,
    ensures
        pair.refresh@ != presented,
{
    lemma_decoded_is_carried(manager.for_refresh().secret(), encode_utf8(presented), now);
}

/// Where a session stands over the life of an issued pair: both tokens hold
/// until the access token expires, then the refresh token alone, then
/// neither.
pub proof fn lemma_session_lifecycle(
    manager: SessionManager,
    pair: SessionPair,
    subject: Seq<char>,
    role: Role,
    now: u64,
    at: u64,
)
    requires
        manager.valid(),
        manager.pair_issued(pair, subject, role, now),
    ensures
        manager.state_of(Some(pair.access@), Some(pair.refresh@), at) == if at < expiry(
            now,
            manager.for_access().ttl(),
        ) {
            SessionState::AccessValid
        } else if at < expiry(now, manager.for_refresh().ttl()) {
            SessionState::AccessExpiredOnly
        } else {
            SessionState::Anonymous
        },
        manager.state_of(None, None, at) == SessionState::Anonymous,
{
    lemma_carried_decodes(manager.for_access().secret(), encode_utf8(pair.access@));
    lemma_carried_decodes(manager.for_refresh().secret(), encode_utf8(pair.refresh@));
}

} // verus!
