use session_auth::claims::Claims;
use session_auth::cookie::{expired_cookies, session_cookies, ExpiryInstruction, SetCookie};
use session_auth::error::AuthError;
use session_auth::password::{hash_password, verify_password};
use session_auth::role::Role;
use session_auth::session::{
    new_user, user_record, ConfigError, Lookup, NewUser, SessionManager, SessionPair, SessionState,
    SignInCredentials, SignUpCredentials, UserRecord,
};
use session_auth::token::{TokenCodec, TokenError};

const ACCESS_TTL: u64 = 900;
const REFRESH_TTL: u64 = 604_800;

fn manager() -> SessionManager {
    SessionManager::new(b"access-secret", ACCESS_TTL, b"refresh-secret", REFRESH_TTL, 4).unwrap()
}

fn sign_in(identity: &str, secret: &str) -> SignInCredentials {
    SignInCredentials { identity: identity.to_string(), secret: secret.to_string() }
}

fn stored(identity: &str, role: Role, password: &str) -> UserRecord {
    UserRecord {
        identity: identity.to_string(),
        role,
        password_hash: hash_password(password, 4).unwrap(),
    }
}

#[test]
fn configuration_wants_shorter_access_tokens() {
    assert_eq!(
        SessionManager::new(b"a", 900, b"r", 900, 12).err(),
        Some(ConfigError::LifetimesNotOrdered)
    );
    assert_eq!(
        SessionManager::new(b"a", 901, b"r", 900, 12).err(),
        Some(ConfigError::LifetimesNotOrdered)
    );
    assert!(SessionManager::new(b"a", 899, b"r", 900, 12).is_ok());
    assert!(SessionManager::new(b"a", 0, b"r", 1, 12).is_ok());
}

#[test]
fn configuration_wants_two_secrets() {
    assert_eq!(
        SessionManager::new(b"same", 1, b"same", 2, 12).err(),
        Some(ConfigError::SharedSecret)
    );
    assert_eq!(SessionManager::new(b"", 1, b"", 2, 12).err(), Some(ConfigError::SharedSecret));
    assert!(SessionManager::new(b"same", 1, b"samf", 2, 12).is_ok());
}

#[test]
fn configuration_wants_a_work_factor_that_bcrypt_takes() {
    assert_eq!(
        SessionManager::new(b"a", 1, b"r", 2, 3).err(),
        Some(ConfigError::WorkFactorOutOfRange)
    );
    assert_eq!(
        SessionManager::new(b"a", 1, b"r", 2, 32).err(),
        Some(ConfigError::WorkFactorOutOfRange)
    );
    assert!(SessionManager::new(b"a", 1, b"r", 2, 4).is_ok());
    assert!(SessionManager::new(b"a", 1, b"r", 2, 31).is_ok());
}

#[test]
fn configuration_faults_are_judged_in_order() {
    assert_eq!(
        SessionManager::new(b"same", 5, b"same", 5, 99).err(),
        Some(ConfigError::LifetimesNotOrdered)
    );
    assert_eq!(
        SessionManager::new(b"same", 4, b"same", 5, 99).err(),
        Some(ConfigError::SharedSecret)
    );
}

#[test]
fn manager_hands_out_its_codecs() {
    let manager = manager();
    assert_eq!(manager.access_codec().ttl_seconds(), ACCESS_TTL);
    assert_eq!(manager.refresh_codec().ttl_seconds(), REFRESH_TTL);
    assert!(!manager.access_codec().shares_secret_with(manager.refresh_codec()));
}

#[test]
fn registration_stores_a_hash_and_not_the_password() {
    let manager = manager();
    let user = manager
        .register(SignUpCredentials {
            identity: "a@x.com".to_string(),
            secret: "pw123456".to_string(),
            name: "A".to_string(),
        })
        .unwrap();
    assert_ne!(user.password_hash, "pw123456");
    assert!(!user.password_hash.contains("pw123456"));
    assert_eq!(user.password_hash.len(), 60);
    assert!(user.password_hash.starts_with("$2b$04$"));
    assert_eq!(user.identity, "a@x.com");
    assert_eq!(user.name, "A");
    assert_eq!(user.role, Role::User);
    assert_eq!(verify_password("pw123456", &user.password_hash), Ok(true));
    assert_eq!(verify_password("pw1234567", &user.password_hash), Ok(false));
}

#[test]
fn registration_salts_every_hash() {
    let manager = manager();
    let make = || {
        manager
            .register(SignUpCredentials {
                identity: "a@x.com".to_string(),
                secret: "pw123456".to_string(),
                name: String::new(),
            })
            .unwrap()
    };
    let first: NewUser = make();
    let second: NewUser = make();
    assert_ne!(first.password_hash, second.password_hash);
}

#[test]
fn registered_user_can_sign_in() {
    let manager = manager();
    let user = manager
        .register(SignUpCredentials {
            identity: "a@x.com".to_string(),
            secret: "pw123456".to_string(),
            name: "A".to_string(),
        })
        .unwrap();
    let record = UserRecord {
        identity: user.identity,
        role: user.role,
        password_hash: user.password_hash,
    };
    let pair = manager.login_at(&sign_in("a@x.com", "pw123456"), &Lookup::Found(record), 50);
    assert!(pair.is_ok());
}

#[test]
fn login_gives_tokens_that_decode_under_their_own_codecs() {
    let manager = manager();
    let lookup = Lookup::Found(stored("a@x.com", Role::Admin, "pw123456"));
    let pair = manager.login_at(&sign_in("a@x.com", "pw123456"), &lookup, 1000).unwrap();
    assert_eq!(
        manager.access_codec().decode_at(&pair.access, 1000),
        Ok(Claims { sub: "a@x.com".to_string(), role: Role::Admin, iat: 1000, exp: 1900 })
    );
    assert_eq!(
        manager.refresh_codec().decode_at(&pair.refresh, 1000),
        Ok(Claims { sub: "a@x.com".to_string(), role: Role::Admin, iat: 1000, exp: 605_800 })
    );
}

#[test]
fn tokens_of_one_class_do_not_pass_for_the_other() {
    let manager = manager();
    let pair = manager.issue_pair("a@x.com", Role::User, 1000);
    assert_eq!(
        manager.refresh_codec().decode_at(&pair.access, 1000),
        Err(TokenError::InvalidSignature)
    );
    assert_eq!(
        manager.access_codec().decode_at(&pair.refresh, 1000),
        Err(TokenError::InvalidSignature)
    );
    assert_eq!(manager.refresh_at(Some(&pair.access), 1000), Err(AuthError::AuthFailed));
}

#[test]
fn wrong_password_and_unknown_identity_give_the_same() {
    let manager = manager();
    let lookup = Lookup::Found(stored("a@x.com", Role::User, "pw123456"));
    let wrong = manager.login_at(&sign_in("a@x.com", "pw12345"), &lookup, 1000);
    let unknown = manager.login_at(&sign_in("b@x.com", "pw123456"), &Lookup::NotFound, 1000);
    assert_eq!(wrong, Err(AuthError::AuthFailed));
    assert_eq!(unknown, Err(AuthError::AuthFailed));
    assert_eq!(wrong, unknown);
}

#[test]
fn storage_that_cannot_be_asked_is_its_own_fault() {
    let manager = manager();
    let outcome = manager.login_at(&sign_in("a@x.com", "pw"), &Lookup::Unavailable, 1000);
    assert_eq!(outcome, Err(AuthError::StorageUnavailable));
    assert!(!AuthError::StorageUnavailable.client_fault());
}

#[test]
fn stored_hash_that_is_no_hash_is_its_own_fault() {
    let manager = manager();
    for hash in ["", "pw123456", "$2b$04$short", "$9z$04$abcdefghijklmnopqrstuuabcdefghijklmnopqrstuvwxyz01234"] {
        let lookup = Lookup::Found(UserRecord {
            identity: "a@x.com".to_string(),
            role: Role::User,
            password_hash: hash.to_string(),
        });
        let outcome = manager.login_at(&sign_in("a@x.com", "pw123456"), &lookup, 1000);
        assert_eq!(outcome, Err(AuthError::HashFormatError));
    }
}

#[test]
fn outcomes_are_sorted_into_client_and_server_faults() {
    assert!(AuthError::AuthFailed.client_fault());
    assert!(!AuthError::HashFormatError.client_fault());
    assert!(!AuthError::HashingError.client_fault());
    assert!(!AuthError::StorageUnavailable.client_fault());
    for e in [TokenError::InvalidSignature, TokenError::TokenExpired, TokenError::MalformedClaims] {
        assert_eq!(AuthError::from_token_error(e), AuthError::AuthFailed);
    }
}

#[test]
fn issue_if_verified_follows_the_check() {
    let manager = manager();
    let user = UserRecord {
        identity: "a@x.com".to_string(),
        role: Role::User,
        password_hash: "unread".to_string(),
    };
    assert!(manager.issue_if_verified(&user, Ok(true), 7).is_ok());
    assert_eq!(manager.issue_if_verified(&user, Ok(false), 7), Err(AuthError::AuthFailed));
    assert_eq!(
        manager.issue_if_verified(&user, Err(AuthError::HashFormatError), 7),
        Err(AuthError::HashFormatError)
    );
    let pair = manager.issue_if_verified(&user, Ok(true), 7).unwrap();
    assert_eq!(pair, manager.issue_pair("a@x.com", Role::User, 7));
}

#[test]
fn login_sets_two_cookies_kept_from_scripts() {
    let manager = manager();
    let lookup = Lookup::Found(stored("a@x.com", Role::User, "pw123456"));
    let pair = manager.login_at(&sign_in("a@x.com", "pw123456"), &lookup, 1000).unwrap();
    let (access, refresh) = session_cookies(&pair);
    assert_eq!(
        access,
        SetCookie {
            name: "access_token".to_string(),
            value: pair.access.clone(),
            path: "/".to_string(),
            http_only: true,
            expires_at: None,
        }
    );
    assert_eq!(
        refresh,
        SetCookie {
            name: "refresh_token".to_string(),
            value: pair.refresh.clone(),
            path: "/".to_string(),
            http_only: true,
            expires_at: None,
        }
    );
    let claims = manager.access_codec().decode_at(&access.value, 1000).unwrap();
    assert_eq!(claims.exp - claims.iat, ACCESS_TTL);
    let claims = manager.refresh_codec().decode_at(&refresh.value, 1000).unwrap();
    assert_eq!(claims.exp - claims.iat, REFRESH_TTL);
}

#[test]
fn refresh_gives_a_new_pair_for_the_same_subject() {
    let manager = manager();
    let first = manager.issue_pair("a@x.com", Role::Admin, 1000);
    let second = manager.refresh_at(Some(&first.refresh), 2000).unwrap();
    assert_eq!(second, manager.issue_pair("a@x.com", Role::Admin, 2000));
    assert_ne!(second.refresh, first.refresh);
    assert_ne!(second.access, first.access);
    let claims = manager.refresh_codec().decode_at(&second.refresh, 2000).unwrap();
    assert_eq!(claims.iat, 2000);
    assert_eq!(claims.exp, 2000 + REFRESH_TTL);
}

#[test]
fn two_refreshes_in_a_row_rotate_the_tokens() {
    let manager = manager();
    let presented = manager.issue_pair("a@x.com", Role::User, 1000).refresh;
    let first = manager.refresh_at(Some(&presented), 1001).unwrap();
    let second = manager.refresh_at(Some(&presented), 1002).unwrap();
    assert_ne!(first.refresh, second.refresh);
    assert_ne!(first.access, second.access);
    assert_ne!(first.refresh, presented);
    assert_ne!(second.refresh, presented);
    let a = manager.access_codec().decode_at(&first.access, 1002).unwrap();
    let b = manager.access_codec().decode_at(&second.access, 1002).unwrap();
    assert!(a.iat < b.iat);
    assert_eq!((a.iat, b.iat), (1001, 1002));
}

#[test]
fn refresh_in_the_second_of_issue_gives_the_same_tokens_again() {
    let manager = manager();
    let pair = manager.issue_pair("a@x.com", Role::User, 1000);
    assert_eq!(manager.refresh_at(Some(&pair.refresh), 1000), Ok(pair));
}

#[test]
fn expired_refresh_token_is_refused_and_sets_no_cookie() {
    let manager = manager();
    let pair = manager.issue_pair("a@x.com", Role::User, 1000);
    let at_expiry = 1000 + REFRESH_TTL;
    assert!(manager.refresh_at(Some(&pair.refresh), at_expiry - 1).is_ok());
    let outcome: Result<SessionPair, AuthError> = manager.refresh_at(Some(&pair.refresh), at_expiry);
    assert_eq!(outcome, Err(AuthError::AuthFailed));
    assert!(outcome.as_ref().map(session_cookies).is_err());
}

#[test]
fn missing_or_forged_refresh_token_is_refused_alike() {
    let manager = manager();
    let pair = manager.issue_pair("a@x.com", Role::User, 1000);
    let mut forged = pair.refresh.clone();
    let last = forged.pop().unwrap();
    forged.push(if last == 'A' { 'B' } else { 'A' });
    assert_eq!(manager.refresh_at(None, 1000), Err(AuthError::AuthFailed));
    assert_eq!(manager.refresh_at(Some(""), 1000), Err(AuthError::AuthFailed));
    assert_eq!(manager.refresh_at(Some(&forged), 1000), Err(AuthError::AuthFailed));
}

#[test]
fn logout_expires_both_cookies_at_the_epoch() {
    let instruction = SessionManager::logout();
    assert_eq!(instruction, ExpiryInstruction { expires_at: 0 });
    let (access, refresh) = expired_cookies(&instruction);
    assert_eq!(
        access,
        SetCookie {
            name: "access_token".to_string(),
            value: String::new(),
            path: "/".to_string(),
            http_only: true,
            expires_at: Some(0),
        }
    );
    assert_eq!(
        refresh,
        SetCookie {
            name: "refresh_token".to_string(),
            value: String::new(),
            path: "/".to_string(),
            http_only: true,
            expires_at: Some(0),
        }
    );
}

#[test]
fn session_goes_from_valid_to_access_expired_to_anonymous() {
    let manager = manager();
    let pair = manager.issue_pair("a@x.com", Role::User, 1000);
    let state = |at: u64| manager.state_at(Some(&pair.access), Some(&pair.refresh), at);
    assert_eq!(state(1000), SessionState::AccessValid);
    assert_eq!(state(1899), SessionState::AccessValid);
    assert_eq!(state(1900), SessionState::AccessExpiredOnly);
    assert_eq!(state(1000 + REFRESH_TTL - 1), SessionState::AccessExpiredOnly);
    assert_eq!(state(1000 + REFRESH_TTL), SessionState::Anonymous);
    let renewed = manager.refresh_at(Some(&pair.refresh), 5000).unwrap();
    assert_eq!(
        manager.state_at(Some(&renewed.access), Some(&renewed.refresh), 5000),
        SessionState::AccessValid
    );
}

#[test]
fn session_without_a_refresh_token_is_anonymous() {
    let manager = manager();
    let pair = manager.issue_pair("a@x.com", Role::User, 1000);
    assert_eq!(manager.state_at(None, None, 1000), SessionState::Anonymous);
    assert_eq!(manager.state_at(Some(&pair.access), None, 1000), SessionState::Anonymous);
    assert_eq!(
        manager.state_at(None, Some(&pair.refresh), 1000),
        SessionState::AccessExpiredOnly
    );
    assert_eq!(
        manager.state_at(Some(&pair.refresh), Some(&pair.access), 1000),
        SessionState::Anonymous
    );
}

#[test]
fn login_and_refresh_by_the_clock() {
    let manager = manager();
    let lookup = Lookup::Found(stored("a@x.com", Role::User, "pw123456"));
    let pair = manager.login(&sign_in("a@x.com", "pw123456"), &lookup).unwrap();
    let claims = manager.access_codec().decode(&pair.access).unwrap();
    assert_eq!(claims.sub, "a@x.com");
    assert_eq!(claims.exp - claims.iat, ACCESS_TTL);
    let renewed = manager.refresh(Some(&pair.refresh)).unwrap();
    assert_eq!(manager.refresh_codec().decode(&renewed.refresh).unwrap().sub, "a@x.com");
    assert_eq!(manager.refresh(None), Err(AuthError::AuthFailed));
    assert_eq!(
        manager.login(&sign_in("a@x.com", "nope"), &lookup),
        Err(AuthError::AuthFailed)
    );
}

#[test]
fn configuration_refuses_secrets_that_sign_alike() {
    assert_eq!(
        SessionManager::new(b"k", 1, b"k\0", 2, 12).err(),
        Some(ConfigError::SharedSecret)
    );
    assert_eq!(
        SessionManager::new(b"k\0\0", 1, b"k", 2, 12).err(),
        Some(ConfigError::SharedSecret)
    );
    assert_eq!(SessionManager::new(b"", 1, b"\0", 2, 12).err(), Some(ConfigError::SharedSecret));
    assert!(SessionManager::new(b"k", 1, b"\0k", 2, 12).is_ok());
    assert!(SessionManager::new(b"k", 1, b"k\x01", 2, 12).is_ok());
}

#[test]
fn secrets_that_sign_alike_would_pass_for_each_other() {
    let short = TokenCodec::new(b"k", 900);
    let padded = TokenCodec::new(b"k\0", 900);
    assert!(!short.shares_secret_with(&padded));
    assert!(short.signs_like(&padded));
    assert!(padded.signs_like(&short));
    let token = short.encode_at("a@x.com", Role::User, 1000);
    assert!(padded.decode_at(&token, 1000).is_ok());
    let other = TokenCodec::new(b"l", 900);
    assert!(!short.signs_like(&other));
    assert_eq!(other.decode_at(&token, 1000), Err(TokenError::InvalidSignature));
}

#[test]
fn registration_hashes_under_the_configured_work_factor() {
    for factor in [4u32, 5, 6] {
        let manager = SessionManager::new(b"a", 1, b"r", 2, factor).unwrap();
        let user = manager
            .register(SignUpCredentials {
                identity: "a@x.com".to_string(),
                secret: "pw123456".to_string(),
                name: String::new(),
            })
            .unwrap();
        assert_eq!(user.password_hash.len(), 60);
        assert_eq!(&user.password_hash[4..6], format!("{:02}", factor));
    }
}

#[test]
fn stored_user_is_read_or_its_fault_is_named() {
    assert_eq!(
        user_record("a@x.com".to_string(), "admin", b"$2b$04$hash".to_vec()),
        Ok(UserRecord {
            identity: "a@x.com".to_string(),
            role: Role::Admin,
            password_hash: "$2b$04$hash".to_string(),
        })
    );
    assert_eq!(
        user_record("a@x.com".to_string(), "user", vec![0xff, 0xfe]),
        Err(AuthError::HashFormatError)
    );
    assert_eq!(
        user_record("a@x.com".to_string(), "root", vec![0xff, 0xfe]),
        Err(AuthError::HashFormatError)
    );
    assert_eq!(
        user_record("a@x.com".to_string(), "root", b"$2b$04$hash".to_vec()),
        Err(AuthError::StorageUnavailable)
    );
    assert_eq!(
        user_record(String::new(), "", Vec::new()),
        Err(AuthError::StorageUnavailable)
    );
}

#[test]
fn fault_of_the_check_is_judged_before_the_length_of_the_identity() {
    let manager = manager();
    let user = UserRecord {
        identity: "x".repeat(268_435_457),
        role: Role::User,
        password_hash: String::new(),
    };
    assert_eq!(
        manager.issue_if_verified(&user, Err(AuthError::HashFormatError), 7),
        Err(AuthError::HashFormatError)
    );
    assert_eq!(manager.issue_if_verified(&user, Ok(false), 7), Err(AuthError::AuthFailed));
    assert_eq!(manager.issue_if_verified(&user, Ok(true), 7), Err(AuthError::AuthFailed));
    let lookup = Lookup::Found(user);
    assert_eq!(
        manager.login_at(&sign_in("x", "pw"), &lookup, 7),
        Err(AuthError::HashFormatError)
    );
}

#[test]
fn user_to_store_is_made_of_the_sign_up_and_the_hash() {
    let sign_up = || SignUpCredentials {
        identity: "a@x.com".to_string(),
        secret: "pw123456".to_string(),
        name: "A".to_string(),
    };
    assert_eq!(
        new_user(sign_up(), Ok("$2b$04$hash".to_string())),
        Ok(NewUser {
            identity: "a@x.com".to_string(),
            name: "A".to_string(),
            role: Role::User,
            password_hash: "$2b$04$hash".to_string(),
        })
    );
    assert_eq!(new_user(sign_up(), Err(AuthError::HashingError)), Err(AuthError::HashingError));
}
