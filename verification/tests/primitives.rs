use session_auth::clock::{seconds_since_epoch, unix_now};
use session_auth::cookie::{access_cookie, refresh_cookie};
use session_auth::error::AuthError;
use session_auth::json::{parse_number, parse_string, push_decimal, push_escaped, push_quoted};
use session_auth::password::{
    check_outcome, hash_outcome, hash_password, verify_password, DEFAULT_WORK_FACTOR, HASH_LEN,
    MAX_WORK_FACTOR, MIN_WORK_FACTOR,
};
use session_auth::role::Role;
use session_auth::text::{append, ascii_string, bytes_eq, constant_time_eq};

#[test]
fn bcrypt_matches_its_published_vectors() {
    assert_eq!(
        verify_password("", "$2a$06$DCq7YPn5Rq63x1Lad4cll.TV4S6ytwfsfvkgY8jIucDrjc8deX1s."),
        Ok(true)
    );
    assert_eq!(
        verify_password("a", "$2a$06$m0CrhHm10qJ3lXRY.5zDGO3rS2KdeeWLuGmsfGlMfOxih58VYVfxe"),
        Ok(true)
    );
    assert_eq!(
        verify_password(
            "abcdefghijklmnopqrstuvwxyz",
            "$2a$08$aTsUwsyowQuzRrDqFflhgekJ8d9/7Z3GV3UcgvzQW3J5zMyrTvlz."
        ),
        Ok(true)
    );
    assert_eq!(
        verify_password("b", "$2a$06$m0CrhHm10qJ3lXRY.5zDGO3rS2KdeeWLuGmsfGlMfOxih58VYVfxe"),
        Ok(false)
    );
}

#[test]
fn hash_that_cannot_be_read_is_a_format_error() {
    for hash in ["", "a", "$2a$06$", "$2a$06$m0CrhHm10qJ3lXRY.5zDGO3rS2KdeeWLuGmsfGlMfOxih58VYVfx"] {
        assert_eq!(verify_password("a", hash), Err(AuthError::HashFormatError));
    }
    assert_eq!(
        verify_password("a", "$2a$99$m0CrhHm10qJ3lXRY.5zDGO3rS2KdeeWLuGmsfGlMfOxih58VYVfxe"),
        Err(AuthError::HashFormatError)
    );
}

#[test]
fn new_hash_matches_its_password_only() {
    let hash = hash_password("pw123456", MIN_WORK_FACTOR).unwrap();
    assert_eq!(verify_password("pw123456", &hash), Ok(true));
    assert_eq!(verify_password("Pw123456", &hash), Ok(false));
    assert_eq!(verify_password("", &hash), Ok(false));
}

#[test]
fn new_hash_has_the_form_of_a_bcrypt_hash_and_names_its_work_factor() {
    for factor in [MIN_WORK_FACTOR, 5, 7] {
        let hash = hash_password("pw123456", factor).unwrap();
        assert_eq!(hash.len(), HASH_LEN);
        assert_eq!(&hash[0..4], "$2b$");
        assert_eq!(hash[4..6].parse::<u32>(), Ok(factor));
        assert_eq!(&hash[6..7], "$");
        assert_ne!(hash, "pw123456");
    }
}

#[test]
fn hashing_under_a_work_factor_out_of_range_is_a_hashing_error() {
    assert_eq!(hash_password("pw", 3), Err(AuthError::HashingError));
    assert_eq!(hash_password("pw", 32), Err(AuthError::HashingError));
}

#[test]
fn work_factors_are_those_of_bcrypt() {
    assert_eq!(MIN_WORK_FACTOR, 4);
    assert_eq!(MAX_WORK_FACTOR, 31);
    assert_eq!(DEFAULT_WORK_FACTOR, bcrypt::DEFAULT_COST);
}

#[test]
fn outcomes_of_bcrypt_become_this_library_s_own() {
    assert_eq!(check_outcome(Ok(true)), Ok(true));
    assert_eq!(check_outcome(Ok(false)), Ok(false));
    assert_eq!(
        check_outcome(Err(bcrypt::BcryptError::InvalidHash("x"))),
        Err(AuthError::HashFormatError)
    );
    assert_eq!(
        check_outcome(Err(bcrypt::BcryptError::CostNotAllowed(40))),
        Err(AuthError::HashFormatError)
    );
    assert_eq!(hash_outcome(Ok("h".to_string())), Ok("h".to_string()));
    assert_eq!(
        hash_outcome(Err(bcrypt::BcryptError::CostNotAllowed(2))),
        Err(AuthError::HashingError)
    );
}

#[test]
fn roles_go_by_their_names() {
    assert_eq!(Role::User.as_str(), "user");
    assert_eq!(Role::Admin.as_str(), "admin");
    assert_eq!(Role::User.name_bytes(), b"user".to_vec());
    assert_eq!(Role::Admin.name_bytes(), b"admin".to_vec());
    assert_eq!(Role::parse("user"), Some(Role::User));
    assert_eq!(Role::parse("admin"), Some(Role::Admin));
    assert_eq!(Role::from_name(b"admin"), Some(Role::Admin));
    for name in ["", "User", "ADMIN", "root", "admin ", "use", "users"] {
        assert_eq!(Role::parse(name), None);
    }
}

#[test]
fn cookies_have_their_names() {
    assert_eq!(access_cookie(), "access_token");
    assert_eq!(refresh_cookie(), "refresh_token");
}

#[test]
fn clock_before_the_epoch_reads_as_the_epoch() {
    assert_eq!(seconds_since_epoch(-1), 0);
    assert_eq!(seconds_since_epoch(i64::MIN), 0);
    assert_eq!(seconds_since_epoch(0), 0);
    assert_eq!(seconds_since_epoch(1_700_000_000), 1_700_000_000);
    assert_eq!(seconds_since_epoch(i64::MAX), 9_223_372_036_854_775_807);
}

#[test]
fn clock_shows_a_time_of_this_century() {
    let now = unix_now();
    assert!(now > 1_600_000_000);
    assert!(now < 4_102_444_800);
}

#[test]
fn comparison_in_constant_time_agrees_with_equality() {
    assert!(constant_time_eq(b"", b""));
    assert!(constant_time_eq(b"abc", b"abc"));
    assert!(!constant_time_eq(b"abc", b"abd"));
    assert!(!constant_time_eq(b"abc", b"bbc"));
    assert!(!constant_time_eq(b"abc", b"ab"));
    assert!(!constant_time_eq(b"", b"a"));
    assert!(!constant_time_eq(&[0x00], &[0x80]));
    assert!(!constant_time_eq(&[0x01, 0x02], &[0x02, 0x01]));
    assert!(bytes_eq(b"abc", b"abc"));
    assert!(!bytes_eq(b"abc", b"abC"));
    assert!(!bytes_eq(b"abc", b"abcd"));
}

#[test]
fn bytes_are_appended_and_read_as_text() {
    let mut out = b"ab".to_vec();
    append(&mut out, b"cd");
    append(&mut out, b"");
    assert_eq!(out, b"abcd".to_vec());
    assert_eq!(ascii_string(out), "abcd");
    assert_eq!(ascii_string(Vec::new()), "");
}

#[test]
fn strings_are_written_with_their_escapes() {
    let mut out = Vec::new();
    push_escaped(&mut out, b"a\"b\\c\x00\x1f\x20\x7f\xc3\xa9");
    assert_eq!(out, b"a\\\"b\\\\c\\u0000\\u001f \x7f\xc3\xa9".to_vec());
    let mut out = b"x".to_vec();
    push_quoted(&mut out, b"\n\t\r\x0b\x10");
    assert_eq!(out, b"x\"\\u000a\\u0009\\u000d\\u000b\\u0010\"".to_vec());
    let mut out = Vec::new();
    push_quoted(&mut out, b"");
    assert_eq!(out, b"\"\"".to_vec());
}

#[test]
fn strings_are_read_up_to_their_closing_quote() {
    assert_eq!(parse_string(b"\"abc\"rest", 0), Some((b"abc".to_vec(), 5)));
    assert_eq!(parse_string(b"xx\"a\\\"b\"", 2), Some((b"a\"b".to_vec(), 8)));
    assert_eq!(parse_string(b"\"\\u001f\\u0000\"", 0), Some((vec![0x1f, 0x00], 14)));
    assert_eq!(parse_string(b"\"\"", 0), Some((Vec::new(), 2)));
    for text in [
        &b"abc\""[..],
        b"\"abc",
        b"\"a\\",
        b"\"a\\n\"",
        b"\"a\\u0020\"",
        b"\"a\\u001F\"",
        b"\"a\\u00\"",
        b"\"a\x1f\"",
        b"",
    ] {
        assert_eq!(parse_string(text, 0), None);
    }
    assert_eq!(parse_string(b"\"a\"", 3), None);
    assert_eq!(parse_string(b"\"a\"", 9), None);
}

#[test]
fn numbers_are_written_in_decimal() {
    for (n, text) in [
        (0u64, "0"),
        (7, "7"),
        (10, "10"),
        (1900, "1900"),
        (1_700_000_000, "1700000000"),
        (u64::MAX, "18446744073709551615"),
    ] {
        let mut out = b"=".to_vec();
        push_decimal(&mut out, n);
        assert_eq!(out, format!("={}", text).into_bytes());
    }
}

#[test]
fn numbers_are_read_without_leading_zeros_and_within_u64() {
    assert_eq!(parse_number(b"0", 0), Some((0, 1)));
    assert_eq!(parse_number(b"0,", 0), Some((0, 1)));
    assert_eq!(parse_number(b"x1900}", 1), Some((1900, 5)));
    assert_eq!(parse_number(b"18446744073709551615", 0), Some((u64::MAX, 20)));
    assert_eq!(parse_number(b"18446744073709551616", 0), None);
    assert_eq!(parse_number(b"99999999999999999999999", 0), None);
    assert_eq!(parse_number(b"00", 0), None);
    assert_eq!(parse_number(b"01", 0), None);
    assert_eq!(parse_number(b"", 0), None);
    assert_eq!(parse_number(b"-1", 0), None);
    assert_eq!(parse_number(b"a", 0), None);
    assert_eq!(parse_number(b"12", 2), None);
    assert_eq!(parse_number(b"12", 7), None);
}
