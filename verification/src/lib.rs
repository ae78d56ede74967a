//! Session tokens for an HTTP service: password checks, a signed access and
//! refresh token per session, and the rotation of both on refresh.

pub mod claims;
pub mod clock;
pub mod cookie;
pub mod encoding;
pub mod error;
pub mod json;
pub mod mac;
pub mod password;
pub mod role;
pub mod session;
pub mod text;
pub mod token;

pub use encoding::{base64url, base64url_decoded, is_base64url_byte};
pub use mac::hmac_sha256_tag;
