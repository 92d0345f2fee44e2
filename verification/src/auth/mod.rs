//! Authentication primitives: proof-of-work challenges, TOTP second factors,
//! signed access tokens, opaque refresh tokens and password hashing. The
//! cryptography itself is done by vetted crates; this module holds the logic
//! around it.

pub mod error;
pub mod hex;
pub mod password;
pub mod pow;
pub mod refresh;
pub mod token;
pub mod totp;

pub mod digest;
pub mod paseto;
pub mod webauthn;
