//! JSON Web Tokens in their compact form: a header, a set of claims and a
//! signature, written as three parts with dots between them.
//!
//! The crate reads and writes unsecured tokens, as plain JSON text and in
//! base64. It does not sign and does not check signatures.
//!
//! - `claims`: claim names and their kinds, claims, and claim sets.
//! - `header`: the header of a token.
//! - `token`: the token, cut into its parts and put together again.
//! - `traits`: what a claim set and a token have in common.
//! - `err`: the errors.
//! - `b64`, `json`, `uri`, `ident`: what is left to the crates `base64`,
//!   `serde_json`, `url` and `uuid`. Their results are named here and not
//!   proved: every contract that speaks of such a name holds as far as that
//!   crate does what its name says.
//! - `text`: comparing and searching strings.

use vstd::prelude::*;

pub mod b64;
pub mod claims;
pub mod err;
pub mod header;
pub mod ident;
pub mod json;
pub mod text;
pub mod token;
pub mod traits;
pub mod uri;

pub use token::JWT;
pub use traits::JsonSerializable;
