//! Client side of UpSPA: threshold, password-authenticated single sign-on.
//!
//! One password unlocks a long-term state that is shared among `N` service
//! providers so that any `t` of them can help to rebuild a per-password state
//! key. The crate holds the threshold OPRF over Ristretto255, the two
//! ciphertext shapes with their associated data, and the client's part of the
//! five flows: setup, registration, authentication, secret update and password
//! update.
//!
//! Every function carries a contract that Verus proves. The cryptographic
//! primitives come from other crates; each call into them stands in one small
//! function whose contract is believed, and whose doc comment says what is
//! believed of it. What such a call returns is a function of its arguments,
//! and the contracts give that function a name; what depends on the random
//! generator is stated for every outcome, and each flow that draws has a
//! twin that takes the drawn values as arguments and is specified exactly.
//!
//! - [`types`]: cipher blobs, their wire and text forms, the error type
//! - [`aead`], [`hash`], [`sign`]: the primitives with the protocol's
//!   prefixes and contexts
//! - [`scalar`], [`point`], [`field`]: scalars and points of the group, and
//!   arithmetic modulo its order
//! - [`shamir`]: sharing polynomials, Lagrange coefficients, and the proof
//!   that shares recover the secret
//! - [`toprf`]: the threshold OPRF
//! - [`protocol`]: the ciphertext shapes and the flows

pub mod aead;
pub mod bytes;
pub mod crypto;
pub mod field;
pub mod hash;
pub mod point;
pub mod protocol;
pub mod rng;
pub mod scalar;
pub mod shamir;
pub mod sign;
pub mod toprf;
pub mod types;

pub use types::UpspaError;
