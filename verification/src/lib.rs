//! A balanced-ternary cryptographic sponge ("Curl").
//!
//! The engine owns a fixed-size state of 729 trits (ternary digits in
//! {-1, 0, 1}) and mixes it with a table-driven substitution network iterated
//! for a configurable number of rounds (27 or 81). Input is absorbed in
//! blocks of 243 trits; output of arbitrary length is squeezed in blocks of
//! the same size, with one full transform between blocks.

pub mod curl;
pub mod sponge;
pub mod storage;

pub use curl::Curl;
pub use sponge::CurlError;
pub use sponge::Mode;
pub use sponge::Sponge;
pub use sponge::HASH_LENGTH;
pub use sponge::STATE_LENGTH;
pub use storage::WasmAdapter;
