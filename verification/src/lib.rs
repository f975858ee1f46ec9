//! Visual "randomart" fingerprints of byte sequences, in the style of
//! OpenSSH's key fingerprint visualization: a token walks diagonally over a
//! fixed grid, driven by the bits of the input, and the visit counts are
//! rendered as a bordered ASCII frame.

pub mod error;
pub mod field;
pub mod hex_decode;
pub mod pipeline;
pub mod pos;

pub use error::Error;
pub use field::Field;
pub use hex_decode::{dec, decode, FromHexError};
pub use pipeline::fingerprint;
pub use pos::Pos;
