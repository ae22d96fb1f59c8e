//! The ICE block cipher: a Feistel network on 64-bit blocks with a thin
//! eight-round mode and a scalable multi-level mode.
pub mod galois;
pub mod permute;
pub mod sbox;
pub mod schedule;
pub mod ice;
pub mod laws;

pub use ice::{IceError, IceKey, IceModel};
