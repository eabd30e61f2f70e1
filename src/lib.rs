//! Decoding of the SMMSTORE firmware variable store: the legacy compact
//! record layout and the firmware-volume-block layout.

pub mod bytes;
pub mod guid;
pub mod header;
pub mod varmap;
pub mod walker;
pub mod detect;
pub mod key;
pub mod proofs;
