//! Header fixing for GBA cartridge images: patch-token parsing, the fixed
//! header layout with its complement checksum, power-of-two padding, and the
//! applicator that ties them together.
pub mod apply;
pub mod header;
pub mod ops;
pub mod pad;

pub use apply::apply_patches;
pub use header::{GbaHeader, HEADER_SIZE};
pub use ops::{parse_token, ParseError, PatchOp};
