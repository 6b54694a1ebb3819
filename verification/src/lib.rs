//! Verified columnar storage primitives: bit-packed boolean sequences used as
//! validity (null) bitmaps, nullable fixed-width and variable-width column
//! arrays built on top of them, and a binary codec for column-schema metadata.

pub mod bitmap;
pub mod bitops;
pub mod bitvec;
pub mod fixed;
pub mod metadata;
pub mod util;
pub mod variable;
