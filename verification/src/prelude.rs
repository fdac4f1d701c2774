//! The entry points of the four attribute macros.
pub use crate::bitflate::bitflate;
pub use crate::bits::{bitflate_bits, bitflate_enum};
pub use crate::pod::podflate;
