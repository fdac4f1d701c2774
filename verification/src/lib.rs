//! Layout previews and checks for `repr(C)` structs and packed bitfields:
//! the planning behind the `#[bitflate]`, `#[bitflate_bits(N)]`,
//! `#[bitflate_enum(N)]` and `#[podflate]` attribute macros, on plain values.
pub mod align;
pub mod attrs;
pub mod bitflate;
pub mod bits;
pub mod digits;
pub mod layout;
pub mod lines;
pub mod model;
pub mod pod;
pub mod prelude;
pub mod text;
pub mod widths;

pub use align::align_up;
pub use bitflate::bitflate;
pub use bits::{bitflate_bits, bitflate_enum};
pub use pod::podflate;
