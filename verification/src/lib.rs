//! Rendering byte sequences as shortened hexadecimal strings.
//!
//! A byte sequence renders as two hexadecimal digits per byte. When the
//! full rendering would exceed a caller-supplied character budget (the
//! precision, 10 when absent), a contiguous middle run of digits is
//! replaced by the two-character marker `..`, keeping a prefix from the
//! start of the sequence and a suffix from its end. A list of byte
//! sequences renders as a bracketed, comma-separated list of such
//! renderings.

pub mod chars;
pub mod list;
pub mod render;

pub use chars::fmt_byte;
pub use chars::fmt_digit;
pub use chars::Case;
pub use list::HexList;
pub use render::fmt;
pub use render::HexFmt;
pub use render::DEFAULT_PRECISION;
