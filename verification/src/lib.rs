//! Verified core of a router management client: the terminal renderer that
//! redraws status frames in place, the poll loop that drives it, and the
//! bounded-retry association state machine, together with the small string
//! and number formatting routines they rely on.

pub mod associate;
pub mod error;
pub mod frames;
pub mod poll;
pub mod render;
pub mod speed;
pub mod term;
pub mod text;

pub use speed::speed_unit;
