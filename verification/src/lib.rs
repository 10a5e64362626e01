//! A terminal countdown timer library.
//!
//! The crate has two verified cores: a parser for compact duration strings
//! such as `"1h2m30s"` (module [`parse`]), and a countdown state machine that
//! yields one render per remaining second on an absolute, drift-free schedule
//! (module [`countdown`]). Module [`display`] turns a remaining-seconds count
//! into large glyph text for the terminal; module [`digits`] holds the shared
//! decimal-digit arithmetic.

pub mod countdown;
pub mod digits;
pub mod display;
pub mod parse;

pub use countdown::Countdown;
pub use countdown::TickStep;
pub use digits::format_decimal;
pub use display::Renderer;
pub use parse::Config;
pub use parse::ParserError;
