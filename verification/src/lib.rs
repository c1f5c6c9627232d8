//! A lightweight time-tracking library.
//!
//! A [`Sheet`] records punch-in/punch-out events as a list of [`Event`]s and
//! answers queries about how much time was worked inside a window of time.
//! Sheets serialize to an opaque byte form that parses back exactly.

mod clock;
pub mod codec;
pub mod event;
pub mod instant;
pub mod period;
pub mod sheet;

pub use event::Event;
pub use instant::Duration;
pub use instant::Instant;
pub use instant::TICK_BOUND;
pub use period::Period;
pub use sheet::Sheet;
pub use sheet::SheetError;
pub use sheet::SheetStatus;
