//! A single error type that wraps any error value behind one owning handle.
//!
//! An [`Error`] keeps the value it was built from, every context layered on
//! top of it, and the causes that value reports. It renders them in a plain,
//! an alternate and two diagnostic forms, walks them as a [`Chain`], and
//! hands any layer back by its [`Kind`].

pub mod chain;
pub mod context;
pub mod error;
pub mod fmt;
pub mod laws;
pub mod text;
pub mod value;

pub use chain::Chain;
pub use context::Context;
pub use error::{Error, ErrorView, Result};
pub use value::{Backtrace, ErrorLike, Kind, Value, ValueView};
