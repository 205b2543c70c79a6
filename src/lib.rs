//! Display helpers for a datastore inspection tool: a lossless escaping of
//! arbitrary bytes into printable text, and short human-readable renderings
//! of counts, sizes, percentages, durations and timestamps.
pub mod escape;
pub mod pretty;
pub mod text;
pub mod time;

pub use escape::to_string;
pub use pretty::{pct, pretty_duration, pretty_size, pretty_value};
pub use time::{now, pretty_timestamp};
