//! Date/time parsing and formatting: decimal and base-60 timestamps, strftime-style
//! patterns, a four-line summary, and a Braille binary-coded-decimal clock.
pub mod base60;
pub mod braille;
pub mod calendar;
pub mod dtg;
pub mod error;
pub mod run;
pub mod text;
pub mod zone;

pub use braille::bcd_braille;
pub use dtg::{Dtg, Format};
pub use error::DtgError;
pub use run::{parse_timestamp, run, run_at};
pub use zone::{list_zones, resolve_local, search_zones, tz, Zone};
