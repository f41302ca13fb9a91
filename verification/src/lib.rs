//! Finds timestamps in text and derives from them counts per calendar
//! interval, the gaps between consecutive events, the periods of continuous
//! activity that a timeout separates, and the sums of those periods.
//!
//! The stages of a report, in the order in which they run:
//!
//! - [`search_datetimes`] locates the timestamps in the lines of the input;
//! - [`parse_datetime`] reads each located text as a [`timestamp`];
//! - [`filter_datetimes`] keeps the timestamps of a range and rejects those
//!   in the future or out of order;
//! - [`group_datetimes`] groups them by day, month or year in an
//!   [`interval_map`], whose keys stand in [`key_order`];
//! - [`delta_datetimes`] takes the gaps between neighbours and splits them
//!   into periods, [`split_intervals`] does so for each group;
//! - [`convert_seconds`] writes a number of seconds in a unit, and
//!   [`printer`] the lines of a report, with the numerals of [`text`].
//!
//! [`subcommands`] runs the stages for each report. [`date_range`] lists the
//! days, months or years between two dates.

pub mod convert_seconds;
pub mod date_range;
pub mod delta_datetimes;
pub mod filter_datetimes;
pub mod group_datetimes;
pub mod interval_map;
pub mod key_order;
pub mod parse_datetime;
pub mod printer;
pub mod search_datetimes;
pub mod split_intervals;
pub mod subcommands;
pub mod text;
pub mod timestamp;
