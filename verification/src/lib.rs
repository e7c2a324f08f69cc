//! Exact time intervals: a rational scalar, the units that scale it, and the
//! text that shows it.
//!
//! A [`duration::Duration`] is one signed scalar of seconds. The scalar,
//! [`decimal::Decimal`], is an exact ratio in lowest terms, so that a
//! nanosecond is not lost over thousands of years and a third of an hour is
//! twenty minutes. Units ([`duration::TimeUnit`]) make durations and read
//! them; [`render`] writes a duration as days, hours, minutes, seconds,
//! milliseconds and nanoseconds, and [`scale`] picks the one unit that suits
//! its magnitude.
//!
//! The modules [`algebra`], [`breakdown`], [`layout`] and [`order`] hold what
//! is proved of these operations beyond their own contracts.

pub mod algebra;
pub mod breakdown;
pub mod decimal;
pub mod duration;
pub mod fraction;
pub mod layout;
pub mod numtheory;
pub mod order;
pub mod parse;
pub mod rational;
pub mod render;
pub mod scale;
pub mod text;
