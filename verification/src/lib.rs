//! A unit and currency converter: free text such as "10 kg" or "5 EUR" is
//! parsed, the unit is classified, and the amount is converted to the related
//! units, currencies going through a cache of exchange rates.
//!
//! Numbers are fixed-point throughout: an amount or a rate is a whole number
//! of millionths, a converted amount a whole number of thousandths, and a
//! division rounds to the nearest integer. Times are whole seconds on a clock
//! of the caller's choice.
//!
//! - [`unit`] reads an amount and its unit from a text and names the family
//!   of the unit; [`conversion`] and [`command`] are the entry points.
//! - [`conversion_cache`] holds the rates, anchored to the dollar, and decides
//!   what a reply of the rate provider does to them; [`rates`] is the table
//!   itself and [`scheduler`] the rhythm of the refreshes.
//! - [`currency`] converts between currencies by way of the cached rates.
//! - [`weight`], [`distance`], [`temp`] and [`volume`] are the fixed tables,
//!   built on [`table`].
//! - [`fixed`] and [`text`] are the arithmetic and the notation under it all.

pub mod command;
pub mod conversion;
pub mod conversion_cache;
pub mod currency;
pub mod distance;
pub mod fixed;
pub mod rates;
pub mod scheduler;
pub mod table;
pub mod temp;
pub mod text;
pub mod unit;
pub mod volume;
pub mod weight;
