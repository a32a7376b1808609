//! Collection pipeline for RuuviTag environmental sensors.
//!
//! The library decodes the fixed-layout format-5 advertisement payload,
//! accumulates readings per device over a collection window, averages a
//! window's readings into one record per device, and plans the retrying
//! database writes that persist those records.  Quantities with a fixed
//! decimal precision are carried as scaled integers: hundredths for
//! temperature, humidity and pressure, thousandths for acceleration.

pub mod assoc;
pub mod collector;
pub mod config;
pub mod database;
pub mod decoder;
pub mod models;
pub mod utils;
