//! Data types for raw readings and per-window averages.

use vstd::prelude::*;

verus! {

/// One decoded reading from a RuuviTag format-5 advertisement.
///
/// Every quantity is held at its persisted precision as a scaled integer:
/// two decimals become hundredths, three decimals become thousandths.
/// A reading is never mutated after the decoder creates it.
#[derive(Clone, Copy, PartialEq, Eq, Structural, Debug)]
pub struct RuuviData {
    /// Temperature in hundredths of a degree Celsius.
    pub temperature: i32,
    /// Relative humidity in hundredths of a percent, capped at 10000.
    pub humidity: u32,
    /// Pressure in hundredths of a hectopascal.
    pub pressure: u32,
    /// Acceleration along X in thousandths of g.
    pub acceleration_x: i32,
    /// Acceleration along Y in thousandths of g.
    pub acceleration_y: i32,
    /// Acceleration along Z in thousandths of g.
    pub acceleration_z: i32,
    /// Wrapping 8-bit counter of movement events.
    pub movement_counter: u8,
}

/// Mathematical image of an [`AverageData`] record.
pub struct AverageView {
    pub temperature: int,
    pub humidity: int,
    pub pressure: int,
    pub acceleration_x: int,
    pub acceleration_y: int,
    pub acceleration_z: int,
    pub movement_counter: int,
    pub time: int,
    pub name: Seq<char>,
    pub samples: int,
}

/// One device's averages over one collection window.
///
/// Continuous metrics use the same scaled-integer units as [`RuuviData`];
/// `movement_counter` holds the wrap-aware delta between the window's first
/// and last reading, `time` the window-end moment as Unix seconds, and
/// `samples` the number of readings averaged.
#[derive(Clone, Debug)]
pub struct AverageData {
    pub temperature: i32,
    pub humidity: u32,
    pub pressure: u32,
    pub acceleration_x: i32,
    pub acceleration_y: i32,
    pub acceleration_z: i32,
    pub movement_counter: u32,
    pub time: i64,
    pub name: String,
    pub samples: usize,
}

impl View for AverageData {
    type V = AverageView;

    open spec fn view(&self) -> AverageView {
        AverageView {
            temperature: self.temperature as int,
            humidity: self.humidity as int,
            pressure: self.pressure as int,
            acceleration_x: self.acceleration_x as int,
            acceleration_y: self.acceleration_y as int,
            acceleration_z: self.acceleration_z as int,
            movement_counter: self.movement_counter as int,
            time: self.time as int,
            name: self.name@,
            samples: self.samples as int,
        }
    }
}

/// A device address paired with the averages computed for it.
#[derive(Clone, Debug)]
pub struct AverageEntry {
    /// Device address in its canonical uppercase hex form.
    pub sensor_id: String,
    pub data: AverageData,
}

impl View for AverageEntry {
    type V = (Seq<char>, AverageView);

    open spec fn view(&self) -> (Seq<char>, AverageView) {
        (self.sensor_id@, self.data@)
    }
}

} // verus!
