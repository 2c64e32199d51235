//! What one successful reading of the sensor yields.

use vstd::prelude::*;

verus! {

/// A reading split as the sensor sends it: a whole part and a tenths part.
#[derive(Debug, Clone, Copy, PartialEq, Eq)]
pub struct SensorValue {
    pub integral: u8,
    pub decimal: u8,
}

/// Temperature in degrees Celsius.
pub type Temperature = SensorValue;

/// Relative humidity in percent.
pub type Humidity = SensorValue;

/// One frame received from the sensor, checked against its checksum.
#[derive(Debug, Clone, Copy, PartialEq, Eq)]
pub struct Measurement {
    pub humidity: Humidity,
    pub temperature: Temperature,
    pub checksum: u8,
}

/// The value in tenths of a unit: ten times the whole part plus the tenths.
pub open spec fn fixed_point(v: SensorValue) -> int {
    10 * v.integral + v.decimal
}

impl Measurement {
    /// The temperature in tenths of a degree (255 stands for 25.5 °C).
    pub fn temp_as_fixed(&self) -> (r: i16)
        ensures
            r == fixed_point(self.temperature),
            r == 10 * self.temperature.integral + self.temperature.decimal,
    {
        (self.temperature.integral as i16 * 10) + (self.temperature.decimal as i16)
    }

    /// The humidity in tenths of a percent.
    pub fn hum_as_fixed(&self) -> (r: i16)
        ensures
            r == fixed_point(self.humidity),
            r == 10 * self.humidity.integral + self.humidity.decimal,
    {
        (self.humidity.integral as i16 * 10) + (self.humidity.decimal as i16)
    }
}

/// A fixed-point value splits back into its parts when the tenths part is a
/// single digit, and every fixed-point value lies between 0 and 2805.
pub proof fn lemma_fixed_point_digits(v: SensorValue)
    ensures
        0 <= fixed_point(v) <= 2805,
        v.decimal < 10 ==> fixed_point(v) / 10 == v.integral,
        v.decimal < 10 ==> fixed_point(v) % 10 == v.decimal,
{
}

} // verus!
