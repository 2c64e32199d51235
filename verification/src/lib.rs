//! Driver logic for the DHT11 temperature and humidity sensor.
//!
//! The sensor talks over a single open-drain line. This crate holds the
//! protocol as a verified state machine ([`exchange::Exchange`]), the
//! decoding of the 40 measured pulse widths into a [`Measurement`]
//! ([`decode`]), and the type-state wrapper [`DHT11`] that only lets an
//! initialized sensor be read. Driving the pin and waiting is left to the
//! caller, who performs each [`exchange::Action`] and answers with a
//! [`exchange::Reply`].

pub mod error;
pub mod exchange;
pub mod decode;
pub mod measurement;
pub mod runs;
pub mod sensor;

pub use error::DHT11Error;
pub use measurement::{Humidity, Measurement, SensorValue, Temperature};
pub use sensor::{Idle, Initialized, Uninitialized, DHT11};
