//! The sensor handle, whose type records how far it has been brought up.
//!
//! A [`DHT11`] starts `Uninitialized`; only a start-signal handshake that ran
//! through to the end turns it `Initialized`, and only an initialized sensor can
//! begin a reading.

use core::marker::PhantomData;

use vstd::prelude::*;

use crate::error::DHT11Error;
use crate::decode::decoded;
use crate::exchange::{
    initial_view, one_threshold, script, Action, Exchange, ExchangeKind, Timing, OP_BUDGET,
};
use crate::measurement::Measurement;

verus! {

/// State of a handle that has not been created yet (the one `new` is called on).
pub struct Idle;

/// State of a sensor whose presence has not been confirmed.
pub struct Uninitialized;

/// State of a sensor that answered the start signal.
pub struct Initialized;

/// A DHT11 sensor on a data pin, in the type state `STATE`.
pub struct DHT11<PIN, STATE> {
    pin: PIN,
    _state: PhantomData<STATE>,
}

impl<PIN, STATE> DHT11<PIN, STATE> {
    /// The pin the sensor is connected to.
    pub closed spec fn sensor_pin(&self) -> PIN {
        self.pin
    }

    /// Access to the data pin, for carrying out the actions of an exchange.
    pub fn pin_mut(&mut self) -> (r: &mut PIN)
        ensures
            *r == old(self).sensor_pin(),
            final(self).sensor_pin() == *final(r),
    {
        &mut self.pin
    }
}

impl<PIN> DHT11<PIN, Idle> {
    /// A handle for the sensor on `pin`, not initialized yet.
    pub fn new(pin: PIN) -> (r: DHT11<PIN, Uninitialized>)
        ensures
            r.sensor_pin() == pin,
    {
        DHT11 { pin, _state: PhantomData }
    }
}

impl<PIN> DHT11<PIN, Uninitialized> {
    /// Begins the handshake that initializes the sensor: the start signal
    /// and the sensor's acknowledgment. With `settle`, the exchange then
    /// pauses for the sensor to settle before its first reading, so that
    /// the handshake pauses 3000 ms in all.
    pub fn start_initialize<E>(&self, timing: Timing, settle: bool) -> (r: (Exchange<E>, Action))
        ensures
            r.0@ == initial_view::<E>(
                if settle {
                    ExchangeKind::StartAndSettle
                } else {
                    ExchangeKind::StartSignal
                },
                timing,
            ),
            r.0@.wf(),
            r.1 == Action::SetHigh,
            r.0@.budget() <= OP_BUDGET * script(r.0@.kind).len(),
    {
        let kind = if settle {
            ExchangeKind::StartAndSettle
        } else {
            ExchangeKind::StartSignal
        };
        Exchange::start(kind, timing)
    }

    /// The sensor, initialized, when its handshake ran through to the end;
    /// otherwise the error that ended the handshake (`NoResponse` when it did
    /// not run to its end, or is not a handshake at all).
    pub fn initialize<E>(self, handshake: Exchange<E>) -> (r: Result<
        DHT11<PIN, Initialized>,
        DHT11Error<E>,
    >)
        ensures
            r is Ok <==> handshake@.completed() && handshake@.kind != ExchangeKind::Reading,
            r matches Ok(s) ==> s.sensor_pin() == self.sensor_pin(),
            handshake@.kind != ExchangeKind::Reading ==> (r matches Err(e) ==> Err::<(), DHT11Error<E>>(e)
                == handshake@.outcome()),
            handshake@.kind == ExchangeKind::Reading ==> (r matches Err(e) && e
                == DHT11Error::<E>::NoResponse),
    {
        match handshake.kind() {
            ExchangeKind::Reading => Err(DHT11Error::NoResponse),
            _ => match handshake.into_outcome() {
                Ok(()) => Ok(DHT11 { pin: self.pin, _state: PhantomData }),
                Err(e) => Err(e),
            },
        }
    }
}

impl<PIN> DHT11<PIN, Initialized> {
    /// Begins a reading of temperature and humidity.
    pub fn start_reading<E>(&self, timing: Timing) -> (r: (Exchange<E>, Action))
        ensures
            r.0@ == initial_view::<E>(ExchangeKind::Reading, timing),
            r.0@.wf(),
            r.1 == Action::SetHigh,
            r.0@.budget() <= OP_BUDGET * script(ExchangeKind::Reading).len(),
    {
        Exchange::start(ExchangeKind::Reading, timing)
    }

    /// The result of a reading: the measurement decoded from its 40 recorded
    /// pulse widths and checked against its checksum, when the reading ran
    /// through to the end; otherwise the error that ended it (`NoResponse`
    /// when it did not run to its end, or is not a reading at all).
    pub fn read_temp_and_hum<E>(&self, reading: Exchange<E>) -> (r: Result<Measurement, DHT11Error<E>>)
        ensures
            r is Ok ==> reading@.completed() && reading@.kind == ExchangeKind::Reading,
            reading@.completed() && reading@.kind == ExchangeKind::Reading ==> r == decoded::<E>(
                reading@.pulses,
                one_threshold(reading@.timing),
            ),
            !reading@.completed() && reading@.kind == ExchangeKind::Reading ==> (r matches Err(e)
                && Err::<(), DHT11Error<E>>(e) == reading@.outcome()),
            reading@.kind != ExchangeKind::Reading ==> r == Err::<Measurement, DHT11Error<E>>(
                DHT11Error::NoResponse,
            ),
    {
        match reading.kind() {
            ExchangeKind::Reading => if reading.is_completed() {
                reading.measurement()
            } else {
                match reading.into_outcome() {
                    Err(e) => Err(e),
                    Ok(()) => Err(DHT11Error::NoResponse),
                }
            },
            _ => Err(DHT11Error::NoResponse),
        }
    }
}

} // verus!
