use dht11_driver_rust::exchange::{Action, Exchange, Reply, Step, Timing};
use dht11_driver_rust::{DHT11Error, Initialized, Measurement, SensorValue, DHT11};

/// A simulated data line: after the start signal, the sensor holds the line
/// low or high for the given number of microseconds, then leaves it high.
struct Line {
    segments: Vec<(bool, u64)>,
}

impl Line {
    fn low_at(&self, t: u64) -> bool {
        let mut end = 0;
        for (low, len) in &self.segments {
            end += len;
            if t < end {
                return *low;
            }
        }
        false
    }
}

/// The line of a sensor that acknowledges and sends these five bytes.
fn sensor_line(bytes: [u8; 5]) -> Line {
    let mut segments = vec![(false, 20), (true, 80), (false, 80), (true, 50), (false, 30)];
    for i in 0..40 {
        let bit = (bytes[i / 8] >> (7 - i % 8)) & 1;
        segments.push((true, 50));
        segments.push((false, if bit == 1 { 70 } else { 26 }));
    }
    segments.push((true, 50));
    Line { segments }
}

struct Run {
    actions: Vec<Action>,
    replies: usize,
}

/// Carries out an exchange against a simulated line. Time starts with the
/// first read of the line; a software read takes no time, a read in a
/// cycle-counter loop takes one microsecond. `fail_at` makes the pin fail on
/// the first pin action at or after that index.
fn run(ex: &mut Exchange<u8>, first: Action, line: &Line, cycles_base: u32, fail_at: Option<usize>) -> Run {
    let mut t: u64 = 0;
    let mut started = false;
    let mut action = first;
    let mut actions = Vec::new();
    loop {
        actions.push(action);
        let pin_action = matches!(action, Action::SetHigh | Action::SetLow | Action::ReadLevel);
        let reply = if pin_action && matches!(fail_at, Some(k) if actions.len() - 1 >= k) {
            Reply::PinError(7u8)
        } else {
            match action {
                Action::SetHigh | Action::SetLow => Reply::Done,
                Action::DelayMs(ms) => {
                    if started {
                        t += ms as u64 * 1000;
                    }
                    Reply::Done
                }
                Action::DelayUs(us) => {
                    t += us as u64;
                    Reply::Done
                }
                Action::ReadLevel => {
                    started = true;
                    Reply::Level { low: line.low_at(t) }
                }
                Action::ReadCycles => {
                    started = true;
                    let c = cycles_base.wrapping_add((t * 168) as u32);
                    t += 1;
                    Reply::Cycles(c)
                }
            }
        };
        assert!(ex.accepts(&reply));
        match ex.step(reply) {
            Step::Perform(a) => action = a,
            Step::Finish => {
                assert!(ex.is_finished());
                let replies = actions.len();
                return Run { actions, replies };
            }
        }
    }
}

/// A sensor brought up by a handshake with a simulated sensor that answers.
fn initialized_sensor() -> DHT11<u8, Initialized> {
    let sensor = DHT11::new(3u8);
    let (mut ex, first) = sensor.start_initialize(Timing::Software, false);
    run(&mut ex, first, &sensor_line([0; 5]), 0, None);
    sensor.initialize(ex).ok().unwrap()
}

fn start_signal() -> Vec<Action> {
    vec![Action::SetHigh, Action::DelayMs(1), Action::SetLow, Action::DelayMs(20), Action::SetHigh]
}

#[test]
fn initialize_sends_the_start_signal_and_waits_for_the_answer() {
    let sensor = DHT11::new(9u8);
    let (mut ex, first) = sensor.start_initialize(Timing::Software, false);
    let r = run(&mut ex, first, &sensor_line([0; 5]), 0, None);
    assert!(ex.is_completed());
    let mut expected = start_signal();
    // 20 microseconds high: 20 off-target polls, each followed by a pause
    for _ in 0..20 {
        expected.push(Action::ReadLevel);
        expected.push(Action::DelayUs(1));
    }
    expected.push(Action::ReadLevel);
    assert_eq!(r.actions, expected);
    let mut ready = sensor.initialize(ex).ok().unwrap();
    assert_eq!(*ready.pin_mut(), 9);
}

#[test]
fn power_up_settles_for_about_three_seconds_in_all() {
    let line = sensor_line([0; 5]);
    let sensor = DHT11::new(1u8);
    let (mut plain, first) = sensor.start_initialize::<u8>(Timing::Software, false);
    let p = run(&mut plain, first, &line, 0, None);
    let (mut ex, first) = sensor.start_initialize(Timing::Software, true);
    let r = run(&mut ex, first, &line, 0, None);
    // the same actions as the plain handshake, then one settle pause
    let mut expected = p.actions.clone();
    expected.push(Action::DelayMs(2979));
    assert_eq!(r.actions, expected);
    // the pauses add up to about three seconds
    let paused: u32 = r.actions.iter().map(|a| match a { Action::DelayMs(ms) => *ms, _ => 0 }).sum();
    assert_eq!(paused, 3000);
    assert!(sensor.initialize(ex).is_ok());
}

#[test]
fn power_up_makes_no_pause_when_the_sensor_is_silent() {
    let silent = Line { segments: vec![] };
    let sensor = DHT11::new(1u8);
    let (mut plain, first) = sensor.start_initialize::<u8>(Timing::Software, false);
    let p = run(&mut plain, first, &silent, 0, None);
    let (mut ex, first) = sensor.start_initialize::<u8>(Timing::Software, true);
    let r = run(&mut ex, first, &silent, 0, None);
    assert_eq!(r.actions, p.actions);
    assert_eq!(sensor.initialize(ex).err(), Some(DHT11Error::NoResponse));
}

#[test]
fn a_silent_sensor_gives_no_response_after_two_hundred_pauses() {
    let sensor = DHT11::new(1u8);
    let (mut ex, first) = sensor.start_initialize(Timing::Software, false);
    let silent = Line { segments: vec![] };
    let r = run(&mut ex, first, &silent, 0, None);
    let reads = r.actions.iter().filter(|a| **a == Action::ReadLevel).count();
    let pauses = r.actions.iter().filter(|a| **a == Action::DelayUs(1)).count();
    assert_eq!(reads, 201);
    assert_eq!(pauses, 200);
    assert!(!ex.is_completed());
    assert_eq!(sensor.initialize(ex).err(), Some(DHT11Error::NoResponse));
}

#[test]
fn an_unfinished_handshake_does_not_initialize() {
    let sensor = DHT11::new(1u8);
    let (mut ex, _) = sensor.start_initialize::<u8>(Timing::Software, false);
    assert_eq!(ex.step(Reply::Done), Step::Perform(Action::DelayMs(1)));
    assert_eq!(sensor.initialize(ex).err(), Some(DHT11Error::NoResponse));
}

#[test]
fn a_reading_exchange_does_not_initialize() {
    let ready = initialized_sensor();
    let (mut ex, first) = ready.start_reading::<u8>(Timing::Software);
    run(&mut ex, first, &sensor_line([1, 2, 3, 4, 10]), 0, None);
    assert!(ex.is_completed());
    assert_eq!(DHT11::new(2u8).initialize(ex).err(), Some(DHT11Error::NoResponse));
}

#[test]
fn a_pin_error_ends_the_exchange_with_that_error() {
    let sensor = DHT11::new(1u8);
    let (mut ex, first) = sensor.start_initialize(Timing::Software, false);
    let r = run(&mut ex, first, &sensor_line([0; 5]), 0, Some(2));
    assert_eq!(r.actions, vec![Action::SetHigh, Action::DelayMs(1), Action::SetLow]);
    assert!(!ex.accepts(&Reply::<u8>::Done));
    assert_eq!(sensor.initialize(ex).err(), Some(DHT11Error::PinError(7)));
}

#[test]
fn a_pin_error_while_reading_the_line() {
    let sensor = initialized_sensor();
    let (mut ex, first) = sensor.start_reading(Timing::Software);
    run(&mut ex, first, &sensor_line([1, 2, 3, 4, 10]), 0, Some(40));
    assert_eq!(sensor.read_temp_and_hum(ex), Err(DHT11Error::PinError(7)));
}

#[test]
fn replies_must_answer_the_last_action() {
    let sensor = DHT11::new(1u8);
    let (mut ex, _) = sensor.start_initialize(Timing::Software, false);
    assert!(ex.accepts(&Reply::<u8>::Done));
    assert!(!ex.accepts(&Reply::<u8>::Level { low: true }));
    assert!(!ex.accepts(&Reply::<u8>::Cycles(5)));
    assert!(ex.accepts(&Reply::PinError(1u8)));
    // a reply that does not answer the action is ignored, the action asked again
    assert_eq!(ex.step(Reply::Level { low: true }), Step::Perform(Action::SetHigh));
    assert_eq!(ex.step(Reply::Done), Step::Perform(Action::DelayMs(1)));
    // a delay cannot fail
    assert!(!ex.accepts(&Reply::PinError(1u8)));
    assert_eq!(ex.step(Reply::PinError(1u8)), Step::Perform(Action::DelayMs(1)));
    for _ in 0..4 {
        assert!(matches!(ex.step(Reply::<u8>::Done), Step::Perform(_)));
    }
    assert!(!ex.accepts(&Reply::<u8>::Done));
    assert!(ex.accepts(&Reply::<u8>::Level { low: false }));
}

#[test]
fn a_finished_exchange_keeps_answering_finish() {
    let sensor = DHT11::new(1u8);
    let (mut ex, first) = sensor.start_initialize::<u8>(Timing::Software, false);
    run(&mut ex, first, &sensor_line([0; 5]), 0, Some(0));
    assert_eq!(ex.step(Reply::Done), Step::Finish);
    assert_eq!(ex.step(Reply::Level { low: true }), Step::Finish);
    assert_eq!(ex.into_outcome(), Err(DHT11Error::PinError(7)));
}

#[test]
fn a_software_reading_decodes_the_frame() {
    let sensor = initialized_sensor();
    let (mut ex, first) = sensor.start_reading(Timing::Software);
    let r = run(&mut ex, first, &sensor_line([45, 0, 23, 7, 75]), 0, None);
    assert_eq!(r.actions[..5], start_signal()[..]);
    assert!(ex.pulses().iter().all(|w| *w <= 200));
    let m = sensor.read_temp_and_hum(ex).unwrap();
    assert_eq!(
        m,
        Measurement {
            humidity: SensorValue { integral: 45, decimal: 0 },
            temperature: SensorValue { integral: 23, decimal: 7 },
            checksum: 75,
        }
    );
    assert_eq!(m.temp_as_fixed(), 237);
    assert_eq!(m.hum_as_fixed(), 450);
    // every software-timed reading ends within 90 operations of 402 replies each
    assert!(r.replies <= 90 * 402);
}

#[test]
fn two_readings_of_the_same_line_agree() {
    let sensor = initialized_sensor();
    let line = sensor_line([12, 0, 30, 1, 43]);
    // a failed reading first
    let (mut ex, first) = sensor.start_reading::<u8>(Timing::Software);
    run(&mut ex, first, &line, 0, Some(100));
    assert_eq!(sensor.read_temp_and_hum(ex), Err(DHT11Error::PinError(7)));
    let (mut a, first) = sensor.start_reading::<u8>(Timing::Software);
    let ra = run(&mut a, first, &line, 0, None);
    let (mut b, first) = sensor.start_reading::<u8>(Timing::Software);
    let rb = run(&mut b, first, &line, 0, None);
    assert_eq!(ra.actions, rb.actions);
    assert_eq!(sensor.read_temp_and_hum(a), sensor.read_temp_and_hum(b));
}

#[test]
fn a_reading_with_a_corrupted_frame_reports_a_checksum_mismatch() {
    let sensor = initialized_sensor();
    let (mut ex, first) = sensor.start_reading(Timing::Software);
    run(&mut ex, first, &sensor_line([45, 0, 23, 7, 74]), 0, None);
    assert!(ex.is_completed());
    assert_eq!(sensor.read_temp_and_hum(ex), Err(DHT11Error::ChecksumMismatch));
}

#[test]
fn an_unfinished_reading_gives_no_measurement() {
    let sensor = initialized_sensor();
    let (ex, _) = sensor.start_reading::<u8>(Timing::Software);
    assert_eq!(sensor.read_temp_and_hum(ex), Err(DHT11Error::NoResponse));
}

#[test]
fn a_handshake_exchange_gives_no_measurement() {
    let sensor = initialized_sensor();
    let (mut ex, first) = DHT11::new(4u8).start_initialize::<u8>(Timing::Software, false);
    run(&mut ex, first, &sensor_line([0; 5]), 0, None);
    assert!(ex.is_completed());
    assert_eq!(sensor.read_temp_and_hum(ex), Err(DHT11Error::NoResponse));
}

#[test]
fn a_line_stuck_low_times_out_the_reading() {
    let sensor = initialized_sensor();
    let (mut ex, first) = sensor.start_reading(Timing::Software);
    let mut line = sensor_line([45, 0, 23, 7, 75]);
    line.segments.truncate(20);
    line.segments.push((true, 10_000));
    run(&mut ex, first, &line, 0, None);
    assert_eq!(sensor.read_temp_and_hum(ex), Err(DHT11Error::Timeout));
}

#[test]
fn a_cycle_counted_reading_decodes_the_frame_across_a_counter_wrap() {
    let sensor = initialized_sensor();
    for base in [0u32, 123_456, u32::MAX - 50_000] {
        let (mut ex, first) = sensor.start_reading(Timing::CycleCounter);
        let r = run(&mut ex, first, &sensor_line([55, 3, 19, 9, 86]), base, None);
        assert!(!r.actions.contains(&Action::DelayUs(1)));
        assert_eq!(
            sensor.read_temp_and_hum(ex),
            Ok(Measurement {
                humidity: SensorValue { integral: 55, decimal: 3 },
                temperature: SensorValue { integral: 19, decimal: 9 },
                checksum: 86,
            })
        );
    }
}

#[test]
fn a_cycle_counted_acknowledgment_wait_gives_no_response_after_33600_cycles() {
    let sensor = DHT11::new(1u8);
    let (mut ex, first) = sensor.start_initialize(Timing::CycleCounter, false);
    let silent = Line { segments: vec![] };
    let r = run(&mut ex, first, &silent, u32::MAX - 10, None);
    // stamps are 168 cycles apart: the check at 201 * 168 = 33768 cycles is the first above the limit
    let reads = r.actions.iter().filter(|a| **a == Action::ReadLevel).count();
    assert_eq!(reads, 201);
    assert_eq!(sensor.initialize(ex).err(), Some(DHT11Error::NoResponse));
}

#[test]
fn a_cycle_counted_reading_times_out_on_a_stuck_line() {
    let sensor = initialized_sensor();
    let (mut ex, first) = sensor.start_reading(Timing::CycleCounter);
    let mut line = sensor_line([45, 0, 23, 7, 75]);
    line.segments.truncate(30);
    line.segments.push((true, 100_000));
    run(&mut ex, first, &line, 7, None);
    assert_eq!(sensor.read_temp_and_hum(ex), Err(DHT11Error::Timeout));
}

#[test]
fn measurement_of_an_exchange_decodes_its_recorded_pulses() {
    let sensor = initialized_sensor();
    let (mut ex, first) = sensor.start_reading(Timing::Software);
    run(&mut ex, first, &sensor_line([10, 1, 30, 2, 43]), 0, None);
    assert_eq!(ex.measurement().unwrap().checksum, 43);
    let m = ex.measurement();
    assert_eq!(m, sensor.read_temp_and_hum(ex));
}

#[test]
fn timing_thresholds() {
    assert_eq!(Timing::Software.one_threshold(), 40);
    assert_eq!(Timing::CycleCounter.one_threshold(), 8000);
}
