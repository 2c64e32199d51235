use dht11_driver_rust::decode::decode_pulses;
use dht11_driver_rust::{DHT11Error, Measurement, SensorValue};

fn value(integral: u8, decimal: u8) -> SensorValue {
    SensorValue { integral, decimal }
}

/// Pulse widths for five bytes, most significant bit first.
fn encode(bytes: [u8; 5], one: u32, zero: u32) -> [u32; 40] {
    let mut pulses = [0u32; 40];
    for i in 0..40 {
        let bit = (bytes[i / 8] >> (7 - i % 8)) & 1;
        pulses[i] = if bit == 1 { one } else { zero };
    }
    pulses
}

#[test]
fn temp_as_fixed_gives_tenths_of_a_degree() {
    let m = Measurement { humidity: value(40, 0), temperature: value(25, 5), checksum: 70 };
    assert_eq!(m.temp_as_fixed(), 255);
}

#[test]
fn hum_as_fixed_gives_tenths_of_a_percent() {
    let m = Measurement { humidity: value(63, 2), temperature: value(21, 0), checksum: 86 };
    assert_eq!(m.hum_as_fixed(), 632);
}

#[test]
fn fixed_point_covers_the_whole_byte_range() {
    let m = Measurement { humidity: value(0, 0), temperature: value(255, 255), checksum: 254 };
    assert_eq!(m.temp_as_fixed(), 2805);
    assert_eq!(m.hum_as_fixed(), 0);
}

#[test]
fn fixed_point_splits_back_into_its_digits() {
    for integral in [0u8, 1, 19, 99, 255] {
        for decimal in 0u8..10 {
            let m = Measurement {
                humidity: value(integral, decimal),
                temperature: value(integral, decimal),
                checksum: 0,
            };
            let f = m.temp_as_fixed();
            assert_eq!(f / 10, integral as i16);
            assert_eq!(f % 10, decimal as i16);
            assert_eq!(m.hum_as_fixed(), f);
        }
    }
}

#[test]
fn decode_accepts_a_valid_frame() {
    let pulses = encode([45, 0, 23, 7, 75], 70, 26);
    let r = decode_pulses::<()>(&pulses, 40);
    assert_eq!(
        r,
        Ok(Measurement { humidity: value(45, 0), temperature: value(23, 7), checksum: 75 })
    );
}

#[test]
fn decode_rejects_a_wrong_checksum() {
    let pulses = encode([45, 0, 23, 7, 76], 70, 26);
    assert_eq!(decode_pulses::<()>(&pulses, 40), Err(DHT11Error::ChecksumMismatch));
}

#[test]
fn decode_checksum_wraps_at_eight_bits() {
    let pulses = encode([200, 100, 0, 0, 44], 70, 26);
    let r = decode_pulses::<()>(&pulses, 40);
    assert_eq!(
        r,
        Ok(Measurement { humidity: value(200, 100), temperature: value(0, 0), checksum: 44 })
    );
    let pulses = encode([200, 100, 0, 0, 45], 70, 26);
    assert_eq!(decode_pulses::<()>(&pulses, 40), Err(DHT11Error::ChecksumMismatch));
}

#[test]
fn decode_threshold_is_strict() {
    // A pulse exactly at the threshold is a zero, one above it a one.
    let at = encode([0xff, 0xff, 0xff, 0xff, 0xfc], 40, 0);
    assert_eq!(
        decode_pulses::<()>(&at, 40),
        Ok(Measurement { humidity: value(0, 0), temperature: value(0, 0), checksum: 0 })
    );
    let above = encode([1, 2, 3, 4, 10], 41, 40);
    assert_eq!(
        decode_pulses::<()>(&above, 40),
        Ok(Measurement { humidity: value(1, 2), temperature: value(3, 4), checksum: 10 })
    );
}

#[test]
fn decode_cycle_counter_threshold() {
    let pulses = encode([55, 3, 19, 9, 86], 11700, 4000);
    assert_eq!(
        decode_pulses::<()>(&pulses, 8000),
        Ok(Measurement { humidity: value(55, 3), temperature: value(19, 9), checksum: 86 })
    );
    // read with the software threshold, every bit is a one: 4 * 255 wraps to 252, not 255
    assert_eq!(decode_pulses::<()>(&pulses, 40), Err(DHT11Error::ChecksumMismatch));
}

#[test]
fn decoding_an_encoded_frame_gives_back_its_bytes() {
    let samples: [[u8; 4]; 6] = [[0, 0, 0, 0], [255, 255, 255, 255], [1, 2, 4, 8], [128, 64, 32, 16], [90, 165, 15, 240], [37, 9, 200, 99]];
    for data in samples {
        let sum = data.iter().fold(0u8, |a, b| a.wrapping_add(*b));
        for (one, zero, threshold) in [(70, 26, 40), (41, 40, 40), (u32::MAX, 0, 8000), (8001, 8000, 8000)] {
            let good = encode([data[0], data[1], data[2], data[3], sum], one, zero);
            assert_eq!(
                decode_pulses::<u8>(&good, threshold),
                Ok(Measurement {
                    humidity: value(data[0], data[1]),
                    temperature: value(data[2], data[3]),
                    checksum: sum,
                })
            );
            let bad = encode([data[0], data[1], data[2], data[3], sum.wrapping_add(1)], one, zero);
            assert_eq!(decode_pulses::<u8>(&bad, threshold), Err(DHT11Error::ChecksumMismatch));
        }
    }
}
