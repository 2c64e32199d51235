//! Turning the 40 measured high-pulse widths of a frame into a measurement.
//!
//! The sensor sends 40 bits, most significant bit first: humidity whole part,
//! humidity tenths, temperature whole part, temperature tenths, checksum.
//! A bit is a one when its high pulse is longer than the threshold of the
//! timing in use. The checksum byte is the sum of the four data bytes,
//! wrapped to eight bits.

use vstd::prelude::*;

use crate::error::DHT11Error;
use crate::measurement::{Measurement, SensorValue};

verus! {

/// The bit (0 or 1) that a high pulse of this width stands for.
pub open spec fn pulse_bit(width: u32, threshold: u32) -> nat {
    if width > threshold {
        1
    } else {
        0
    }
}

/// `2` to the power `n`.
pub open spec fn two_to(n: nat) -> nat
    decreases n,
{
    if n == 0 {
        1
    } else {
        2 * two_to((n - 1) as nat)
    }
}

/// The number written by the `n` bits of `pulses[start..start + n]`,
/// most significant bit first.
pub open spec fn bits_value(pulses: Seq<u32>, start: int, n: nat, threshold: u32) -> nat
    decreases n,
{
    if n == 0 {
        0
    } else {
        2 * bits_value(pulses, start, (n - 1) as nat, threshold) + pulse_bit(
            pulses[start + n - 1],
            threshold,
        )
    }
}

/// The five bytes that a frame of 40 pulse widths carries.
pub open spec fn frame_bytes(pulses: Seq<u32>, threshold: u32) -> Seq<u8> {
    Seq::new(5, |k: int| bits_value(pulses, 8 * k, 8, threshold) as u8)
}

/// The checksum the sensor is expected to send for these data bytes.
pub open spec fn checksum_of(bytes: Seq<u8>) -> u8 {
    ((bytes[0] + bytes[1] + bytes[2] + bytes[3]) % 256) as u8
}

/// The measurement that five frame bytes describe.
pub open spec fn measurement_of(bytes: Seq<u8>) -> Measurement {
    Measurement {
        humidity: SensorValue { integral: bytes[0], decimal: bytes[1] },
        temperature: SensorValue { integral: bytes[2], decimal: bytes[3] },
        checksum: bytes[4],
    }
}

/// What decoding a frame of pulse widths yields: the measurement when the
/// checksum byte matches the data bytes, else a checksum mismatch.
pub open spec fn decoded<E>(pulses: Seq<u32>, threshold: u32) -> Result<Measurement, DHT11Error<E>> {
    let bytes = frame_bytes(pulses, threshold);
    if checksum_of(bytes) == bytes[4] {
        Ok(measurement_of(bytes))
    } else {
        Err(DHT11Error::ChecksumMismatch)
    }
}

proof fn lemma_two_to_small(j: nat)
    requires
        j < 8,
    ensures
        two_to(j) <= 128,
        two_to(j + 1) == 2 * two_to(j),
{
    reveal_with_fuel(two_to, 9);
}

/// The five bytes carried by a frame of 40 high-pulse widths.
pub fn frame_bytes_of(pulses: &[u32; 40], threshold: u32) -> (r: Vec<u8>)
    ensures
        r@ == frame_bytes(pulses@, threshold),
{
    let mut data: Vec<u8> = Vec::new();
    let mut k: usize = 0;
    while k < 5
        invariant
            k <= 5,
            pulses@.len() == 40,
            data@.len() == k,
            forall|i: int| 0 <= i < k ==> data@[i] == frame_bytes(pulses@, threshold)[i],
        decreases 5 - k,
    {
        let mut byte: u8 = 0;
        let mut j: usize = 0;
        while j < 8
            invariant
                k < 5,
                j <= 8,
                pulses@.len() == 40,
                byte as nat == bits_value(pulses@, 8 * k, j as nat, threshold),
                (byte as nat) < two_to(j as nat),
            decreases 8 - j,
        {
            proof {
                lemma_two_to_small(j as nat);
            }
            let bit: u8 = if pulses[8 * k + j] > threshold {
                1
            } else {
                0
            };
            byte = byte * 2 + bit;
            j = j + 1;
        }
        data.push(byte);
        k = k + 1;
    }
    assert(data@ =~= frame_bytes(pulses@, threshold));
    data
}

/// Decodes a frame of 40 high-pulse widths, checking its checksum.
pub fn decode_pulses<E>(pulses: &[u32; 40], threshold: u32) -> (r: Result<Measurement, DHT11Error<E>>)
    ensures
        r == decoded::<E>(pulses@, threshold),
        ({
            let b = frame_bytes(pulses@, threshold);
            &&& r is Ok <==> b[4] as int == (b[0] + b[1] + b[2] + b[3]) % 256
            &&& r is Err ==> r == Err::<Measurement, DHT11Error<E>>(DHT11Error::ChecksumMismatch)
        }),
{
    let data = frame_bytes_of(pulses, threshold);
    let sum = data[0].wrapping_add(data[1]).wrapping_add(data[2]).wrapping_add(data[3]);
    proof {
        let b = frame_bytes(pulses@, threshold);
        assert(data@ =~= b);
        assert(sum == checksum_of(b));
    }
    if sum != data[4] {
        Err(DHT11Error::ChecksumMismatch)
    } else {
        Ok(
            Measurement {
                humidity: SensorValue { integral: data[0], decimal: data[1] },
                temperature: SensorValue { integral: data[2], decimal: data[3] },
                checksum: sum,
            },
        )
    }
}

/// Bit `j` (0 = most significant) of a byte.
pub open spec fn msb_bit(b: u8, j: int) -> bool {
    (b >> ((7 - j) as u8)) & 1u8 == 1u8
}

/// The pulse widths with which a sensor sends these five bytes, using width
/// `one` for a one bit and `zero` for a zero bit.
pub open spec fn encoded_pulses(bytes: Seq<u8>, one: u32, zero: u32) -> Seq<u32> {
    Seq::new(40, |i: int| if msb_bit(bytes[i / 8], i % 8) { one } else { zero })
}

proof fn lemma_shift_step(b: u8, s: u8)
    by (bit_vector)
    requires
        s < 8,
    ensures
        (b >> s) == 2 * (b >> ((s + 1) as u8)) + ((b >> s) & 1u8),
        ((b >> s) & 1u8) == 1u8 || ((b >> s) & 1u8) == 0u8,
{
}

proof fn lemma_shift_all(b: u8)
    by (bit_vector)
    ensures
        b >> 8u8 == 0u8,
        b >> 0u8 == b,
{
}

proof fn lemma_bits_of_encoded(bytes: Seq<u8>, one: u32, zero: u32, t: u32, k: int, n: nat)
    requires
        bytes.len() == 5,
        0 <= k < 5,
        n <= 8,
        zero <= t < one,
    ensures
        bits_value(encoded_pulses(bytes, one, zero), 8 * k, n, t) == (bytes[k] >> ((8 - n) as u8)) as nat,
    decreases n,
{
    let b = bytes[k];
    if n == 0 {
        lemma_shift_all(b);
    } else {
        lemma_bits_of_encoded(bytes, one, zero, t, k, (n - 1) as nat);
        let i = 8 * k + n - 1;
        assert(i / 8 == k && i % 8 == n - 1);
        lemma_shift_step(b, (8 - n) as u8);
        assert(((8 - n) as u8 + 1) as u8 == (8 - (n - 1) as nat) as u8);
        assert((7 - (n - 1)) as u8 == (8 - n) as u8);
    }
}

/// Decoding gives back what was sent: for any five bytes, and any pulse
/// widths that lie above the threshold for a one and not above it for a
/// zero, decoding the encoded frame yields exactly those bytes; the frame is
/// accepted, with the measurement those bytes describe, exactly when its last
/// byte is the wrapped sum of the four others.
pub proof fn lemma_decode_encoded<E>(bytes: Seq<u8>, one: u32, zero: u32, threshold: u32)
    requires
        bytes.len() == 5,
        zero <= threshold < one,
    ensures
        frame_bytes(encoded_pulses(bytes, one, zero), threshold) == bytes,
        decoded::<E>(encoded_pulses(bytes, one, zero), threshold) == (if checksum_of(bytes)
            == bytes[4] {
            Ok::<Measurement, DHT11Error<E>>(measurement_of(bytes))
        } else {
            Err(DHT11Error::ChecksumMismatch)
        }),
{
    let p = encoded_pulses(bytes, one, zero);
    assert forall|k: int| 0 <= k < 5 implies frame_bytes(p, threshold)[k] == bytes[k] by {
        lemma_bits_of_encoded(bytes, one, zero, threshold, k, 8);
        lemma_shift_all(bytes[k]);
    }
    assert(frame_bytes(p, threshold) =~= bytes);
}

/// Each bit is decided by its own pulse alone, most significant bit first:
/// byte `k` of a frame is the sum, over its eight pulses `8k + j`, of
/// `2^(7 - j)` for each pulse longer than the threshold.
pub proof fn lemma_frame_bytes_by_pulse(pulses: Seq<u32>, threshold: u32, k: int)
    requires
        pulses.len() == 40,
        0 <= k < 5,
    ensures
        frame_bytes(pulses, threshold)[k] as int == 128 * (if pulses[8 * k] > threshold {
            1int
        } else {
            0int
        }) + 64 * (if pulses[8 * k + 1] > threshold {
            1int
        } else {
            0int
        }) + 32 * (if pulses[8 * k + 2] > threshold {
            1int
        } else {
            0int
        }) + 16 * (if pulses[8 * k + 3] > threshold {
            1int
        } else {
            0int
        }) + 8 * (if pulses[8 * k + 4] > threshold {
            1int
        } else {
            0int
        }) + 4 * (if pulses[8 * k + 5] > threshold {
            1int
        } else {
            0int
        }) + 2 * (if pulses[8 * k + 6] > threshold {
            1int
        } else {
            0int
        }) + (if pulses[8 * k + 7] > threshold {
            1int
        } else {
            0int
        }),
{
    reveal_with_fuel(bits_value, 9);
}

/// What decoding a frame yields, in terms of its five bytes: it is accepted
/// exactly when the fifth byte equals the sum of the four data bytes wrapped
/// to eight bits, and then gives humidity (bytes 0 and 1), temperature
/// (bytes 2 and 3) and the checksum (byte 4); otherwise it reports a
/// checksum mismatch.
pub proof fn lemma_decoded_checks_the_sum<E>(pulses: Seq<u32>, threshold: u32)
    requires
        pulses.len() == 40,
    ensures
        ({
            let b = frame_bytes(pulses, threshold);
            &&& (decoded::<E>(pulses, threshold) is Ok <==> b[4] as int == (b[0] + b[1] + b[2] + b[3])
                % 256)
            &&& (b[4] as int == (b[0] + b[1] + b[2] + b[3]) % 256 ==> decoded::<E>(pulses, threshold)
                == Ok::<Measurement, DHT11Error<E>>(
                Measurement {
                    humidity: SensorValue { integral: b[0], decimal: b[1] },
                    temperature: SensorValue { integral: b[2], decimal: b[3] },
                    checksum: b[4],
                },
            ))
            &&& (b[4] as int != (b[0] + b[1] + b[2] + b[3]) % 256 ==> decoded::<E>(pulses, threshold)
                == Err::<Measurement, DHT11Error<E>>(DHT11Error::ChecksumMismatch))
        }),
{
}

} // verus!
