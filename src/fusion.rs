//! Fusion of the latest humidity value with each pressure and temperature
//! sample into one normalized record.
//!
//! Values are held in fixed point: pressure in pascals on input and in
//! tenths of a kilopascal on output, temperature in hundredths of a degree
//! Celsius on input and in tenths on output, humidity in tenths of a percent.
use vstd::prelude::*;
use crate::dht11::{Error, Measurement};
use crate::mailbox::Mailbox;

verus! {

/// Largest valid humidity, in tenths of a percent.
pub const MAX_HUMIDITY: u16 = 1000;

/// A sample of the pressure and temperature sensor.
#[derive(Clone, Copy, Debug, PartialEq, Eq)]
pub struct PressureReading {
    /// Pressure in pascals.
    pub pressure: u32,
    /// Temperature in hundredths of a degree Celsius.
    pub temperature: i32,
}

/// The record handed to consumers, each value rounded to one decimal.
#[derive(Clone, Copy, Debug, PartialEq, Eq)]
pub struct NormalizedMeasurments {
    /// Pressure in tenths of a kilopascal.
    pub pressure: u32,
    /// Relative humidity in tenths of a percent.
    pub humidity: u16,
    /// Temperature in tenths of a degree Celsius.
    pub temperature: i32,
}

/// `x / d` rounded to the nearest integer, halves away from zero.
pub open spec fn round_div(x: int, d: int) -> int
    recommends
        d > 0,
{
    if x >= 0 {
        (2 * x + d) / (2 * d)
    } else {
        -((-2 * x + d) / (2 * d))
    }
}

/// The record built from a sample and the humidity in force.
pub open spec fn normalized(reading: PressureReading, humidity: u16) -> NormalizedMeasurments {
    NormalizedMeasurments {
        pressure: round_div(reading.pressure as int, 100) as u32,
        humidity,
        temperature: round_div(reading.temperature as int, 10) as i32,
    }
}

/// Whether a humidity value lies in the valid range of 0 to 100 percent.
pub open spec fn humidity_valid(h: u16) -> bool {
    h <= MAX_HUMIDITY
}

/// The humidity in force after a cycle that found `incoming` waiting: a
/// valid value is adopted, anything else leaves `current` in force.
pub open spec fn next_humidity(current: u16, incoming: Option<u16>) -> u16 {
    match incoming {
        Some(h) => if humidity_valid(h) {
            h
        } else {
            current
        },
        None => current,
    }
}

/// The record that a cycle publishes, if any.
pub open spec fn published(
    current: u16,
    incoming: Option<u16>,
    reading: Option<PressureReading>,
) -> Option<NormalizedMeasurments> {
    match reading {
        Some(r) => Some(normalized(r, next_humidity(current, incoming))),
        None => None,
    }
}

/// Pressure in tenths of a kilopascal, rounded to the nearest, from pascals.
pub fn to_kpa(pressure: u32) -> (r: u32)
    ensures
        r == round_div(pressure as int, 100),
{
    let whole: u32 = pressure / 100;
    if pressure % 100 >= 50 {
        whole + 1
    } else {
        whole
    }
}

/// Rounds hundredths to tenths, halves away from zero.
pub fn round_up(val: i32) -> (r: i32)
    ensures
        r == round_div(val as int, 10),
{
    if val >= 0 {
        proof {
            lemma_round_div_10(val as int);
        }
        let m: u32 = val as u32;
        let whole: u32 = m / 10;
        if m % 10 >= 5 {
            (whole + 1) as i32
        } else {
            whole as i32
        }
    } else {
        proof {
            lemma_round_div_10(-(val as int));
        }
        let m: u64 = (0i64 - val as i64) as u64;
        let whole: u64 = m / 10;
        let q: u64 = if m % 10 >= 5 {
            whole + 1
        } else {
            whole
        };
        (0i64 - q as i64) as i32
    }
}

proof fn lemma_round_div_10(m: int)
    requires
        m >= 0,
    ensures
        round_div(m, 10) == m / 10 + if m % 10 >= 5 { 1int } else { 0int },
{
    let q = m / 10;
    let r = m % 10;
    assert(m == 10 * q + r);
    assert(2 * m + 10 == 20 * q + 2 * r + 10);
    if r >= 5 {
        assert((20 * q + 2 * r + 10) / 20 == q + 1);
    } else {
        assert((20 * q + 2 * r + 10) / 20 == q);
    }
}

/// Builds the record for a sample and the humidity in force.
pub fn normalize(reading: PressureReading, humidity: u16) -> (r: NormalizedMeasurments)
    ensures
        r == normalized(reading, humidity),
{
    NormalizedMeasurments {
        pressure: to_kpa(reading.pressure),
        humidity,
        temperature: round_up(reading.temperature),
    }
}

/// Hands the humidity of a successful reading to the mailbox; a failed
/// reading sends nothing.
pub fn publish_humidity<E>(reading: Result<Measurement, Error<E>>, tx: &mut Mailbox<u16>)
    ensures
        reading matches Ok(m) ==> final(tx)@ == Some(m.humidity),
        reading is Err ==> final(tx)@ == old(tx)@,
{
    if let Ok(m) = reading {
        tx.send(m.humidity);
    }
}

/// The fusion stage: keeps the humidity in force between samples.
pub struct Normalizer {
    humidity: u16,
}

impl Normalizer {
    /// The humidity in force, in tenths of a percent.
    pub closed spec fn current(&self) -> u16 {
        self.humidity
    }

    /// A stage with no humidity seen yet: zero is in force.
    pub fn new() -> (r: Self)
        ensures
            r.current() == 0,
            humidity_valid(r.current()),
    {
        Normalizer { humidity: 0 }
    }

    /// The humidity in force, in tenths of a percent.
    pub fn humidity(&self) -> (r: u16)
        ensures
            r == self.current(),
    {
        self.humidity
    }

    /// One cycle: takes the humidity waiting in `humidity_rx`, adopts it when
    /// valid, and, when the pressure sensor gave a sample, publishes the
    /// record built from it to `out`. A failed sample publishes nothing.
    pub fn cycle(
        &mut self,
        humidity_rx: &mut Mailbox<u16>,
        reading: Option<PressureReading>,
        out: &mut Mailbox<NormalizedMeasurments>,
    )
        ensures
            final(self).current() == next_humidity(old(self).current(), old(humidity_rx)@),
            humidity_valid(old(self).current()) ==> humidity_valid(final(self).current()),
            final(humidity_rx)@ == None::<u16>,
            published(old(self).current(), old(humidity_rx)@, reading) matches Some(rec)
                ==> final(out)@ == Some(rec),
            reading is None ==> final(out)@ == old(out)@,
    {
        if let Some(h) = humidity_rx.try_receive() {
            if h <= MAX_HUMIDITY {
                self.humidity = h;
            }
        }
        if let Some(r) = reading {
            out.send(normalize(r, self.humidity));
        }
    }
}

/// A humidity value outside the valid range is never adopted: the value in
/// force stays, and the record of the cycle carries it.
pub proof fn lemma_invalid_humidity_kept(current: u16, h: u16, reading: PressureReading)
    requires
        !humidity_valid(h),
    ensures
        next_humidity(current, Some(h)) == current,
        published(current, Some(h), Some(reading)) == Some(normalized(reading, current)),
{
}

/// When no humidity arrives for three cycles in a row, the three records
/// published carry the same humidity, the one in force before them.
pub proof fn lemma_staleness(
    current: u16,
    r1: PressureReading,
    r2: PressureReading,
    r3: PressureReading,
)
    ensures
        ({
            let h1 = next_humidity(current, None);
            let h2 = next_humidity(h1, None);
            &&& published(current, None, Some(r1)) == Some(normalized(r1, current))
            &&& published(h1, None, Some(r2)) == Some(normalized(r2, current))
            &&& published(h2, None, Some(r3)) == Some(normalized(r3, current))
            &&& next_humidity(h2, None) == current
        }),
{
}

/// Rounding to one decimal goes to the nearest value, and a value halfway
/// between two goes away from zero; the rounding is symmetric about zero.
pub proof fn lemma_round_half_away(x: int)
    ensures
        round_div(-x, 10) == -round_div(x, 10),
        x >= 0 ==> 10 * round_div(x, 10) - 5 <= x < 10 * round_div(x, 10) + 5,
        x % 10 == 5 && x >= 0 ==> 10 * round_div(x, 10) == x + 5,
{
}

} // verus!
