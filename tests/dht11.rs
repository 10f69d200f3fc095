use weather_station::dht11::{
    checksum, decode_bit, decode_frame, decode_frame_checked, decode_pulses, DataLine, Delay,
    Dht11, Error, Measurement, TIMEOUT_US,
};

use std::cell::RefCell;
use std::rc::Rc;

/// A call seen by the scripted line or the recording delay.
#[derive(Debug, Clone, Copy, PartialEq)]
enum Seen {
    High,
    Low,
    Poll,
    Us(u32),
    Ms(u32),
}

type Log = Rc<RefCell<Vec<Seen>>>;

/// A line that plays back a fixed list of levels, then stays at the last one.
struct ScriptedLine {
    levels: Vec<bool>,
    pos: usize,
    polls: usize,
    fail_reads: bool,
    fail_low: bool,
    fail_at_poll: usize,
    driven_low: usize,
    log: Log,
}

impl ScriptedLine {
    fn new(levels: Vec<bool>) -> Self {
        ScriptedLine {
            levels,
            pos: 0,
            polls: 0,
            fail_reads: false,
            fail_low: false,
            fail_at_poll: usize::MAX,
            driven_low: 0,
            log: Rc::new(RefCell::new(Vec::new())),
        }
    }
}

impl DataLine for ScriptedLine {
    type Error = u8;

    fn set_high(&mut self) -> Result<(), u8> {
        self.log.borrow_mut().push(Seen::High);
        Ok(())
    }

    fn set_low(&mut self) -> Result<(), u8> {
        self.log.borrow_mut().push(Seen::Low);
        self.driven_low += 1;
        if self.fail_low {
            return Err(3);
        }
        Ok(())
    }

    fn is_high(&mut self) -> Result<bool, u8> {
        self.log.borrow_mut().push(Seen::Poll);
        if self.fail_reads || self.polls == self.fail_at_poll {
            return Err(7);
        }
        self.polls += 1;
        let level = self.levels[self.pos.min(self.levels.len() - 1)];
        self.pos += 1;
        Ok(level)
    }
}

struct NoDelay;

impl Delay for NoDelay {
    fn delay_us(&mut self, _us: u32) {}
    fn delay_ms(&mut self, _ms: u32) {}
}

/// A delay that writes each pause into a shared log.
struct RecordingDelay(Log);

impl Delay for RecordingDelay {
    fn delay_us(&mut self, us: u32) {
        self.0.borrow_mut().push(Seen::Us(us));
    }
    fn delay_ms(&mut self, ms: u32) {
        self.0.borrow_mut().push(Seen::Ms(ms));
    }
}

/// Samples for one pulse pair as the driver counts it: `low` polls low, the
/// rise, `high` polls high, and the fall.
fn push_pulse(levels: &mut Vec<bool>, low: usize, high: usize) {
    levels.extend(std::iter::repeat(false).take(low));
    levels.push(true);
    levels.extend(std::iter::repeat(true).take(high));
    levels.push(false);
}

/// Samples for a whole exchange carrying the given five bytes.
fn frame_levels(bytes: [u8; 5]) -> Vec<bool> {
    let mut levels = Vec::new();
    push_pulse(&mut levels, 80, 80);
    for byte in bytes.iter() {
        for k in (0..8).rev() {
            if (byte >> k) & 1 == 1 {
                push_pulse(&mut levels, 50, 70);
            } else {
                push_pulse(&mut levels, 50, 26);
            }
        }
    }
    levels.extend(std::iter::repeat(false).take(50));
    levels.push(true);
    levels
}

#[test]
fn decode_bit_high_longer_is_one() {
    assert!(decode_bit(50, 70));
    assert!(decode_bit(0, 1));
}

#[test]
fn decode_bit_high_not_longer_is_zero() {
    assert!(!decode_bit(50, 26));
    assert!(!decode_bit(50, 50));
    assert!(!decode_bit(0, 0));
}

#[test]
fn decode_pulses_packs_msb_first() {
    let bytes: [u8; 5] = [0x37, 0x02, 0x15, 0x03, 0x51];
    let mut pulses = Vec::new();
    for byte in bytes.iter() {
        for k in (0..8).rev() {
            if (byte >> k) & 1 == 1 {
                pulses.push((10u32, 30u32));
            } else {
                pulses.push((30u32, 10u32));
            }
        }
    }
    assert_eq!(decode_pulses(&pulses), bytes);
}

#[test]
fn decode_pulses_equal_durations_are_zero() {
    let pulses = vec![(20u32, 20u32); 40];
    assert_eq!(decode_pulses(&pulses), [0u8; 5]);
}

#[test]
fn checksum_wraps() {
    assert_eq!(checksum(&[55, 2, 21, 3, 0]), 81);
    assert_eq!(checksum(&[200, 100, 0, 0, 0]), 44);
}

#[test]
fn decode_frame_values() {
    let m = decode_frame(&[55, 2, 21, 3, 81]);
    assert_eq!(m, Measurement { temperature: 213, humidity: 552 });
}

#[test]
fn decode_frame_negative_temperature() {
    let m = decode_frame(&[40, 0, 0x80 | 5, 4, 0]);
    assert_eq!(m.temperature, -54);
    assert_eq!(m.humidity, 400);
}

#[test]
fn decode_frame_checked_rejects_bad_checksum() {
    let r: Result<Measurement, Error<u8>> = decode_frame_checked(&[55, 2, 21, 3, 80]);
    assert_eq!(r, Err(Error::CrcMismatch));
    let ok: Result<Measurement, Error<u8>> = decode_frame_checked(&[55, 2, 21, 3, 81]);
    assert_eq!(ok, Ok(Measurement { temperature: 213, humidity: 552 }));
}

#[test]
fn read_valid_frame_both_policies() {
    let bytes: [u8; 5] = [55, 2, 21, 3, 81];
    let mut dht = Dht11::new(ScriptedLine::new(frame_levels(bytes)));
    let lenient = dht.read(&mut NoDelay);
    assert_eq!(lenient, Ok(Measurement { temperature: 213, humidity: 552 }));
    let line = dht.destroy();
    assert_eq!(line.driven_low, 1);

    let mut dht = Dht11::new(ScriptedLine::new(frame_levels(bytes)));
    let strict = dht.read_with_crc_check(&mut NoDelay);
    assert_eq!(strict, Ok(Measurement { temperature: 213, humidity: 552 }));
}

#[test]
fn checksum_mismatch_strict_fails_lenient_returns_values() {
    let bytes: [u8; 5] = [55, 2, 21, 3, 99];
    let mut dht = Dht11::new(ScriptedLine::new(frame_levels(bytes)));
    assert_eq!(dht.read_with_crc_check(&mut NoDelay), Err(Error::CrcMismatch));

    let mut dht = Dht11::new(ScriptedLine::new(frame_levels(bytes)));
    assert_eq!(
        dht.read(&mut NoDelay),
        Ok(Measurement { temperature: 213, humidity: 552 })
    );
}

#[test]
fn line_stuck_high_times_out() {
    let mut dht = Dht11::new(ScriptedLine::new(vec![true]));
    assert_eq!(dht.read(&mut NoDelay), Err(Error::Timeout));
    let line = dht.destroy();
    assert_eq!(line.polls, 1 + TIMEOUT_US as usize + 1);
}

#[test]
fn line_stuck_low_times_out() {
    let mut dht = Dht11::new(ScriptedLine::new(vec![false]));
    assert_eq!(dht.read_with_crc_check(&mut NoDelay), Err(Error::Timeout));
    let line = dht.destroy();
    assert_eq!(line.polls, TIMEOUT_US as usize + 1);
}

#[test]
fn sensor_stopping_mid_frame_times_out() {
    let mut levels = frame_levels([55, 2, 21, 3, 81]);
    levels.truncate(levels.len() / 2);
    levels.push(true);
    let mut dht = Dht11::new(ScriptedLine::new(levels));
    assert_eq!(dht.read(&mut NoDelay), Err(Error::Timeout));
    assert!(dht.destroy().polls <= 83 * (TIMEOUT_US as usize + 1));
}

#[test]
fn line_error_is_reported() {
    let mut line = ScriptedLine::new(vec![true]);
    line.fail_reads = true;
    let mut dht = Dht11::new(line);
    assert_eq!(dht.read(&mut NoDelay), Err(Error::Gpio(7)));
}

#[test]
fn wait_for_pulse_counts_polls() {
    let mut dht = Dht11::new(ScriptedLine::new(vec![false, false, false, true]));
    assert_eq!(dht.wait_for_pulse(true, &mut NoDelay), Ok(3));
    assert_eq!(dht.read_line(), Ok(true));
}

#[test]
fn read_bit_compares_phases() {
    let mut levels = Vec::new();
    push_pulse(&mut levels, 5, 9);
    push_pulse(&mut levels, 9, 5);
    let mut dht = Dht11::new(ScriptedLine::new(levels));
    assert_eq!(dht.read_bit(&mut NoDelay), Ok(true));
    assert_eq!(dht.read_bit(&mut NoDelay), Ok(false));
}

#[test]
fn set_input_and_set_low_reach_the_line() {
    let mut dht = Dht11::new(ScriptedLine::new(vec![true]));
    assert_eq!(dht.set_low(), Ok(()));
    assert_eq!(dht.set_input(), Ok(()));
    assert_eq!(dht.destroy().driven_low, 1);
}

#[test]
fn read_sends_start_signal_then_only_polls() {
    let line = ScriptedLine::new(frame_levels([55, 2, 21, 3, 81]));
    let log = line.log.clone();
    let mut delay = RecordingDelay(log.clone());
    let mut dht = Dht11::new(line);
    assert!(dht.read(&mut delay).is_ok());
    let seen = log.borrow();
    assert_eq!(
        seen[..6].to_vec(),
        vec![Seen::High, Seen::Ms(1), Seen::Low, Seen::Ms(25), Seen::High, Seen::Us(40)]
    );
    assert!(seen[6..].iter().all(|c| *c == Seen::Poll || *c == Seen::Us(1)));
}

#[test]
fn failed_command_ends_the_read() {
    let mut line = ScriptedLine::new(vec![true]);
    line.fail_low = true;
    let log = line.log.clone();
    let mut delay = RecordingDelay(log.clone());
    let mut dht = Dht11::new(line);
    assert_eq!(dht.read(&mut delay), Err(Error::Gpio(3)));
    assert_eq!(log.borrow().clone(), vec![Seen::High, Seen::Ms(1), Seen::Low]);
}

#[test]
fn successful_wait_pauses_once_per_missed_poll() {
    let line = ScriptedLine::new(vec![true, true, true, true, false]);
    let log = line.log.clone();
    let mut delay = RecordingDelay(log.clone());
    let mut dht = Dht11::new(line);
    assert_eq!(dht.wait_for_pulse(false, &mut delay), Ok(4));
    let seen = log.borrow();
    assert_eq!(seen.iter().filter(|c| **c == Seen::Poll).count(), 5);
    assert_eq!(seen.iter().filter(|c| **c == Seen::Us(1)).count(), 4);
}

#[test]
fn trailer_that_stays_low_times_out() {
    let mut levels = frame_levels([55, 2, 21, 3, 81]);
    levels.pop();
    levels.push(false);
    let mut dht = Dht11::new(ScriptedLine::new(levels));
    assert_eq!(dht.read(&mut NoDelay), Err(Error::Timeout));
}

#[test]
fn read_negative_temperature_frame() {
    let mut dht = Dht11::new(ScriptedLine::new(frame_levels([40, 0, 0x85, 7, 180])));
    assert_eq!(dht.read(&mut NoDelay), Ok(Measurement { temperature: -57, humidity: 400 }));
}

#[test]
fn read_frame_with_wrapping_checksum() {
    let mut dht = Dht11::new(ScriptedLine::new(frame_levels([200, 0, 100, 0, 44])));
    assert_eq!(
        dht.read_with_crc_check(&mut NoDelay),
        Ok(Measurement { temperature: 1000, humidity: 2000 })
    );
}

#[test]
fn line_error_mid_frame_ends_the_read() {
    let mut line = ScriptedLine::new(frame_levels([55, 2, 21, 3, 81]));
    line.fail_at_poll = 500;
    let log = line.log.clone();
    let mut delay = RecordingDelay(log.clone());
    let mut dht = Dht11::new(line);
    assert_eq!(dht.read_with_crc_check(&mut delay), Err(Error::Gpio(7)));
    let seen = log.borrow();
    assert_eq!(seen.last(), Some(&Seen::Poll));
    assert_eq!(seen.iter().filter(|c| **c == Seen::Poll).count(), 501);
    assert_eq!(seen.iter().filter(|c| **c == Seen::High || **c == Seen::Low).count(), 3);
}

#[test]
fn second_read_on_same_driver() {
    let mut levels = frame_levels([55, 2, 21, 3, 81]);
    levels.extend(frame_levels([40, 0, 0x85, 7, 180]));
    let mut dht = Dht11::new(ScriptedLine::new(levels));
    assert_eq!(dht.read(&mut NoDelay), Ok(Measurement { temperature: 213, humidity: 552 }));
    assert_eq!(dht.read(&mut NoDelay), Ok(Measurement { temperature: -57, humidity: 400 }));
}
