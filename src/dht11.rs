//! Driver for the DHT11 single-wire temperature and humidity sensor.
//!
//! The sensor answers a start signal with a 40-bit frame. Each bit is a low
//! pulse followed by a high pulse; the bit is one when the high pulse lasts
//! longer than the low one. The frame holds, in order, the integer and
//! fractional humidity bytes, the integer and fractional temperature bytes
//! (the top bit of the integer byte is a sign flag) and a checksum byte.
use vstd::prelude::*;

verus! {

/// How long to wait for a level on the data line, in polls of about one
/// microsecond each.
pub const TIMEOUT_US: u16 = 1000;

/// Number of data bits in one frame.
pub const FRAME_BITS: usize = 40;

/// Errors of a reading.
#[derive(Debug, PartialEq, Eq)]
pub enum Error<E> {
    /// The expected level did not show up within the polling budget.
    Timeout,
    /// The frame's checksum byte does not match its data bytes.
    CrcMismatch,
    /// The data line reported an error.
    Gpio(E),
}

/// Result of a reading.
#[derive(Clone, Copy, Debug, Default, PartialEq, Eq)]
pub struct Measurement {
    /// Temperature in tenths of a degree Celsius.
    pub temperature: i16,
    /// Relative humidity in tenths of a percent.
    pub humidity: u16,
}

/// Value of a bit string read most significant bit first.
pub open spec fn bits_value(bits: Seq<bool>) -> nat
    decreases bits.len(),
{
    if bits.len() == 0 {
        0
    } else {
        2 * bits_value(bits.drop_last()) + if bits.last() { 1nat } else { 0nat }
    }
}

/// Byte `j` of a frame: bits `8 * j` up to `8 * j + 8`, most significant first.
pub open spec fn byte_of(bits: Seq<bool>, j: int) -> nat {
    bits_value(bits.subrange(8 * j, 8 * j + 8))
}

/// The five bytes packed from forty bits.
pub open spec fn frame_of(bits: Seq<bool>) -> Seq<u8> {
    Seq::new(5, |j: int| byte_of(bits, j) as u8)
}

/// The bit that a low pulse and the following high pulse encode.
pub open spec fn bit_of(low: u32, high: u32) -> bool {
    high > low
}

/// The bits that a sequence of (low, high) pulse durations encodes.
pub open spec fn bits_of(pulses: Seq<(u32, u32)>) -> Seq<bool> {
    pulses.map_values(|p: (u32, u32)| bit_of(p.0, p.1))
}

/// `n` samples of one level.
pub open spec fn run(level: bool, n: nat) -> Seq<bool> {
    Seq::new(n, |k: int| level)
}

/// The samples that one pulse pair takes to read: `low` polls of the low
/// level, the rise, `high` polls of the high level, and the fall.
pub open spec fn pulse_levels(low: u32, high: u32) -> Seq<bool> {
    run(false, low as nat).push(true) + run(true, high as nat).push(false)
}

/// The samples that a sequence of pulse pairs takes to read, in order.
pub open spec fn pulse_train(pulses: Seq<(u32, u32)>) -> Seq<bool>
    decreases pulses.len(),
{
    if pulses.len() == 0 {
        Seq::empty()
    } else {
        pulse_train(pulses.drop_last()) + pulse_levels(pulses.last().0, pulses.last().1)
    }
}

/// Sum of the four data bytes, modulo 256.
pub open spec fn checksum_of(f: Seq<u8>) -> int {
    (f[0] + f[1] + f[2] + f[3]) % 256
}

/// Whether the checksum byte of a frame matches its data bytes.
pub open spec fn frame_valid(f: Seq<u8>) -> bool {
    f[4] as int == checksum_of(f)
}

/// Temperature of a frame, in tenths of a degree: the low seven bits of the
/// third byte are the integer part, the fourth byte the tenths, and the top
/// bit of the third byte makes the value negative.
pub open spec fn temperature_of(f: Seq<u8>) -> int {
    let magnitude = (f[2] % 128) * 10 + f[3];
    if f[2] >= 128 {
        -magnitude
    } else {
        magnitude
    }
}

/// Humidity of a frame, in tenths of a percent.
pub open spec fn humidity_of(f: Seq<u8>) -> int {
    f[0] * 10 + f[1]
}

/// The measurement that a frame encodes.
pub open spec fn measurement_of(f: Seq<u8>) -> Measurement {
    Measurement { temperature: temperature_of(f) as i16, humidity: humidity_of(f) as u16 }
}

/// Outcome of decoding a frame with the checksum enforced.
pub open spec fn checked_outcome<E>(f: Seq<u8>) -> Result<Measurement, Error<E>> {
    if frame_valid(f) {
        Ok(measurement_of(f))
    } else {
        Err(Error::CrcMismatch)
    }
}

/// Decides one bit from the duration of its low pulse and of its high pulse.
pub fn decode_bit(low: u32, high: u32) -> (r: bool)
    ensures
        r == bit_of(low, high),
{
    high > low
}

proof fn lemma_bits_value_bound(bits: Seq<bool>)
    ensures
        bits_value(bits) < pow2(bits.len()),
    decreases bits.len(),
{
    if bits.len() > 0 {
        lemma_bits_value_bound(bits.drop_last());
        reveal(pow2);
    }
}

spec fn pow2(n: nat) -> nat
    decreases n,
{
    if n == 0 {
        1
    } else {
        2 * pow2((n - 1) as nat)
    }
}

/// Bytes of a frame while bit `i` is the next to arrive: the bytes before
/// the current one are complete, the current one holds the bits seen of it,
/// and the rest are still zero.
spec fn partial_frame(bits: Seq<bool>, i: int) -> Seq<u8> {
    Seq::new(
        5,
        |j: int|
            if j < i / 8 {
                byte_of(bits, j) as u8
            } else if j == i / 8 {
                bits_value(bits.subrange(8 * j, i)) as u8
            } else {
                0u8
            },
    )
}

proof fn lemma_partial_step(bits: Seq<bool>, i: int)
    requires
        0 <= i < 40,
        bits.len() >= i + 1,
    ensures
        partial_frame(bits, i)[i / 8] < 128,
        partial_frame(bits, i + 1) == partial_frame(bits, i).update(
            i / 8,
            (2 * partial_frame(bits, i)[i / 8] + if bits[i] { 1int } else { 0int }) as u8,
        ),
{
    let j = i / 8;
    let s = bits.subrange(8 * j, i);
    let t = bits.subrange(8 * j, i + 1);
    assert(t.drop_last() =~= s);
    lemma_bits_value_bound(s);
    lemma_bits_value_bound(t);
    assert(pow2(7) == 128) by {
        reveal_with_fuel(pow2, 8);
    }
    assert(pow2(8) == 256) by {
        reveal_with_fuel(pow2, 9);
    }
    assert(s.len() <= 7);
    lemma_pow2_mono(s.len(), 7);
    lemma_pow2_mono(t.len(), 8);
    assert(partial_frame(bits, i)[j] == bits_value(s) as u8);
    let a = partial_frame(bits, i + 1);
    let b = partial_frame(bits, i).update(
        j,
        (2 * partial_frame(bits, i)[j] + if bits[i] { 1int } else { 0int }) as u8,
    );
    assert forall|k: int| 0 <= k < 5 implies a[k] == b[k] by {
        if k == j {
            if (i + 1) / 8 == j {
                assert(a[k] == bits_value(t) as u8);
            } else {
                assert(8 * j + 8 == i + 1);
                assert(a[k] == byte_of(bits, k) as u8);
            }
        }
    }
    assert(a =~= b);
}

proof fn lemma_pow2_mono(a: nat, b: nat)
    requires
        a <= b,
    ensures
        pow2(a) <= pow2(b),
    decreases b,
{
    if a < b {
        lemma_pow2_mono(a, (b - 1) as nat);
        reveal(pow2);
    }
}

proof fn lemma_bits_of_push(pulses: Seq<(u32, u32)>, p: (u32, u32))
    ensures
        bits_of(pulses.push(p)) == bits_of(pulses).push(bit_of(p.0, p.1)),
{
    assert(bits_of(pulses.push(p)) =~= bits_of(pulses).push(bit_of(p.0, p.1)));
}

proof fn lemma_partial_frame_extend(bits: Seq<bool>, b: bool, i: int)
    requires
        0 <= i < 40,
        bits.len() == i,
    ensures
        partial_frame(bits.push(b), i) == partial_frame(bits, i),
{
    let ext = bits.push(b);
    assert forall|j: int| 0 <= j < 5 implies partial_frame(ext, i)[j] == partial_frame(bits, i)[j] by {
        if j < i / 8 {
            assert(ext.subrange(8 * j, 8 * j + 8) =~= bits.subrange(8 * j, 8 * j + 8));
        } else if j == i / 8 {
            assert(ext.subrange(8 * j, i) =~= bits.subrange(8 * j, i));
        }
    }
    assert(partial_frame(ext, i) =~= partial_frame(bits, i));
}

/// Shifts bit `i` of a frame into the byte that it belongs to.
fn push_bit(data: &mut [u8; 5], i: usize, bit: bool, Ghost(bits): Ghost<Seq<bool>>)
    requires
        i < 40,
        bits.len() > i,
        bits[i as int] == bit,
        old(data)@ == partial_frame(bits, i as int),
    ensures
        final(data)@ == partial_frame(bits, i as int + 1),
{
    proof {
        lemma_partial_step(bits, i as int);
    }
    let k: usize = i / 8;
    let old_byte: u8 = data[k];
    let shifted: u8 = old_byte << 1u8;
    assert(shifted == 2 * old_byte) by (bit_vector)
        requires
            old_byte < 128,
            shifted == old_byte << 1u8,
    ;
    if bit {
        let set: u8 = shifted | 1u8;
        assert(set == shifted + 1) by (bit_vector)
            requires
                shifted < 255,
                shifted % 2 == 0,
                set == shifted | 1u8,
        ;
        data[k] = set;
    } else {
        data[k] = shifted;
    }
    assert(data@ =~= partial_frame(bits, i as int + 1));
}

/// Packs the bits that forty (low, high) pulse durations encode into the five
/// bytes of a frame, most significant bit first.
pub fn decode_pulses(pulses: &Vec<(u32, u32)>) -> (r: [u8; 5])
    requires
        pulses@.len() == FRAME_BITS,
    ensures
        r@ == frame_of(bits_of(pulses@)),
{
    let ghost bits = bits_of(pulses@);
    let mut data: [u8; 5] = [0u8; 5];
    assert(data@ =~= partial_frame(bits, 0));
    let mut i: usize = 0;
    while i < FRAME_BITS
        invariant
            i <= FRAME_BITS,
            pulses@.len() == FRAME_BITS,
            bits == bits_of(pulses@),
            data@ == partial_frame(bits, i as int),
        decreases FRAME_BITS - i,
    {
        let (low, high) = pulses[i];
        let bit = decode_bit(low, high);
        push_bit(&mut data, i, bit, Ghost(bits));
        i = i + 1;
    }
    assert(data@ =~= frame_of(bits));
    data
}

/// Sum of the four data bytes of a frame, wrapping at 256.
pub fn checksum(frame: &[u8; 5]) -> (r: u8)
    ensures
        r as int == checksum_of(frame@),
{
    frame[0].wrapping_add(frame[1]).wrapping_add(frame[2]).wrapping_add(frame[3])
}

/// Temperature and humidity of a frame, whatever its checksum byte holds.
pub fn decode_frame(frame: &[u8; 5]) -> (r: Measurement)
    ensures
        r == measurement_of(frame@),
        r.temperature as int == temperature_of(frame@),
        r.humidity as int == humidity_of(frame@),
{
    let b2: u8 = frame[2];
    let low7: u8 = b2 & 0x7fu8;
    assert(low7 == b2 % 128) by (bit_vector)
        requires
            low7 == b2 & 0x7fu8,
    ;
    let sign: u8 = b2 & 0x80u8;
    assert((sign != 0) == (b2 >= 128)) by (bit_vector)
        requires
            sign == b2 & 0x80u8,
    ;
    let mut temperature: i16 = low7 as i16 * 10 + frame[3] as i16;
    if sign != 0 {
        temperature = -temperature;
    }
    let humidity: u16 = frame[0] as u16 * 10 + frame[1] as u16;
    Measurement { temperature, humidity }
}

/// Temperature and humidity of a frame whose checksum byte matches its data
/// bytes; `CrcMismatch` for any other frame.
pub fn decode_frame_checked<E>(frame: &[u8; 5]) -> (r: Result<Measurement, Error<E>>)
    ensures
        r == checked_outcome::<E>(frame@),
{
    if checksum(frame) != frame[4] {
        return Err(Error::CrcMismatch);
    }
    Ok(decode_frame(frame))
}

/// A bidirectional open-drain data line with a pull-up.
pub trait DataLine {
    type Error;

    /// Releases the line, so that the pull-up holds it high.
    fn set_high(&mut self) -> Result<(), Self::Error>;

    /// Drives the line low.
    fn set_low(&mut self) -> Result<(), Self::Error>;

    /// Samples the line.
    fn is_high(&mut self) -> Result<bool, Self::Error>;
}

/// A blocking delay.
pub trait Delay {
    /// Waits for about `us` microseconds.
    fn delay_us(&mut self, us: u32);

    /// Waits for about `ms` milliseconds.
    fn delay_ms(&mut self, ms: u32);
}

/// Most line samples that one reading takes: forty-one pulses (the sensor's
/// answer and forty bits) of two levels each, and the return to idle, each
/// wait taking at most `TIMEOUT_US + 1` samples.
pub open spec fn read_budget() -> int {
    83 * (TIMEOUT_US as int + 1)
}

/// One call that the driver made on its data line or its delay. A failed
/// command is logged as the command followed by `Failed`; a failed sample is
/// logged as `Failed` alone.
pub enum LineCall<E> {
    /// The line was released.
    Release,
    /// The line was driven low.
    DriveLow,
    /// The line was sampled and showed this level.
    Sample(bool),
    /// The line access just made reported this error.
    Failed(E),
    /// A pause of this many microseconds.
    DelayUs(u32),
    /// A pause of this many milliseconds.
    DelayMs(u32),
}

/// The start signal: release for 1 ms, drive low for 25 ms, release and
/// give the sensor 40 us to answer.
pub open spec fn start_signal<E>() -> Seq<LineCall<E>> {
    seq![
        LineCall::Release,
        LineCall::DelayMs(1),
        LineCall::DriveLow,
        LineCall::DelayMs(25),
        LineCall::Release,
        LineCall::DelayUs(40),
    ]
}

/// `n` samples that showed `level`, each followed by a pause of 1 us.
pub open spec fn polls<E>(level: bool, n: nat) -> Seq<LineCall<E>> {
    Seq::new(
        2 * n,
        |k: int|
            if k % 2 == 0 {
                LineCall::Sample(level)
            } else {
                LineCall::DelayUs(1)
            },
    )
}

/// The calls of a wait for `level` that saw the other level `n` times first.
pub open spec fn wait_calls<E>(level: bool, n: nat) -> Seq<LineCall<E>> {
    polls(!level, n).push(LineCall::Sample(level))
}

/// The calls of a wait for `level` that saw the other level `n` times, then
/// got error `e` from the line.
pub open spec fn failed_wait_calls<E>(level: bool, n: nat, e: E) -> Seq<LineCall<E>> {
    polls(!level, n).push(LineCall::Failed(e))
}

/// The calls of a wait for `level` that gave up: `TIMEOUT_US + 1` samples of
/// the other level, with a pause between each two.
pub open spec fn timeout_calls<E>(level: bool) -> Seq<LineCall<E>> {
    polls(!level, TIMEOUT_US as nat).push(LineCall::Sample(!level))
}

/// The calls that reading one pulse pair takes.
pub open spec fn pulse_calls<E>(low: u32, high: u32) -> Seq<LineCall<E>> {
    wait_calls(true, low as nat) + wait_calls(false, high as nat)
}

/// The calls that reading a sequence of pulse pairs takes, in order.
pub open spec fn train_calls<E>(pulses: Seq<(u32, u32)>) -> Seq<LineCall<E>>
    decreases pulses.len(),
{
    if pulses.len() == 0 {
        Seq::empty()
    } else {
        train_calls(pulses.drop_last()) + pulse_calls(pulses.last().0, pulses.last().1)
    }
}


/// Whether every (low, high) duration of `ps` lies within the polling budget.
pub open spec fn within_budget(ps: Seq<(u32, u32)>) -> bool {
    forall|i: int| 0 <= i < ps.len() ==> ps[i].0 <= TIMEOUT_US && ps[i].1 <= TIMEOUT_US
}

/// Whether `t` is `t0` followed by a pulse read that gave up: on the low
/// phase, or on the high phase after `l` low polls.
pub open spec fn pulse_timed_out<E>(t0: Seq<LineCall<E>>, t: Seq<LineCall<E>>) -> bool {
    ||| t == t0 + timeout_calls(true)
    ||| exists|l: nat|
        l <= TIMEOUT_US && t == t0 + #[trigger] wait_calls::<E>(true, l) + timeout_calls(false)
}

/// Whether `t` is `t0` followed by a pulse read whose line access failed
/// with `x`, during the low phase or during the high phase; nothing follows
/// the failure.
pub open spec fn pulse_failed<E>(t0: Seq<LineCall<E>>, t: Seq<LineCall<E>>, x: E) -> bool {
    ||| exists|k: nat| k <= TIMEOUT_US && t == t0 + #[trigger] failed_wait_calls(true, k, x)
    ||| exists|l: nat, k: nat|
        l <= TIMEOUT_US && k <= TIMEOUT_US && t == t0 + #[trigger] wait_calls::<E>(true, l)
            + #[trigger] failed_wait_calls(false, k, x)
}

/// Whether `t` is `t0` followed by the start signal up to a command that
/// failed with `x`; nothing follows the failure.
pub open spec fn start_failed<E>(t0: Seq<LineCall<E>>, t: Seq<LineCall<E>>, x: E) -> bool {
    exists|j: int|
        (j == 1 || j == 3 || j == 5) && t == t0 + #[trigger] start_signal::<E>().take(j).push(
            LineCall::Failed(x),
        )
}

/// Whether `t` is `t0` followed by an exchange that gave up waiting: the
/// start signal, the reads of complete pulses `ps` (the sensor's answer
/// first), then one wait that timed out, either within the next pulse or,
/// after all forty-one pulses, for the line's return to idle.
pub open spec fn exchange_timed_out<E>(t0: Seq<LineCall<E>>, t: Seq<LineCall<E>>) -> bool {
    exists|ps: Seq<(u32, u32)>|
        #[trigger] within_budget(ps) && ps.len() <= 41 && if ps.len() < 41 {
            pulse_timed_out(t0 + start_signal() + train_calls(ps), t)
        } else {
            t == t0 + start_signal() + train_calls(ps) + timeout_calls(true)
        }
}

/// Whether `t` is `t0` followed by an exchange that ended on a line error
/// `x`: a failed command of the start signal, or the start signal, the reads
/// of complete pulses `ps`, then a wait whose line access failed. Nothing
/// follows the failure.
pub open spec fn exchange_failed<E>(t0: Seq<LineCall<E>>, t: Seq<LineCall<E>>, x: E) -> bool {
    ||| start_failed(t0, t, x)
    ||| exists|ps: Seq<(u32, u32)>|
        #[trigger] within_budget(ps) && ps.len() <= 41 && if ps.len() < 41 {
            pulse_failed(t0 + start_signal() + train_calls(ps), t, x)
        } else {
            exists|k: nat|
                k <= TIMEOUT_US && t == t0 + start_signal() + train_calls(ps)
                    + #[trigger] failed_wait_calls(true, k, x)
        }
}

/// Samples of a complete exchange: the sensor's answer, the data pulses,
/// and `idle` low polls before the line went back high.
pub open spec fn exchange_samples(answer: (u32, u32), pulses: Seq<(u32, u32)>, idle: u32) -> Seq<
    bool,
> {
    pulse_train(seq![answer] + pulses) + run(false, idle as nat).push(true)
}

/// Calls of a complete exchange: the start signal, the reads of the
/// sensor's answer and of the data pulses, and the wait for the line to go
/// back high after `idle` low polls.
pub open spec fn exchange_calls<E>(answer: (u32, u32), pulses: Seq<(u32, u32)>, idle: u32) -> Seq<
    LineCall<E>,
> {
    start_signal() + train_calls(seq![answer] + pulses) + wait_calls(true, idle as nat)
}

proof fn lemma_train_push<E>(ps: Seq<(u32, u32)>, p: (u32, u32))
    ensures
        train_calls::<E>(ps.push(p)) == train_calls::<E>(ps) + pulse_calls::<E>(p.0, p.1),
        pulse_train(ps.push(p)) == pulse_train(ps) + pulse_levels(p.0, p.1),
{
    assert(ps.push(p).drop_last() =~= ps);
}

proof fn lemma_train_empty<E>()
    ensures
        train_calls::<E>(Seq::empty()) == Seq::<LineCall<E>>::empty(),
        pulse_train(Seq::empty()) == Seq::<bool>::empty(),
        within_budget(Seq::empty()),
{
}

proof fn lemma_polls_step<E>(level: bool, n: nat)
    ensures
        polls::<E>(level, n).push(LineCall::Sample(level)).push(LineCall::DelayUs(1)) == polls::<E>(
            level,
            n + 1,
        ),
{
    assert(polls::<E>(level, n).push(LineCall::Sample(level)).push(LineCall::DelayUs(1))
        =~= polls::<E>(level, n + 1));
}

proof fn lemma_prefix_trans<T>(a: Seq<T>, b: Seq<T>, c: Seq<T>)
    requires
        a.len() <= b.len() <= c.len(),
        b.subrange(0, a.len() as int) == a,
        c.subrange(0, b.len() as int) == b,
    ensures
        c.subrange(0, a.len() as int) == a,
{
    assert(c.subrange(0, a.len() as int) =~= b.subrange(0, a.len() as int));
}

/// Samples of a complete exchange: the sensor's answer, the data pulses,
/// and `idle` low polls before the line went back high.
pub struct Dht11<GPIO: DataLine> {
    /// The data line.
    gpio: GPIO,
    /// Levels sampled on the line during the latest reading.
    samples: Ghost<Seq<bool>>,
    /// (low, high) durations of the data bits of the latest reading.
    pulses: Ghost<Seq<(u32, u32)>>,
    /// (low, high) durations of the sensor's answer in the latest reading.
    answer: Ghost<(u32, u32)>,
    /// Calls made on the line and the delay during the latest reading.
    trace: Ghost<Seq<LineCall<GPIO::Error>>>,
}

impl<GPIO: DataLine> Dht11<GPIO> {
    /// The data line that the driver owns.
    pub closed spec fn line(&self) -> GPIO {
        self.gpio
    }

    /// Levels sampled on the line during the latest reading, in order.
    pub closed spec fn samples(&self) -> Seq<bool> {
        self.samples@
    }

    /// (low, high) durations, in polls, of the data bits of the latest
    /// reading, in order.
    pub closed spec fn pulses(&self) -> Seq<(u32, u32)> {
        self.pulses@
    }

    /// (low, high) durations, in polls, of the sensor's answer to the start
    /// signal in the latest reading.
    pub closed spec fn answer(&self) -> (u32, u32) {
        self.answer@
    }

    /// Calls made on the line and the delay during the latest reading.
    pub closed spec fn trace(&self) -> Seq<LineCall<GPIO::Error>> {
        self.trace@
    }

    /// Whether the latest reading was one complete exchange, in this order:
    /// the start signal, the sensor's answer, the data pulses, and the line's

    /// Whether the latest reading, begun with `samples0` sampled and `trace0`
    /// logged, was one complete exchange: the start signal, the sensor's
    /// answer, the data pulses, and the line's return to idle, in this order
    /// and each wait within the polling budget.
    pub open spec fn completed(&self, samples0: Seq<bool>, trace0: Seq<LineCall<GPIO::Error>>) -> bool {
        &&& within_budget(seq![self.answer()] + self.pulses())
        &&& exists|idle: u32|
            idle <= TIMEOUT_US && self.samples() == samples0 + #[trigger] exchange_samples(
                self.answer(),
                self.pulses(),
                idle,
            ) && self.trace() == trace0 + exchange_calls::<GPIO::Error>(
                self.answer(),
                self.pulses(),
                idle,
            )
    }

    /// Creates a driver for a sensor on the given data line.
    pub fn new(gpio: GPIO) -> (r: Self)
        ensures
            r.line() == gpio,
            r.samples().len() == 0,
            r.pulses().len() == 0,
            r.trace().len() == 0,
    {
        Dht11 {
            gpio,
            samples: Ghost(Seq::empty()),
            pulses: Ghost(Seq::empty()),
            answer: Ghost((0, 0)),
            trace: Ghost(Seq::empty()),
        }
    }

    /// Gives the data line back.
    pub fn destroy(self) -> (r: GPIO)
        ensures
            r == self.line(),
    {
        self.gpio
    }

    /// Releases the line.
    pub fn set_input(&mut self) -> (r: Result<(), Error<GPIO::Error>>)
        ensures
            final(self).samples() == old(self).samples(),
            final(self).pulses() == old(self).pulses(),
            final(self).answer() == old(self).answer(),
            r is Ok ==> final(self).trace() == old(self).trace().push(LineCall::Release),
            r is Err ==> (r matches Err(Error::Gpio(x)) && final(self).trace() == old(
                self,
            ).trace().push(LineCall::Release).push(LineCall::Failed(x))),
    {
        match self.gpio.set_high() {
            Ok(()) => {
                self.trace = Ghost(self.trace@.push(LineCall::Release));
                Ok(())
            },
            Err(e) => {
                self.trace = Ghost(self.trace@.push(LineCall::Release).push(LineCall::Failed(e)));
                Err(Error::Gpio(e))
            },
        }
    }

    /// Drives the line low.
    pub fn set_low(&mut self) -> (r: Result<(), Error<GPIO::Error>>)
        ensures
            final(self).samples() == old(self).samples(),
            final(self).pulses() == old(self).pulses(),
            final(self).answer() == old(self).answer(),
            r is Ok ==> final(self).trace() == old(self).trace().push(LineCall::DriveLow),
            r is Err ==> (r matches Err(Error::Gpio(x)) && final(self).trace() == old(
                self,
            ).trace().push(LineCall::DriveLow).push(LineCall::Failed(x))),
    {
        match self.gpio.set_low() {
            Ok(()) => {
                self.trace = Ghost(self.trace@.push(LineCall::DriveLow));
                Ok(())
            },
            Err(e) => {
                self.trace = Ghost(self.trace@.push(LineCall::DriveLow).push(LineCall::Failed(e)));
                Err(Error::Gpio(e))
            },
        }
    }

    /// Samples the line, and records the level seen.
    pub fn read_line(&mut self) -> (r: Result<bool, Error<GPIO::Error>>)
        ensures
            final(self).pulses() == old(self).pulses(),
            final(self).answer() == old(self).answer(),
            r matches Ok(b) ==> final(self).samples() == old(self).samples().push(b)
                && final(self).trace() == old(self).trace().push(LineCall::Sample(b)),
            r is Err ==> (r matches Err(Error::Gpio(x)) && final(self).samples() == old(
                self,
            ).samples() && final(self).trace() == old(self).trace().push(LineCall::Failed(x))),
    {
        match self.gpio.is_high() {
            Ok(b) => {
                self.samples = Ghost(self.samples@.push(b));
                self.trace = Ghost(self.trace@.push(LineCall::Sample(b)));
                Ok(b)
            },
            Err(e) => {
                self.trace = Ghost(self.trace@.push(LineCall::Failed(e)));
                Err(Error::Gpio(e))
            },
        }
    }

    /// Pauses for `us` microseconds.
    fn pause_us<D: Delay>(&mut self, delay: &mut D, us: u32)
        ensures
            final(self).samples() == old(self).samples(),
            final(self).pulses() == old(self).pulses(),
            final(self).answer() == old(self).answer(),
            final(self).trace() == old(self).trace().push(LineCall::DelayUs(us)),
    {
        delay.delay_us(us);
        self.trace = Ghost(self.trace@.push(LineCall::DelayUs(us)));
    }

    /// Pauses for `ms` milliseconds.
    fn pause_ms<D: Delay>(&mut self, delay: &mut D, ms: u32)
        ensures
            final(self).samples() == old(self).samples(),
            final(self).pulses() == old(self).pulses(),
            final(self).answer() == old(self).answer(),
            final(self).trace() == old(self).trace().push(LineCall::DelayMs(ms)),
    {
        delay.delay_ms(ms);
        self.trace = Ghost(self.trace@.push(LineCall::DelayMs(ms)));
    }


    /// Polls the line until it shows `level`, one poll about every
    /// microsecond, and returns how many polls saw the other level first.
    /// Fails with `Timeout` once `TIMEOUT_US + 1` polls in a row missed it.
    pub fn wait_for_pulse<D: Delay>(&mut self, level: bool, delay: &mut D) -> (r: Result<
        u32,
        Error<GPIO::Error>,
    >)
        ensures
            final(self).pulses() == old(self).pulses(),
            final(self).answer() == old(self).answer(),
            final(self).samples().len() >= old(self).samples().len(),
            final(self).samples().subrange(0, old(self).samples().len() as int) == old(
                self,
            ).samples(),
            final(self).samples().len() <= old(self).samples().len() + TIMEOUT_US + 1,
            r matches Ok(n) ==> {
                &&& n <= TIMEOUT_US
                &&& final(self).samples() == old(self).samples() + run(!level, n as nat).push(level)
                &&& final(self).trace() == old(self).trace() + wait_calls(level, n as nat)
            },
            r matches Err(e) ==> e is Timeout || e is Gpio,
            r matches Err(Error::Timeout) ==> {
                &&& final(self).samples() == old(self).samples() + run(!level, TIMEOUT_US as nat + 1)
                &&& final(self).trace() == old(self).trace() + timeout_calls(level)
            },
            r matches Err(Error::Gpio(x)) ==> exists|k: nat|
                k <= TIMEOUT_US && final(self).trace() == old(self).trace()
                    + #[trigger] failed_wait_calls(level, k, x),
    {
        let mut count: u16 = 0;
        loop
            invariant
                self.pulses() == old(self).pulses(),
                self.answer() == old(self).answer(),
                count <= TIMEOUT_US,
                self.samples() == old(self).samples() + run(!level, count as nat),
                self.trace() == old(self).trace() + polls(!level, count as nat),
            decreases TIMEOUT_US - count,
        {
            let b = match self.read_line() {
                Ok(b) => b,
                Err(e) => {
                    proof {
                        let x = e->Gpio_0;
                        assert(self.trace() =~= old(self).trace() + failed_wait_calls(
                            level,
                            count as nat,
                            x,
                        ));
                        assert(self.samples().subrange(0, old(self).samples().len() as int) =~= old(
                            self,
                        ).samples());
                    }
                    return Err(e);
                },
            };
            if b == level {
                assert(self.samples() =~= old(self).samples() + run(!level, count as nat).push(level));
                assert(self.trace() =~= old(self).trace() + wait_calls(level, count as nat));
                assert(self.samples().subrange(0, old(self).samples().len() as int) =~= old(
                    self,
                ).samples());
                return Ok(count as u32);
            }
            assert(self.samples() =~= old(self).samples() + run(!level, count as nat + 1));
            count = count + 1;
            if count > TIMEOUT_US {
                assert(self.trace() =~= old(self).trace() + timeout_calls(level));
                assert(self.samples().subrange(0, old(self).samples().len() as int) =~= old(
                    self,
                ).samples());
                return Err(Error::Timeout);
            }
            self.pause_us(delay, 1);
            proof {
                lemma_polls_step::<GPIO::Error>(!level, (count - 1) as nat);
                assert(self.trace() =~= old(self).trace() + polls(!level, count as nat));
            }
        }
    }

    /// Reads one bit: the duration of the low pulse, then of the high pulse,
    /// and whether the high one was longer. Records the two durations.
    pub fn read_bit<D: Delay>(&mut self, delay: &mut D) -> (r: Result<bool, Error<GPIO::Error>>)
        ensures
            final(self).answer() == old(self).answer(),
            final(self).samples().len() >= old(self).samples().len(),
            final(self).samples().subrange(0, old(self).samples().len() as int) == old(
                self,
            ).samples(),
            final(self).samples().len() <= old(self).samples().len() + 2 * (TIMEOUT_US + 1),
            r matches Ok(b) ==> {
                &&& final(self).pulses() == old(self).pulses().push(final(self).pulses().last())
                &&& b == bit_of(final(self).pulses().last().0, final(self).pulses().last().1)
                &&& final(self).pulses().last().0 <= TIMEOUT_US
                &&& final(self).pulses().last().1 <= TIMEOUT_US
                &&& final(self).samples() == old(self).samples() + pulse_levels(
                    final(self).pulses().last().0,
                    final(self).pulses().last().1,
                )
                &&& final(self).trace() == old(self).trace() + pulse_calls(
                    final(self).pulses().last().0,
                    final(self).pulses().last().1,
                )
            },
            r is Err ==> final(self).pulses() == old(self).pulses(),
            r matches Err(e) ==> e is Timeout || e is Gpio,
            r matches Err(Error::Timeout) ==> pulse_timed_out(old(self).trace(), final(self).trace()),
            r matches Err(Error::Gpio(x)) ==> pulse_failed(old(self).trace(), final(self).trace(), x),
    {
        let ghost s0 = self.samples@;
        let ghost t0 = self.trace@;
        let low = match self.wait_for_pulse(true, delay) {
            Ok(n) => n,
            Err(e) => {
                return Err(e);
            },
        };
        let ghost s1 = self.samples@;
        let ghost t1 = self.trace@;
        let high = match self.wait_for_pulse(false, delay) {
            Ok(n) => n,
            Err(e) => {
                proof {
                    lemma_prefix_trans(s0, s1, self.samples@);
                    if e is Timeout {
                        assert(self.trace() == t0 + wait_calls(true, low as nat) + timeout_calls(
                            false,
                        ));
                    } else {
                        let x = e->Gpio_0;
                        let k = choose|k: nat|
                            k <= TIMEOUT_US && self.trace() == t1 + #[trigger] failed_wait_calls(
                                false,
                                k,
                                x,
                            );
                        assert(self.trace() == t0 + wait_calls::<GPIO::Error>(true, low as nat)
                            + failed_wait_calls(false, k, x));
                    }
                }
                return Err(e);
            },
        };
        proof {
            lemma_prefix_trans(s0, s1, self.samples@);
        }
        assert(self.samples() =~= s0 + pulse_levels(low, high));
        assert(self.trace() =~= t0 + pulse_calls(low, high));
        self.pulses = Ghost(self.pulses@.push((low, high)));
        Ok(decode_bit(low, high))
    }

    /// Sends the start signal (line released for 1 ms, driven low for 25 ms,
    /// released again for 40 us), then reads the sensor's answer: a low and a
    /// high pulse of about 80 us each. Succeeds when both arrive in time.
    fn perform_handshake<D: Delay>(&mut self, delay: &mut D) -> (r: Result<(), Error<GPIO::Error>>)
        ensures
            final(self).pulses() == old(self).pulses(),
            final(self).samples().len() >= old(self).samples().len(),
            final(self).samples().subrange(0, old(self).samples().len() as int) == old(
                self,
            ).samples(),
            final(self).samples().len() <= old(self).samples().len() + 2 * (TIMEOUT_US + 1),
            r is Ok ==> {
                &&& final(self).answer().0 <= TIMEOUT_US
                &&& final(self).answer().1 <= TIMEOUT_US
                &&& final(self).samples() == old(self).samples() + pulse_levels(
                    final(self).answer().0,
                    final(self).answer().1,
                )
                &&& final(self).trace() == old(self).trace() + start_signal() + pulse_calls(
                    final(self).answer().0,
                    final(self).answer().1,
                )
            },
            r matches Err(e) ==> e is Timeout || e is Gpio,
            r matches Err(Error::Timeout) ==> pulse_timed_out(
                old(self).trace() + start_signal(),
                final(self).trace(),
            ),
            r matches Err(Error::Gpio(x)) ==> start_failed(old(self).trace(), final(self).trace(), x)
                || pulse_failed(old(self).trace() + start_signal(), final(self).trace(), x),
    {
        let ghost t0 = self.trace@;
        if let Err(e) = self.set_input() {
            assert(self.trace() =~= t0 + start_signal::<GPIO::Error>().take(1).push(
                LineCall::Failed(e->Gpio_0),
            ));
            assert(self.samples().subrange(0, self.samples().len() as int) =~= self.samples());
            return Err(e);
        }
        self.pause_ms(delay, 1);
        if let Err(e) = self.set_low() {
            assert(self.trace() =~= t0 + start_signal::<GPIO::Error>().take(3).push(
                LineCall::Failed(e->Gpio_0),
            ));
            assert(self.samples().subrange(0, self.samples().len() as int) =~= self.samples());
            return Err(e);
        }
        self.pause_ms(delay, 25);
        if let Err(e) = self.set_input() {
            assert(self.trace() =~= t0 + start_signal::<GPIO::Error>().take(5).push(
                LineCall::Failed(e->Gpio_0),
            ));
            assert(self.samples().subrange(0, self.samples().len() as int) =~= self.samples());
            return Err(e);
        }
        self.pause_us(delay, 40);
        assert(self.trace() =~= t0 + start_signal());
        assert(self.samples().subrange(0, self.samples().len() as int) =~= self.samples());
        let ghost p0 = self.pulses@;
        match self.read_bit(delay) {
            Ok(_) => {
                self.answer = Ghost(self.pulses@.last());
                self.pulses = Ghost(p0);
                Ok(())
            },
            Err(e) => Err(e),
        }
    }

    /// Runs one exchange with the sensor and returns the raw frame.
    fn read_frame<D: Delay>(&mut self, delay: &mut D) -> (r: Result<[u8; 5], Error<GPIO::Error>>)
        ensures
            final(self).samples().len() <= old(self).samples().len() + read_budget(),
            final(self).samples().subrange(0, old(self).samples().len() as int) == old(
                self,
            ).samples(),
            r matches Ok(f) ==> {
                &&& final(self).pulses().len() == FRAME_BITS
                &&& f@ == frame_of(bits_of(final(self).pulses()))
                &&& final(self).completed(old(self).samples(), old(self).trace())
            },
            r matches Err(e) ==> e is Timeout || e is Gpio,
            r matches Err(Error::Timeout) ==> exchange_timed_out(
                old(self).trace(),
                final(self).trace(),
            ),
            r matches Err(Error::Gpio(x)) ==> exchange_failed(
                old(self).trace(),
                final(self).trace(),
                x,
            ),
    {
        let ghost s0 = self.samples@;
        let ghost t0 = self.trace@;
        let ghost base = t0 + start_signal::<GPIO::Error>();
        proof {
            lemma_train_empty::<GPIO::Error>();
            assert(base + train_calls::<GPIO::Error>(Seq::empty()) =~= base);
        }
        self.pulses = Ghost(Seq::empty());
        match self.perform_handshake(delay) {
            Ok(()) => {},
            Err(e) => {
                return Err(e);
            },
        }
        let ghost ans = self.answer@;
        proof {
            lemma_train_push::<GPIO::Error>(Seq::empty(), ans);
            assert(Seq::<(u32, u32)>::empty().push(ans) =~= seq![ans] + self.pulses());
            assert(Seq::<LineCall<GPIO::Error>>::empty() + pulse_calls::<GPIO::Error>(ans.0, ans.1)
                =~= pulse_calls::<GPIO::Error>(ans.0, ans.1));
            assert(Seq::<bool>::empty() + pulse_levels(ans.0, ans.1) =~= pulse_levels(ans.0, ans.1));
            assert(within_budget(seq![ans] + self.pulses()));
        }
        let mut data: [u8; 5] = [0u8; 5];
        assert(data@ =~= partial_frame(bits_of(self.pulses@), 0));
        let mut i: usize = 0;
        while i < FRAME_BITS
            invariant
                i <= FRAME_BITS,
                self.pulses().len() == i,
                self.answer() == ans,
                s0 == old(self).samples(),
                t0 == old(self).trace(),
                base == t0 + start_signal::<GPIO::Error>(),
                data@ == partial_frame(bits_of(self.pulses()), i as int),
                within_budget(seq![ans] + self.pulses()),
                self.samples() == s0 + pulse_train(seq![ans] + self.pulses()),
                self.samples().len() <= s0.len() + (2 + 2 * i) * 1001,
                self.trace() == base + train_calls(seq![ans] + self.pulses()),
            decreases FRAME_BITS - i,
        {
            let ghost before = self.pulses@;
            let ghost all = seq![ans] + before;
            let ghost samples_before = self.samples@;
            let bit = match self.read_bit(delay) {
                Ok(b) => b,
                Err(e) => {
                    proof {
                        assert(within_budget(all));
                        assert(self.samples().subrange(0, s0.len() as int) =~= samples_before.subrange(
                            0,
                            s0.len() as int,
                        ));
                        assert(samples_before.subrange(0, s0.len() as int) =~= s0);
                    }
                    return Err(e);
                },
            };
            proof {
                let p = self.pulses@.last();
                let all_next = seq![ans] + self.pulses@;
                assert(all_next =~= all.push(p));
                lemma_train_push::<GPIO::Error>(all, p);
                assert(self.samples() =~= s0 + pulse_train(all_next));
                assert(self.trace() =~= base + train_calls(all_next));
                assert(within_budget(all_next)) by {
                    assert forall|j: int| 0 <= j < all_next.len() implies all_next[j].0
                        <= TIMEOUT_US && all_next[j].1 <= TIMEOUT_US by {
                        if j < all.len() {
                            assert(all_next[j] == all[j]);
                        }
                    }
                }
            }
            let ghost bits = bits_of(self.pulses@);
            proof {
                lemma_bits_of_push(before, self.pulses@.last());
                assert(self.pulses@ == before.push(self.pulses@.last()));
                lemma_partial_frame_extend(bits_of(before), bits[i as int], i as int);
            }
            push_bit(&mut data, i, bit, Ghost(bits));
            i = i + 1;
        }
        let ghost all = seq![ans] + self.pulses@;
        let ghost samples_before = self.samples@;
        let trailer = self.wait_for_pulse(true, delay);
        proof {
            assert(within_budget(all));
            assert(self.samples().subrange(0, s0.len() as int) =~= samples_before.subrange(
                0,
                s0.len() as int,
            ));
            assert(samples_before.subrange(0, s0.len() as int) =~= s0);
        }
        let idle = match trailer {
            Ok(n) => n,
            Err(e) => {
                return Err(e);
            },
        };
        proof {
            assert(self.samples() =~= s0 + exchange_samples(ans, self.pulses(), idle));
            assert(self.trace() =~= t0 + exchange_calls::<GPIO::Error>(ans, self.pulses(), idle));
        }
        assert(data@ =~= frame_of(bits_of(self.pulses@)));
        Ok(data)
    }

    /// Reads the sensor and returns its measurement whatever the frame's
    /// checksum byte holds.
    pub fn read<D: Delay>(&mut self, delay: &mut D) -> (r: Result<Measurement, Error<GPIO::Error>>)
        ensures
            final(self).samples().len() <= old(self).samples().len() + read_budget(),
            final(self).samples().subrange(0, old(self).samples().len() as int) == old(
                self,
            ).samples(),
            r matches Ok(m) ==> {
                &&& final(self).pulses().len() == FRAME_BITS
                &&& m == measurement_of(frame_of(bits_of(final(self).pulses())))
                &&& final(self).completed(old(self).samples(), old(self).trace())
            },
            r matches Err(e) ==> e is Timeout || e is Gpio,
            r matches Err(Error::Timeout) ==> exchange_timed_out(
                old(self).trace(),
                final(self).trace(),
            ),
            r matches Err(Error::Gpio(x)) ==> exchange_failed(
                old(self).trace(),
                final(self).trace(),
                x,
            ),
    {
        let frame = self.read_frame(delay)?;
        Ok(decode_frame(&frame))
    }

    /// Reads the sensor and returns its measurement only when the frame's
    /// checksum byte matches its data bytes.
    pub fn read_with_crc_check<D: Delay>(&mut self, delay: &mut D) -> (r: Result<
        Measurement,
        Error<GPIO::Error>,
    >)
        ensures
            final(self).samples().len() <= old(self).samples().len() + read_budget(),
            final(self).samples().subrange(0, old(self).samples().len() as int) == old(
                self,
            ).samples(),
            (r is Ok || r == Err::<Measurement, Error<GPIO::Error>>(Error::CrcMismatch)) ==> {
                &&& final(self).pulses().len() == FRAME_BITS
                &&& r == checked_outcome::<GPIO::Error>(frame_of(bits_of(final(self).pulses())))
                &&& final(self).completed(old(self).samples(), old(self).trace())
            },
            r matches Err(e) ==> e is Timeout || e is Gpio || e is CrcMismatch,
            r matches Err(Error::Timeout) ==> exchange_timed_out(
                old(self).trace(),
                final(self).trace(),
            ),
            r matches Err(Error::Gpio(x)) ==> exchange_failed(
                old(self).trace(),
                final(self).trace(),
                x,
            ),
    {
        let frame = self.read_frame(delay)?;
        decode_frame_checked(&frame)
    }
}

/// The two decoding policies agree on every frame whose checksum matches;
/// on any other frame the checked one fails with `CrcMismatch` while the
/// unchecked one still gives the frame's values.
pub proof fn lemma_checksum_policies<E>(f: Seq<u8>)
    ensures
        frame_valid(f) ==> checked_outcome::<E>(f) == Ok::<Measurement, Error<E>>(
            measurement_of(f),
        ),
        !frame_valid(f) ==> checked_outcome::<E>(f) == Err::<Measurement, Error<E>>(
            Error::CrcMismatch,
        ),
{
}

} // verus!
