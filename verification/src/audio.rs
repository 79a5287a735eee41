//! Synthetic audio production: a deterministic sawtooth waveform driven by
//! a wrapping counter, and the one-shot volume-control packet.
//!
//! One frame holds 16-bit samples, each written twice (left and right
//! channel) in little-endian order, four bytes per sample.  The counter
//! runs from zero up to a period of `round(sampling_rate / frequency)`
//! steps and wraps; the sample level ramps linearly from the most negative
//! 16-bit value up across the period.

use vstd::prelude::*;

verus! {

/// The waveform period in counter steps: `sampling_rate / frequency`,
/// rounded to the nearest integer (half away from zero).
pub open spec fn spec_counter_period(sampling_rate: u32, frequency: u32) -> int
    recommends
        frequency >= 1,
{
    (2 * sampling_rate + frequency) / (2 * frequency)
}

/// The unshifted ramp level at a counter position:
/// `65535 * counter / period`, rounded to the nearest integer.
pub open spec fn spec_sample_level(counter: u32, period: u32) -> int
    recommends
        1 <= period,
        counter < period,
{
    (2 * 65535 * counter + period) / (2 * period)
}

/// The emitted 16-bit sample: the ramp level shifted down by 32768 and
/// wrapped into an unsigned 16-bit word (two's complement bit pattern).
pub open spec fn spec_sample_value(counter: u32, period: u32) -> u16 {
    let level = spec_sample_level(counter, period);
    if level >= 32768 {
        (level - 32768) as u16
    } else {
        (level + 32768) as u16
    }
}

/// The counter position after `steps` further samples.
pub open spec fn counter_after(counter: u32, period: u32, steps: int) -> int
    recommends
        1 <= period,
{
    (counter + steps) % (period as int)
}

/// Compute the waveform period for a sampling rate and target frequency.
pub fn counter_period(sampling_rate: u32, frequency: u32) -> (r: u32)
    requires
        frequency >= 1,
    ensures
        r == spec_counter_period(sampling_rate, frequency),
{
    let rate: u64 = sampling_rate as u64;
    let freq: u64 = frequency as u64;
    let period: u64 = (2 * rate + freq) / (2 * freq);
    proof {
        assert((2 * rate + freq) as int / (2 * freq) as int <= rate as int) by (nonlinear_arith)
            requires
                rate >= 0,
                freq >= 1,
        ;
    }
    period as u32
}

/// One sample of the ramp.
pub fn sample_value(counter: u32, period: u32) -> (r: u16)
    requires
        1 <= period,
        counter < period,
    ensures
        r == spec_sample_value(counter, period),
{
    let c: u64 = counter as u64;
    let p: u64 = period as u64;
    let level: u64 = (131070 * c + p) / (2 * p);
    proof {
        assert((131070 * c + p) as int / (2 * p) as int <= 65535) by (nonlinear_arith)
            requires
                1 <= p,
                c < p,
        ;
    }
    if level >= 32768 {
        (level - 32768) as u16
    } else {
        (level + 32768) as u16
    }
}

/// Step the counter, wrapping at the period.
pub fn advance_counter(counter: u32, period: u32) -> (r: u32)
    requires
        1 <= period,
        counter < period,
    ensures
        r as int == counter_after(counter, period, 1),
        r < period,
{
    proof {
        if counter + 1 < period {
            vstd::arithmetic::div_mod::lemma_small_mod((counter + 1) as nat, period as nat);
        } else {
            vstd::arithmetic::div_mod::lemma_mod_self_0(period as int);
        }
    }
    if counter + 1 < period {
        counter + 1
    } else {
        0
    }
}

/// Fill a frame with consecutive waveform samples, starting at `counter`,
/// one 16-bit sample per four bytes: the sample in little-endian order for
/// the left channel, then the same two bytes again for the right channel.
/// Returns the counter position to continue from.
pub fn fill_audio_frame(buffer: &mut Vec<u8>, counter: u32, period: u32) -> (new_counter: u32)
    requires
        1 <= period,
        counter < period,
        old(buffer)@.len() % 4 == 0,
    ensures
        final(buffer)@.len() == old(buffer)@.len(),
        forall|i: int|
            0 <= i < old(buffer)@.len() / 4 ==> {
                let s = spec_sample_value(counter_after(counter, period, i) as u32, period);
                &&& #[trigger] final(buffer)@[4 * i] == (s % 256) as u8
                &&& final(buffer)@[4 * i + 1] == (s / 256) as u8
                &&& final(buffer)@[4 * i + 2] == (s % 256) as u8
                &&& final(buffer)@[4 * i + 3] == (s / 256) as u8
            },
        new_counter as int == counter_after(counter, period, old(buffer)@.len() as int / 4),
        new_counter < period,
{
    let total_len: usize = buffer.len();
    let samples: usize = total_len / 4;
    let ghost initial = buffer@;
    let mut cur: u32 = counter;
    let mut i: usize = 0;
    proof {
        vstd::arithmetic::div_mod::lemma_small_mod(counter as nat, period as nat);
        assert(initial.len() / 4 == samples as int);
    }
    while i < samples
        invariant
            1 <= period,
            i <= samples,
            cur < period,
            cur as int == counter_after(counter, period, i as int),
            buffer@.len() == total_len,
            initial.len() == total_len,
            samples == total_len / 4,
            samples as int == initial.len() / 4,
            4 * samples <= total_len,
            forall|j: int|
                0 <= j < i ==> {
                    let s = spec_sample_value(counter_after(counter, period, j) as u32, period);
                    &&& #[trigger] buffer@[4 * j] == (s % 256) as u8
                    &&& buffer@[4 * j + 1] == (s / 256) as u8
                    &&& buffer@[4 * j + 2] == (s % 256) as u8
                    &&& buffer@[4 * j + 3] == (s / 256) as u8
                },
        decreases samples - i,
    {
        let s: u16 = sample_value(cur, period);
        let low: u8 = (s % 256) as u8;
        let high: u8 = (s / 256) as u8;
        buffer.set(4 * i, low);
        buffer.set(4 * i + 1, high);
        buffer.set(4 * i + 2, low);
        buffer.set(4 * i + 3, high);
        proof {
            assert(cur == counter_after(counter, period, i as int) as u32);
            assert(buffer@[4 * i as int] == low);
            assert(buffer@[4 * i as int + 1] == high);
            assert(buffer@[4 * i as int + 2] == low);
            assert(buffer@[4 * i as int + 3] == high);
        }
        let next: u32 = advance_counter(cur, period);
        proof {
            vstd::arithmetic::div_mod::lemma_add_mod_noop(
                counter as int + i as int,
                1,
                period as int,
            );
            if period == 1 {
                assert(counter_after(counter, period, i as int + 1) == 0);
                assert(next as int == 0);
            } else {
                vstd::arithmetic::div_mod::lemma_small_mod(1nat, period as nat);
            }
        }
        cur = next;
        i = i + 1;
    }
    cur
}

/// The nine-byte volume-control packet: a zero type byte, then the four
/// 16-bit volumes (left 0, right 0, left 1, right 1), each little-endian.
pub fn encode_volume_packet(
    volume_left_0: u16,
    volume_right_0: u16,
    volume_left_1: u16,
    volume_right_1: u16,
) -> (r: Vec<u8>)
    ensures
        r@.len() == 9,
        r@[0] == 0u8,
        r@[1] == (volume_left_0 % 256) as u8,
        r@[2] == (volume_left_0 / 256) as u8,
        r@[3] == (volume_right_0 % 256) as u8,
        r@[4] == (volume_right_0 / 256) as u8,
        r@[5] == (volume_left_1 % 256) as u8,
        r@[6] == (volume_left_1 / 256) as u8,
        r@[7] == (volume_right_1 % 256) as u8,
        r@[8] == (volume_right_1 / 256) as u8,
{
    let mut packet: Vec<u8> = Vec::new();
    packet.push(0u8);
    packet.push((volume_left_0 % 256) as u8);
    packet.push((volume_left_0 / 256) as u8);
    packet.push((volume_right_0 % 256) as u8);
    packet.push((volume_right_0 / 256) as u8);
    packet.push((volume_left_1 % 256) as u8);
    packet.push((volume_left_1 / 256) as u8);
    packet.push((volume_right_1 % 256) as u8);
    packet.push((volume_right_1 / 256) as u8);
    packet
}

} // verus!
