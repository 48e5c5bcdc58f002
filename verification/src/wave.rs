//! Single-tone wave descriptors and their cyclic sample-index sequence.
//!
//! A `Wave` names a periodic function together with a sampling rate, a
//! frequency, a phase and an amplitude weight, each real parameter carried as
//! the bit pattern of an IEEE 754 binary32 value.  Its unbounded sample
//! sequence is driven by a `WaveIterator`, which yields for every step the
//! time index the sample is taken at.  The index wraps after one second's
//! worth of samples, so the time value fed to the periodic function stays
//! bounded however long the sequence runs.

use vstd::arithmetic::div_mod::{
    lemma_add_mod_noop, lemma_mod_add_multiples_vanish, lemma_mod_division_less_than_divisor,
    lemma_small_mod,
};
use vstd::prelude::*;
use vstd::string::StringExecFns;

use crate::quant::{f32_is_nan_or_inf, f32_trunc_abs, f32_trunc_magnitude};

verus! {

/// Binary32 bit pattern of the value one, the default amplitude weight.
pub const FULL_AMPLITUDE_BITS: u32 = 0x3F80_0000;

/// The kind of periodic function a wave is built from.  Each maps an angle in
/// radians to a value in the closed range from minus one to one.
#[derive(Debug, Clone, Copy, PartialEq, Eq, Structural)]
pub enum WaveFunc {
    /// The sine of the angle.
    Sine,
    /// The cosine of the angle.
    Cosine,
    /// The sign of the sine of the angle, one or minus one, following the
    /// sign bit of the sine value at exact zero crossings.
    Square,
    /// A linear ramp from minus one to one repeating every turn, with a
    /// discontinuous drop at the wrap point.
    Sawtooth,
    /// A continuous piecewise-linear triangle shape.
    Triangle,
}

impl WaveFunc {
    /// The display name of this function kind.
    pub open spec fn spec_label(self) -> Seq<char> {
        match self {
            WaveFunc::Sine => "Sine"@,
            WaveFunc::Cosine => "Cosine"@,
            WaveFunc::Square => "Square"@,
            WaveFunc::Sawtooth => "Sawtooth"@,
            WaveFunc::Triangle => "Triangle"@,
        }
    }

    /// The display name of this function kind.
    pub fn label(&self) -> (r: &'static str)
        ensures
            r@ == self.spec_label(),
    {
        match self {
            WaveFunc::Sine => "Sine",
            WaveFunc::Cosine => "Cosine",
            WaveFunc::Square => "Square",
            WaveFunc::Sawtooth => "Sawtooth",
            WaveFunc::Triangle => "Triangle",
        }
    }
}

/// A single sinusoidal or otherwise periodic wave.
///
/// Every real parameter is held as the bit pattern of a binary32 value.  The
/// sample at time index `i` is the amplitude weight times the periodic
/// function taken at `2π · (i / sample_rate) · frequency + phase`; evaluating
/// that real formula is the caller's part, this crate supplies the index
/// sequence and the descriptor.
#[derive(Debug, Clone, Copy, PartialEq, Eq, Structural)]
pub struct Wave {
    /// Bit pattern of the sampling rate in samples per second.
    pub sample_rate: u32,
    /// Bit pattern of the frequency in cycles per second.
    pub frequency: u32,
    /// Bit pattern of the phase in radians.
    pub phase: u32,
    /// Bit pattern of the amplitude weight, conventionally within zero to one.
    pub amplitude: u32,
    /// The periodic function expressing the wave.
    pub wavefunc: WaveFunc,
}

impl Default for Wave {
    /// A wave at rest: zero rate, frequency and phase, full amplitude, sine.
    fn default() -> (r: Self)
        ensures
            r == (Wave {
                sample_rate: 0,
                frequency: 0,
                phase: 0,
                amplitude: FULL_AMPLITUDE_BITS,
                wavefunc: WaveFunc::Sine,
            }),
    {
        Wave {
            sample_rate: 0,
            frequency: 0,
            phase: 0,
            amplitude: FULL_AMPLITUDE_BITS,
            wavefunc: WaveFunc::Sine,
        }
    }
}

/// How many steps a time index runs through before wrapping at the given
/// sampling rate: the rate truncated to a whole number of samples, held at
/// one for degenerate rates (below one, infinite or NaN) and at the greatest
/// index for rates beyond it, so that a bound always exists.
pub open spec fn cycle_of_rate(rate_bits: u32) -> nat {
    if f32_is_nan_or_inf(rate_bits) {
        1
    } else if f32_trunc_abs(rate_bits) == 0 {
        1
    } else if f32_trunc_abs(rate_bits) >= 0xFFFF_FFFF {
        0xFFFF_FFFF
    } else {
        f32_trunc_abs(rate_bits)
    }
}

/// How many steps a wave's time index runs through before wrapping: one
/// second's worth of samples at its sampling rate.
pub open spec fn cycle_of(w: Wave) -> nat {
    cycle_of_rate(w.sample_rate)
}

/// The time index used at a step of a cyclic index sequence with the given
/// wrap bound: index zero is visited once, then the indices one through the
/// bound repeat forever.
pub open spec fn index_at(step: nat, cycle: nat) -> nat {
    if step == 0 {
        0
    } else {
        ((step - 1) % (cycle as int) + 1) as nat
    }
}

/// The time index a wave's sample sequence uses at the given step.
pub open spec fn wave_index_at(w: Wave, step: nat) -> nat {
    index_at(step, cycle_of(w))
}

/// Every sample sequence starts at time index zero, the point of origin: a
/// sine wave with zero phase starts at zero there, a cosine wave at one.
pub proof fn lemma_first_index_is_zero(w: Wave)
    ensures
        wave_index_at(w, 0) == 0,
{
}

/// One full cycle of samples repeats exactly: from step one on, the time
/// index — and with it the sample, a fixed function of the wave's parameters
/// and the index — is the same one cycle later.
pub proof fn lemma_wave_periodic(w: Wave, i: nat)
    requires
        1 <= i,
    ensures
        wave_index_at(w, i + cycle_of(w)) == wave_index_at(w, i),
{
    let c = cycle_of(w) as int;
    lemma_mod_add_multiples_vanish(i - 1, c);
}

/// The unbounded index sequence of one wave: a fresh cursor per traversal,
/// holding only the wrap bound and the next index to emit.
#[derive(Clone, Copy)]
pub struct WaveIterator {
    wave: Wave,
    pos: u32,
    cycle: u32,
    step: Ghost<nat>,
}

impl WaveIterator {
    /// The wave this cursor traverses.
    pub closed spec fn spec_wave(self) -> Wave {
        self.wave
    }

    /// The time index the next step will use.
    pub closed spec fn spec_pos(self) -> u32 {
        self.pos
    }

    /// The wrap bound of the index sequence.
    pub closed spec fn spec_cycle(self) -> u32 {
        self.cycle
    }

    /// How many steps have been taken.
    pub closed spec fn spec_step(self) -> nat {
        self.step@
    }

    /// The cursor's wrap bound matches its wave and its position sits on the
    /// cyclic index sequence at the current step.
    pub open spec fn wf(self) -> bool {
        &&& self.spec_cycle() == cycle_of(self.spec_wave())
        &&& self.spec_pos() == wave_index_at(self.spec_wave(), self.spec_step())
    }

    /// The wave this cursor traverses.
    pub fn wave(&self) -> (r: Wave)
        ensures
            r == self.spec_wave(),
    {
        self.wave
    }

    /// The time index the next step will use.
    pub fn pos(&self) -> (r: u32)
        ensures
            r == self.spec_pos(),
    {
        self.pos
    }

    /// Emit the current time index and advance one step, wrapping the index
    /// after one full cycle.
    pub fn next(&mut self) -> (r: u32)
        requires
            old(self).wf(),
        ensures
            final(self).wf(),
            final(self).spec_wave() == old(self).spec_wave(),
            final(self).spec_cycle() == old(self).spec_cycle(),
            final(self).spec_step() == old(self).spec_step() + 1,
            r == wave_index_at(old(self).spec_wave(), old(self).spec_step()),
    {
        let idx = self.pos;
        assert(self.cycle >= 1);
        self.pos = (self.pos % self.cycle) + 1;
        proof {
            let c = self.cycle as int;
            let n = old(self).step@ as int;
            lemma_mod_division_less_than_divisor(idx as int, c);
            if n == 0 {
                lemma_small_mod(0, c as nat);
            } else {
                // ((n − 1) % c + 1) % c == n % c, so the new position is
                // n % c + 1, the index of step n + 1.
                lemma_add_mod_noop(n - 1, 1, c);
                lemma_mod_division_less_than_divisor(n - 1, c);
                if c > 1 {
                    lemma_small_mod(1, c as nat);
                } else {
                    lemma_small_mod(0, 1);
                }
            }
            self.step = Ghost(self.step@ + 1);
        }
        idx
    }
}

impl Wave {
    /// A fresh cursor over this wave's unbounded index sequence, starting at
    /// time index zero.  Independent cursors over one wave cycle identically
    /// and never touch each other.
    pub fn iter(&self) -> (r: WaveIterator)
        ensures
            r.wf(),
            r.spec_wave() == *self,
            r.spec_step() == 0,
            r.spec_pos() == 0,
    {
        let cycle: u32 = match f32_trunc_magnitude(self.sample_rate) {
            None => {
                let exp: u32 = (self.sample_rate / 0x0080_0000) % 0x100;
                if exp == 0xFF {
                    1
                } else {
                    0xFFFF_FFFF
                }
            },
            Some(m) => {
                if m == 0 {
                    1
                } else {
                    m as u32
                }
            },
        };
        WaveIterator { wave: *self, pos: 0, cycle, step: Ghost(0) }
    }

    /// The display form of this wave, assembled around the given renderings
    /// of its frequency, amplitude and sampling rate.
    pub fn describe(&self, frequency: &str, amplitude: &str, sample_rate: &str) -> (r: String)
        ensures
            r@ == "<Func: "@ + self.wavefunc.spec_label() + ", Freq: "@ + frequency@ + "Hz, Ampl: "@
                + amplitude@ + ", Sampling Freq: "@ + sample_rate@ + "Hz>"@,
    {
        let mut s = String::from_str("<Func: ");
        s.append(self.wavefunc.label());
        s.append(", Freq: ");
        s.append(frequency);
        s.append("Hz, Ampl: ");
        s.append(amplitude);
        s.append(", Sampling Freq: ");
        s.append(sample_rate);
        s.append("Hz>");
        proof {
            assert(s@ =~= "<Func: "@ + self.wavefunc.spec_label() + ", Freq: "@ + frequency@
                + "Hz, Ampl: "@ + amplitude@ + ", Sampling Freq: "@ + sample_rate@ + "Hz>"@);
        }
        s
    }
}

} // verus!
