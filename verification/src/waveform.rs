//! Superposition of waves at one sampling rate, quantized to an integer type.
//!
//! A `Waveform` holds an ordered collection of `Wave` components, every one
//! carried to the waveform's own sampling rate.  Its unbounded output
//! sequence is driven by a `WaveformIterator`, which advances every
//! component's cyclic index in lock-step.  At each step the caller evaluates
//! the issued sampling requests, sums the component samples, scales the sum
//! by the greatest value of the output type, and hands the scaled bit
//! pattern back; the iterator converts it and stops the sequence on the step
//! where the value no longer fits the output type's range.

use core::marker::PhantomData;
use vstd::prelude::*;

use crate::quant::{lemma_quantize_zero, quantize, quantize_spec, SampleDepth};
use crate::recip::{count_recip_bits, recip_bits_spec, round_f32_nat};
use crate::wave::{
    cycle_of_rate, lemma_wave_periodic, wave_index_at, Wave, WaveIterator,
};

verus! {

/// An ordered collection of waves sharing one sampling rate, whose summed
/// samples quantize to the integer type `BitDepth`.
pub struct Waveform<BitDepth: SampleDepth> {
    sample_rate: u32,
    components: Vec<Wave>,
    _marker: PhantomData<BitDepth>,
}

impl<BitDepth: SampleDepth> Waveform<BitDepth> {
    /// Bit pattern of the sampling rate shared by every component.
    pub closed spec fn spec_sample_rate(self) -> u32 {
        self.sample_rate
    }

    /// The wave components, in insertion order.
    pub closed spec fn spec_components(self) -> Seq<Wave> {
        self.components@
    }

    /// No component carries a foreign rate: every one was overwritten to the
    /// waveform's own sampling rate when it was added.
    pub open spec fn wf(self) -> bool {
        forall|i: int|
            0 <= i < self.spec_components().len() ==> (#[trigger] self.spec_components()[i]).sample_rate
                == self.spec_sample_rate()
    }

    /// An empty waveform at the given sampling rate.
    pub fn new(sample_rate: u32) -> (r: Self)
        ensures
            r.wf(),
            r.spec_sample_rate() == sample_rate,
            r.spec_components() == Seq::<Wave>::empty(),
    {
        Waveform { sample_rate, components: Vec::new(), _marker: PhantomData }
    }

    /// A waveform with a single component: the same as `new` followed by
    /// `superpose`.
    pub fn with_wave(sample_rate: u32, wave: Wave) -> (r: Self)
        ensures
            r.wf(),
            r.spec_sample_rate() == sample_rate,
            r.spec_components() =~= seq![(Wave { sample_rate, ..wave })],
    {
        let mut w = Self::new(sample_rate);
        w.superpose(wave);
        w
    }

    /// Bit pattern of the sampling rate shared by every component.
    pub fn sample_rate(&self) -> (r: u32)
        ensures
            r == self.spec_sample_rate(),
    {
        self.sample_rate
    }

    /// The wave components, in insertion order.
    pub fn components(&self) -> (r: &Vec<Wave>)
        ensures
            r@ == self.spec_components(),
    {
        &self.components
    }

    /// Add a wave component, overwriting its sampling rate with the
    /// waveform's own; components are never removed.
    pub fn superpose(&mut self, wave: Wave)
        ensures
            final(self).spec_sample_rate() == old(self).spec_sample_rate(),
            final(self).spec_components() == old(self).spec_components().push(
                (Wave { sample_rate: old(self).spec_sample_rate(), ..wave }),
            ),
            old(self).wf() ==> final(self).wf(),
    {
        let adjusted = Wave { sample_rate: self.sample_rate, ..wave };
        self.components.push(adjusted);
    }

    /// Normalize the amplitude weights of all components to equal shares:
    /// every component's amplitude becomes the binary32 reciprocal of the
    /// component count, so that the summed sample can no longer overshoot
    /// the quantization range.  `recip::lemma_recip_bits_nearest` states
    /// that this weight is the correctly rounded reciprocal.  A waveform
    /// with no components has no reciprocal to its count and is left out
    /// here.
    pub fn normalize_amplitudes(&mut self)
        requires
            old(self).spec_components().len() >= 1,
        ensures
            final(self).spec_sample_rate() == old(self).spec_sample_rate(),
            final(self).spec_components().len() == old(self).spec_components().len(),
            forall|i: int|
                0 <= i < old(self).spec_components().len() ==> final(self).spec_components()[i]
                    == (Wave {
                    amplitude: recip_bits_spec(
                        round_f32_nat(old(self).spec_components().len()),
                    ),
                    ..old(self).spec_components()[i]
                }),
            old(self).wf() ==> final(self).wf(),
    {
        let amplitude: u32 = count_recip_bits(self.components.len() as u64);
        let n = self.components.len();
        let mut i: usize = 0;
        while i < n
            invariant
                n == self.components.len(),
                i <= n,
                self.sample_rate == old(self).spec_sample_rate(),
                self.components@.len() == old(self).spec_components().len(),
                forall|j: int|
                    0 <= j < i ==> self.components@[j] == (Wave {
                        amplitude,
                        ..old(self).spec_components()[j]
                    }),
                forall|j: int|
                    i <= j < n ==> self.components@[j] == old(self).spec_components()[j],
            decreases n - i,
        {
            let mut c = self.components[i];
            c.amplitude = amplitude;
            self.components.set(i, c);
            i = i + 1;
        }
    }

    /// A fresh cursor over this waveform's output sequence, with one cursor
    /// per component, all at step zero.
    pub fn iter(&self) -> (r: WaveformIterator<BitDepth>)
        ensures
            r.wf(),
            r.spec_waves() == self.spec_components(),
            r.spec_step() == 0,
    {
        let n = self.components.len();
        let mut iters: Vec<WaveIterator> = Vec::new();
        let mut i: usize = 0;
        while i < n
            invariant
                n == self.components.len(),
                i <= n,
                iters@.len() == i,
                forall|j: int|
                    0 <= j < i ==> (#[trigger] iters@[j]).wf() && iters@[j].spec_step() == 0
                        && iters@[j].spec_wave() == self.components@[j],
            decreases n - i,
        {
            iters.push(self.components[i].iter());
            i = i + 1;
        }
        let r = WaveformIterator { iters, step: Ghost(0), _marker: PhantomData };
        proof {
            assert(r.spec_waves() =~= self.spec_components());
        }
        r
    }
}

/// What a waveform's cursor yields at one step: with no components the sum
/// of samples is zero and the zero pattern quantizes; otherwise the scaled
/// sum the caller evaluated quantizes.
pub open spec fn waveform_step_spec<BitDepth: SampleDepth>(waves: Seq<Wave>, scaled_bits: u32) -> Option<
    BitDepth,
> {
    if waves.len() == 0 {
        quantize_spec::<BitDepth>(0)
    } else {
        quantize_spec::<BitDepth>(scaled_bits)
    }
}

/// A waveform with no components yields the zero sample at every step,
/// whatever the caller would have handed back.
pub proof fn lemma_empty_waveform_is_silent<BitDepth: SampleDepth>(waves: Seq<Wave>, scaled_bits: u32)
    requires
        waves.len() == 0,
    ensures
        waveform_step_spec::<BitDepth>(waves, scaled_bits) == Some(BitDepth::spec_zero()),
{
    lemma_quantize_zero::<BitDepth>();
}

/// A waveform holding a single component adds nothing of its own: its step
/// yield is exactly the quantization of the scaled sample handed back, and —
/// by `requests` below — the sampling request it issues at every step is the
/// component's own cyclic index, so the output is the single wave's sequence
/// scaled into the output type's range.
pub proof fn lemma_single_wave_matches<BitDepth: SampleDepth>(waves: Seq<Wave>, scaled_bits: u32)
    requires
        waves.len() == 1,
    ensures
        waveform_step_spec::<BitDepth>(waves, scaled_bits) == quantize_spec::<BitDepth>(scaled_bits),
{
}

/// Components carried to one sampling rate share one wrap bound, so a
/// well-formed waveform's whole family of sampling requests repeats after
/// one cycle of that shared rate, from step one on.
pub proof fn lemma_waveform_periodic(waves: Seq<Wave>, sample_rate: u32, i: nat)
    requires
        1 <= i,
        forall|j: int| 0 <= j < waves.len() ==> (#[trigger] waves[j]).sample_rate == sample_rate,
    ensures
        forall|j: int|
            0 <= j < waves.len() ==> wave_index_at(waves[j], i + cycle_of_rate(sample_rate))
                == wave_index_at(waves[j], i),
{
    assert forall|j: int| 0 <= j < waves.len() implies wave_index_at(
        waves[j],
        i + cycle_of_rate(sample_rate),
    ) == wave_index_at(waves[j], i) by {
        lemma_wave_periodic(waves[j], i);
    }
}

/// The output sequence of one waveform: a fresh cursor per traversal,
/// holding one index cursor per component and advancing them in lock-step.
pub struct WaveformIterator<BitDepth: SampleDepth> {
    iters: Vec<WaveIterator>,
    step: Ghost<nat>,
    _marker: PhantomData<BitDepth>,
}

impl<BitDepth: SampleDepth> WaveformIterator<BitDepth> {
    /// The waves this cursor traverses, in order.
    pub closed spec fn spec_waves(self) -> Seq<Wave> {
        self.iters@.map(|i: int, it: WaveIterator| it.spec_wave())
    }

    /// How many steps have been taken.
    pub closed spec fn spec_step(self) -> nat {
        self.step@
    }

    /// Every component cursor is well formed and sits at the shared step.
    pub open spec fn wf(self) -> bool {
        forall|i: int|
            0 <= i < self.spec_waves().len() ==> (#[trigger] self.iters_view()[i]).wf()
                && self.iters_view()[i].spec_step() == self.spec_step()
    }

    /// The component cursors.
    pub closed spec fn iters_view(self) -> Seq<WaveIterator> {
        self.iters@
    }

    /// The sampling requests of the current step, one per component: the
    /// component's descriptor and the time index its sample is taken at.
    pub fn requests(&self) -> (r: Vec<(Wave, u32)>)
        requires
            self.wf(),
        ensures
            r@.len() == self.spec_waves().len(),
            forall|i: int|
                0 <= i < r@.len() ==> (#[trigger] r@[i]).0 == self.spec_waves()[i] && r@[i].1
                    == wave_index_at(self.spec_waves()[i], self.spec_step()),
    {
        let n = self.iters.len();
        let mut r: Vec<(Wave, u32)> = Vec::new();
        let mut i: usize = 0;
        while i < n
            invariant
                self.wf(),
                n == self.iters_view().len(),
                n == self.spec_waves().len(),
                i <= n,
                r@.len() == i,
                forall|j: int|
                    0 <= j < i ==> (#[trigger] r@[j]).0 == self.spec_waves()[j] && r@[j].1
                        == wave_index_at(self.spec_waves()[j], self.spec_step()),
            decreases n - i,
        {
            let it = &self.iters[i];
            r.push((it.wave(), it.pos()));
            i = i + 1;
        }
        r
    }

    /// Advance every component one step in lock-step and yield the sample of
    /// the step just left: the caller hands in the bit pattern of the summed
    /// component samples scaled by the output type's greatest value, and the
    /// yield is its quantization — or, for a waveform with no components, the
    /// quantized zero pattern, since an empty sum is zero.  A yield of
    /// nothing means the scaled sum left the output type's range: the
    /// sequence self-terminates on that step instead of wrapping or
    /// saturating.
    pub fn step(&mut self, scaled_bits: u32) -> (r: Option<BitDepth>)
        requires
            old(self).wf(),
        ensures
            final(self).wf(),
            final(self).spec_waves() == old(self).spec_waves(),
            final(self).spec_step() == old(self).spec_step() + 1,
            r == waveform_step_spec::<BitDepth>(old(self).spec_waves(), scaled_bits),
            old(self).spec_waves().len() == 0 ==> r == Some(BitDepth::spec_zero()),
            r is None <==> (old(self).spec_waves().len() > 0 && quantize_spec::<BitDepth>(
                scaled_bits,
            ) is None),
    {
        let n = self.iters.len();
        let mut i: usize = 0;
        while i < n
            invariant
                n == self.iters_view().len(),
                i <= n,
                self.spec_step() == old(self).spec_step(),
                forall|j: int|
                    0 <= j < n ==> (#[trigger] self.iters_view()[j]).spec_wave()
                        == old(self).iters_view()[j].spec_wave(),
                forall|j: int| 0 <= j < n ==> (#[trigger] self.iters_view()[j]).wf(),
                forall|j: int|
                    0 <= j < i ==> (#[trigger] self.iters_view()[j]).spec_step() == old(
                        self,
                    ).spec_step() + 1,
                forall|j: int|
                    i <= j < n ==> (#[trigger] self.iters_view()[j]).spec_step() == old(
                        self,
                    ).spec_step(),
            decreases n - i,
        {
            let mut it = self.iters[i];
            let _ = it.next();
            self.iters.set(i, it);
            i = i + 1;
        }
        proof {
            self.step = Ghost(self.step@ + 1);
            assert(final(self).spec_waves() =~= old(self).spec_waves());
        }
        if n == 0 {
            proof {
                lemma_quantize_zero::<BitDepth>();
            }
            quantize::<BitDepth>(0)
        } else {
            quantize::<BitDepth>(scaled_bits)
        }
    }
}

} // verus!
