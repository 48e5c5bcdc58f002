//! Discrete-time generation of periodic waveforms.
//!
//! A [`Wave`] describes a single periodic tone — sampling rate, frequency,
//! phase, amplitude weight and shape — and a [`Waveform`] superposes any
//! number of such components at one shared sampling rate, quantized into a
//! fixed-width integer sample type chosen by the caller.
//!
//! Real-valued parameters and samples are carried as the bit patterns of
//! IEEE 754 binary32 values, held in `u32`.  Everything that can be said of
//! those patterns in integer arithmetic is said and proved here: the cyclic
//! time-index sequences that keep the trigonometric argument bounded, the
//! lock-step advance of a waveform's components, the conversion of a scaled
//! sample into the integer range — with the sequence terminating on the
//! step where the value no longer fits — and the correctly rounded
//! reciprocal of a component count used to normalize amplitude weights.
//! Evaluating the periodic shapes themselves is transcendental
//! floating-point work and is left to the caller: the sequence cursors
//! issue sampling requests, the caller evaluates and sums them, and hands
//! the scaled bit pattern back for quantization.

pub mod quant;
pub mod recip;
pub mod wave;
pub mod waveform;

pub use quant::{quantize, quantize_spec, SampleDepth};
pub use recip::count_recip_bits;
pub use wave::{Wave, WaveFunc, WaveIterator};
pub use waveform::{Waveform, WaveformIterator};
