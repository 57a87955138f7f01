//! A polyphonic synthesizer voice engine with verified arithmetic.
//!
//! Given note events, a snapshot of normalised parameters and a sample
//! rate, the engine renders audio sample by sample: per voice two
//! oscillators shaped by an envelope and fed through a resonant filter, all
//! voices modulated by one pitch LFO and summed.
//!
//! Every real-valued quantity (sample, phase, frequency, time, gain) is a
//! signed 64-bit number with 32 fractional bits. All arithmetic saturates
//! instead of overflowing, so rendering cannot panic, and the same inputs
//! give the same samples on every machine.
//!
//! - [`fixed`]: the fixed-point operations.
//! - [`math`]: exponential, sine and tangent on fixed-point values.
//! - [`adsr`]: the envelope generator.
//! - [`filter`]: the state-variable filter.
//! - [`oscillator`]: the oscillator of a voice and the pitch LFO.
//! - [`params`]: the parameter snapshot and its mappings.
//! - [`synth`]: the voice allocator and the render loop.

pub mod fixed;
pub mod math;
pub mod adsr;
pub mod filter;
pub mod oscillator;
pub mod params;
pub mod synth;
