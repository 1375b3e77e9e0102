//! Audio-frequency-to-pulse-train signal core.
//!
//! The crate covers the signal path of a fixed-point audio firmware: a
//! radix-2 fixed-point FFT over complex sample buffers, window and
//! equalizer stages, spectral peak detection with frequency refinement,
//! and a wraparound-safe pulse scheduler that turns detected peaks into
//! periodic timed firing events.  All arithmetic is integer or
//! fixed-point; every function carries a contract that pins its result
//! down, and the scheduler's holdoff and consume rules are proved as
//! lemmas.

pub mod adc;
pub mod analysis;
pub mod complex;
pub mod control;
pub mod coordinator;
pub mod equalizer;
pub mod fft;
pub mod indicator;
pub mod math;
pub mod pulse;
pub mod time;
pub mod window;
