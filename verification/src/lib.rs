//! A fixed-size, allocation-free inverse FFT library for power-of-two
//! transform lengths from 2 to 16384.
//!
//! Complex samples are carried as the IEEE-754 single-precision bit patterns
//! of their real and imaginary parts, so every structural step of the
//! transform (sample reordering, butterfly scheduling, normalization) is
//! stated and proved exactly; the scalar arithmetic itself is delegated to
//! `num_complex` behind a small set of trusted wrappers.

pub mod complex;
pub mod fft;
pub mod inverse;
