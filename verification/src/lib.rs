//! A library for the Cooley-Tukey fast Fourier transform over complex
//! numbers: a forward transform, an inverse transform, and a circular
//! convolution built from them.
//!
//! The complex floating-point arithmetic is performed by the `num` crate
//! behind a small trusted layer; everything built on top of it — the
//! power-of-two utilities, left-padding, the even/odd split, the butterfly
//! recombination and the recursion itself — is verified against
//! specification functions that pin down every entry of every result.

pub mod complex;
pub mod pointwise;
pub mod pow2;
pub mod transform;

pub use pointwise::approximate_complex;
pub use pointwise::convolve;
pub use pointwise::multiply_pointwise;
pub use transform::fft;
pub use transform::ifft;
pub use transform::zero_pad_left;

pub use pow2::is_int_power_of_two;
pub use pow2::next_power_of_two;
