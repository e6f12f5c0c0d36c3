//! A streaming FIR (finite impulse response) filter over a fixed-size
//! sliding window, for environments without a heap. The filter is built
//! from a caller-supplied coefficient sequence, consumes one sample per
//! call, and produces the convolution of the coefficients with the most
//! recent samples. The window is a fixed-capacity circular buffer from
//! `heapless`; everything around it — construction-time validation, the
//! window update, and the convolution — is verified against the model in
//! [`model`].

pub mod filter;
pub mod laws;
pub mod model;
mod ring;

pub use filter::DigitalFilter;
pub use filter::FilterError;
