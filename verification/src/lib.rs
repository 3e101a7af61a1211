//! Verified plumbing for turning a one-dimensional time series into a
//! frequency spectrum.
//!
//! The numeric work itself (reading a number from text, the discrete Fourier
//! transform, the norm of a complex value) belongs to the caller. This crate
//! holds everything around it, generic in the number type `T`:
//!
//! * [`text`]: splitting text into lines, trimming them and numbering the
//!   ones that hold something;
//! * [`samples`]: gathering the values read from those lines, in line order,
//!   together with the numbers of the lines that held no value;
//! * [`spectrum`]: the complex buffer handed to the transform and the flat
//!   re/im layout in which a spectrum crosses an interface;
//! * [`report`]: what a summary of a run previews, and the names of the
//!   files that take the results.

pub mod report;
pub mod samples;
pub mod spectrum;
pub mod text;
