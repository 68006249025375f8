//! Smooth radio-astronomy images and spectral cubes to a common resolution by
//! convolution in the UV plane.
//!
//! # Overview
//!
//! - [`Beam`]: a 2D elliptical Gaussian beam (PSF) with its deconvolution
//!   ([`beam`]).
//! - [`common_beam`](fn@common_beam): the smallest beam that a set of beams can be
//!   convolved to ([`common_beam`](mod@common_beam) on top of [`ellipse`],
//!   [`geometry`] and [`order`]).
//! - [`convolve_uv`](fn@convolve_uv): UV-plane convolution of an image between two
//!   beams ([`convolve_uv`](mod@convolve_uv) on top of [`fft`] and [`plane`]).
//! - [`smooth`](fn@smooth): convolution and flux scaling for Jy/beam or Kelvin
//!   images ([`smooth`](mod@smooth)).
//! - [`fits_io`], [`cube_io`], [`beamlog`]: what headers, beam tables and beamlogs
//!   mean, and what output files carry.
//! - [`run`], [`targets`], [`queue`]: the decisions of a smoothing run.
//! - [`laws`]: what these operations are for, proved of their calls.
//!
//! # Floating point
//!
//! Numbers are held as IEEE 754 bit patterns ([`ieee`]): their class, order and
//! bytes are part of what is proved.  Formulas that compute with them come in
//! through kernel traits ([`beam::BeamKernel`] and those built on it,
//! [`fft::FftKernel`]), whose methods promise nothing by themselves.  Contracts say
//! what the library does with whatever a kernel computes; where a contract names
//! that result, it asks that the kernel gives the same result for the same
//! arguments; a caller learns what the name stands for by calling the kernel.
pub mod beam;
pub mod beamlog;
pub mod common_beam;
pub mod convolve_uv;
pub mod cube_io;
pub mod ellipse;
pub mod fft;
pub mod fits_io;
pub mod geometry;
pub mod ieee;
pub mod laws;
pub mod order;
pub mod path;
pub mod plane;
pub mod queue;
pub mod run;
pub mod smooth;
pub mod targets;
pub mod text;

pub use beam::{Beam, BeamError};
pub use beamlog::{read_beamlog, write_beamlog};
pub use common_beam::{common_beam, find_commonbeam_between, CommonBeamError};
pub use convolve_uv::{
    convolve_uv, convolve_uv_with_plans, fftfreq, gaussft, ConvolutionResult, ConvolveError,
};
pub use fft::FftPlans;
pub use fits_io::{output_path, read_fits, FitsError, FitsImageData};
pub use ieee::FftFloat;
pub use smooth::{smooth, smooth_or_blank, smooth_with_plans, BrightnessUnit, SmoothError};
