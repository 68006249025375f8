//! What the operations of the library are for, as laws over their arguments and
//! results.
//!
//! A law takes what a call was given and what it returned, and says how the two
//! belong together, or how the results of two calls do.  It speaks of pixels, beams,
//! characters and what a kernel returned, and of other calls.
pub mod beams;
pub mod common;
pub mod convolution;
pub mod files;
pub mod logs;
pub mod memory;
pub mod orders;
pub mod smoothing;
pub mod target_beams;
pub mod texts;
pub mod transforms;
