//! The decisions of a raymarching renderer of quaternion Julia sets and
//! Mandelbulbs, each with a contract that Verus proves.
//!
//! A renderer of implicit surfaces marches rays through a distance field,
//! shades what they hit and assembles the pixels into a frame. Its numbers
//! are doubles and its arithmetic is the floating-point unit's. What it
//! decides is decided here, in integer arithmetic on the bit patterns of
//! those doubles: when a march has hit or missed, when an orbit has escaped,
//! which of several objects is nearest, what becomes of a distance estimate
//! that is negative or no number, which pixels make a scanline, how a colour
//! becomes a pixel, and which strings are numbers that a render can start from.
//!
//! The host computes; after every step it hands the library what it computed,
//! as bit patterns, and does what the library answers.
pub mod args;
pub mod color;
pub mod decimal;
pub mod fractals;
pub mod frame;
pub mod ray;
pub mod raymarcher;
pub mod rounding;
pub mod scalar;
pub mod scene;
pub mod sectioned;
pub mod vec3;
