//! Great-circle distances on a spherical Earth, computed with the haversine
//! formula in fixed-point integer arithmetic.
//!
//! Latitudes and longitudes enter in microdegrees (millionths of a degree)
//! and distances come back in metres, so every step of the computation is
//! exact integer arithmetic that the verifier reasons about directly.
//! Trigonometric values are carried in billionths (a scale of one thousand
//! million), which keeps every intermediate product inside 64 bits while
//! leaving the final distance within a few hundred metres of the real-valued
//! formula over planetary distances.
//!
//! The central result is [`distance::calculate_distance`], together with
//! proofs that the distance is symmetric in its two points, zero for a point
//! paired with itself, never negative, and never larger than half the
//! circumference of the sphere.

mod lemmas;
pub mod sqrt;
pub mod trig;
pub mod atan;
pub mod distance;
