//! Driver core for WS28xx-family addressable LED strips.
//!
//! The library turns an in-memory buffer of per-LED colors into the exact
//! sequence of pin and timer operations that pushes those colors out over
//! a single-wire protocol line. Hardware access itself (GPIO writes, the
//! periodic hardware counter) is left to the surrounding program, which
//! plays back the operation sequence this library computes.

pub mod colors;
pub mod leds;
pub mod pins;
