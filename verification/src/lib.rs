//! Key-matrix scanning and debouncing for one half of a split keyboard.
//!
//! The library turns raw contact levels sampled from a grid of drive and
//! sense lines into debounced press and release events, and decides when the
//! scanner may stop polling and block on the hardware instead.
mod clock;
pub mod debounce;
pub mod geometry;
pub mod grid;
pub mod idle;
pub mod key_state;
pub mod matrix;
pub mod debounce_proofs;
pub mod matrix_proofs;
