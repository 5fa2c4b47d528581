//! Deterministic per-frame simulation cores for two tiny pixel games that
//! draw into a fixed 256x256 RGBA frame buffer.

pub mod color;
pub mod buffer;
pub mod ball;
pub mod flappy;
