//! Readers for the engine's file formats.
pub mod bytes;
pub mod pak;
pub mod uasset;
pub mod property;
pub mod map;
