//! Wake-word inference support: the parts of the engine that decide and
//! frame, with their contracts.

pub mod helpers;
pub mod ring_buffer;
pub mod manifest;
pub mod engine;
