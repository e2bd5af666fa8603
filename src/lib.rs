//! Framing and decoding of typed control and telemetry messages exchanged
//! over a serial link, with a bounded history buffer for the telemetry.

pub mod code;
pub mod message;
pub mod frame;
pub mod ring_buffer;
pub mod control;
