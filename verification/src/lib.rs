//! Infrared remote-control bridge library.
//!
//! The bridge receives remote-control commands as streamed text over a
//! wireless link and replays them as infrared pulses through an external
//! transmit tool.  This crate holds the verified core: framing of streamed
//! tagged commands, construction of the transmit invocation's argument
//! list, and parsing of the hardware-enumeration tool's diagnostic output
//! into per-device capability sections.
#![verifier::loop_isolation(false)]

pub mod command;
pub mod gate;
pub mod invocation;
pub mod probe;
pub mod text;
