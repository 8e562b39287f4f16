//! A peer-to-peer overlay that keeps one logical clipboard in step across
//! cooperating nodes: vector clocks order the copy events, and a small wire
//! protocol carries them between peers.

pub mod clipboard;
pub mod clock;
pub mod clock_laws;
pub mod endpoint_text;
mod entropy;
pub mod framing;
pub mod host;
pub mod network;
pub mod overlay;
