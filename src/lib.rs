//! Real-time streaming playback engine of a portable audio player: a rolling
//! visualizer history, a frame-by-frame track decoder feeding a bounded output
//! sink, and a multiplexer that turns button edges into ordered control events.
//!
//! PCM is carried as signed 16-bit samples, the native width of the output bus.

pub mod fs;
pub mod input;
pub mod player;
pub mod visualizer;
