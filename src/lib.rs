//! Real-time audio core of a microtonal sequencer: oscillators with band-limited
//! step correction, a voice mixer, score queries and the playback transport.
pub mod osc;
pub mod synth;
pub mod score;
pub mod engine;
pub mod time_input;
pub mod message;
