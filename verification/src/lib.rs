//! Runtime core of a small application engine: a fixed-timestep clock, a
//! screen state machine with deferred commands, and the ordering rules of one
//! composed frame.
pub mod app;
pub mod engine;
pub mod modules;
pub mod primitives;
pub mod screens;
