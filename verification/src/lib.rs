//! Last-resort fault handling for a robot runtime.
//!
//! When a program reaches a state from which it cannot go on, its fault is
//! turned into diagnostics before the process ends: a message on the debug
//! console, an error box on the display, a backtrace in the simulator. This
//! crate holds what is decided on that way, and does none of it: it reads no
//! device and writes to none.
//!
//! - [`message`] composes the diagnostic message of a fault.
//! - [`wrap`] cuts a message into the lines of a display of fixed width;
//!   [`wrap_laws`] holds what is true of every message so cut.
//! - [`render`] lays out the error box and hands out its draw calls in order.
//! - [`sequencer`] hands out, step by step, what is to be done after a fault,
//!   down to the end of the process; [`sequencer_laws`] holds what is true
//!   of every such sequence.

pub mod message;
pub mod render;
pub mod sequencer;
pub mod sequencer_laws;
pub mod wrap;
pub mod wrap_laws;
