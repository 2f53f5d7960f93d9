//! A multi-channel publish/subscribe broadcaster for server-sent event streams.
//!
//! Publishers post a payload to a named channel; every subscriber attached to that
//! channel finds the payload, framed as one event, at the end of its own bounded queue.
//! The crate holds the engine only: the framing of events, the queue of one subscriber,
//! the fan-out and eviction of one channel, and the directory of channels. Serving
//! connections, timers and locking belong to the program around it.

pub mod message;
pub mod codec;
pub mod signal;
pub mod subscriber;
pub mod broadcaster;
pub mod registry;
