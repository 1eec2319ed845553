//! The scheduling core of a browser game engine.
//!
//! A browser offers two primitives that are awkward to build on directly: a
//! one-shot "call me before the next repaint" request, and resource loads that
//! report completion through a pair of callbacks. This crate holds the logic
//! that turns the first into a sustained update/draw cycle and the second into
//! a single result a caller can wait for. The logic is written as state
//! machines over plain values, so every transition carries a proved contract;
//! the code that talks to the browser drives these machines and performs the
//! host calls they ask for.
//!
//! * [`error`]: what can go wrong, as values.
//! * [`bridge`]: one pending host operation that either callback may complete,
//!   once.
//! * [`engine`]: the image loader's verdict, the [`engine::Game`] capability,
//!   the self-reference a rescheduling callback needs, and the frame loop.

pub mod bridge;
pub mod engine;
pub mod error;
