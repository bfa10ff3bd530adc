//! A cooperative, frame-stepped scheduler for animating values over time.
//!
//! Nothing here runs on its own: a driver calls [`future::AnimationExecutor::frame`]
//! once per rendered frame and hands it the reading of its clock. Every
//! suspension point is a state machine that is polled with that reading, so
//! time passes only when the driver says so.
//!
//! * [`time`]: clock readings and the progress of a running interpolation.
//! * [`suspension`]: the polling protocol and its two primitives, waiting for
//!   the next frame and waiting for a duration.
//! * [`chain`]: the mathematical model of an animation, a value followed by
//!   its tween stages, and the laws that hold of every tick.
//! * [`animation`]: the animation combinators and their adapter to the
//!   polling protocol.
//! * [`future`]: the executor that owns one root suspension point.
pub mod time;
pub mod suspension;
pub mod chain;
pub mod animation;
pub mod future;
