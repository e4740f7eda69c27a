//! A durable counter broadcast to live subscribers.
//!
//! The library has three parts: a durable value store (a thin, specified
//! layer over an embedded key-value engine), a broadcast hub that fans a
//! published value out to every registered subscriber in order, and an
//! update coordinator that increments the stored counter with a
//! compare-and-swap and publishes each committed value. The counter's
//! persisted form, its canonical decimal text, is the codec module.

pub mod codec;
pub mod coordinator;
pub mod hub;
pub mod laws;
pub mod store;
