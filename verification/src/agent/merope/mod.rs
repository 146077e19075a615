//! The persona: how it speaks, what is on its mind, and what it shares with a
//! person.
pub mod bits;
pub mod inner;
pub mod priming;
pub mod self_state;
pub mod speaking;
pub mod wander;
