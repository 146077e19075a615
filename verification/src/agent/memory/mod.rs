//! Long-term memory, the same for conversation and work.
pub mod association;
pub mod lexical;
pub mod unified;
pub mod work;
