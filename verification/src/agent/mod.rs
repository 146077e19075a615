//! Rules of the agent: what it may do, how it works a recipe, what it
//! remembers and how it speaks.
pub mod attachments;
pub mod capability;
pub mod delegate;
pub mod executor;
pub mod memory;
pub mod merope;
pub mod notifications;
pub mod pages;
pub mod permissions;
pub mod recipe;
pub mod turn;
