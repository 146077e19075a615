//! Federated publishing: addresses, audiences, objects and their delivery.
pub mod audience;
pub mod delivery;
pub mod library;
pub mod media;
pub mod object;
pub mod publish;
pub mod unpublish;
pub mod urls;
