//! The process that runs the persona, as the web process sees it.
pub mod web_control;
