//! Verified rules of the Myriad backend.
pub mod agent;
pub mod api;
pub mod db;
pub mod federation;
pub mod http_error;
pub mod ids;
pub mod json;
pub mod persona;
pub mod refusal;
pub mod sort;
pub mod text;
