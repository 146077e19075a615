//! Rules behind the site's own endpoints.
pub mod access;
pub mod auth;
pub mod oauth;
pub mod opml;
pub mod permissions;
