//! Rules for data that is already stored.
pub mod item_merge;
pub mod source_merge;
