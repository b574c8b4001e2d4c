//! Supervision of one worker process and the bookkeeping of its results.

pub mod config;
pub mod locator;
pub mod store;
pub mod supervisor;
pub mod text;
pub mod upload;
