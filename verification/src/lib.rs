//! A batch URL status fetcher: jobs of URLs are registered under a fresh
//! identifier, fetched by a bounded worker pool, and polled for results.
//! The coordinating engine owns all job state, and polls drain what they
//! report, so each URL's outcome is handed out exactly once.

pub mod api;
pub mod auth;
pub mod dto;
pub mod errors;
pub mod job;
pub mod manager;
pub mod messages;
