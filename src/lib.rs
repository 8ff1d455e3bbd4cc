//! Sliding-window admission control: decides, per request category and client,
//! whether a request stays within the configured per-minute quota.
pub mod config;
pub mod rate_limiter;
pub mod storage_handler;
pub mod time;
pub mod window;
