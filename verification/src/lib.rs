//! A verified core for a page-fetching service that works through rotating
//! upstream proxies and a periodically refreshed session-cookie set.
//!
//! The library holds the request-execution pipeline: proxy selection,
//! cookie-state management with single-flight refresh, and the bounded
//! retry/backoff state machine driven by HTTP status codes. Network I/O is
//! performed by collaborators behind the [`transport::Transport`]
//! interface; everything the pipeline decides is verified here.

pub mod config;
pub mod cookies;
pub mod cookies_handler;
pub mod proxy_handler;
pub mod request_handler;
pub mod transport;
pub mod utils;
