//! Edge redirector core for a file-distribution CDN: best-effort download
//! attribution. The library decides whether a request is a new, countable
//! download, maintains the per-window counter value under its attribution
//! key, and constructs the redirect URL and the upstream report; the host
//! runtime performs the store and network calls around it and never lets
//! attribution delay or fail the redirect.

pub mod cdn;
pub mod codec;
pub mod config;
pub mod engine;
pub mod extension;
pub mod ip;
pub mod report;
pub mod teapot;
pub mod text;
