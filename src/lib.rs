//! Verified core of a content-delivery edge node: a content-addressed LRU cache of
//! artifacts, the decisions of its streaming fill, a token-bucket rate limiter, request
//! authentication, and the framing of the dispatcher protocol.

pub mod auth;
pub mod client;
pub mod downloader;
pub mod error;
pub mod fetch;
pub mod file;
pub mod hex;
pub mod limiter;
pub mod lru;
pub mod manager;
pub mod request;
pub mod rpc;
pub mod settings;
pub mod speedtest;
pub mod text;
