//! Core logic of a multi-site HTTP server: configuration values, URL rewriting,
//! request routing decisions, rate limiting, sessions and load balancing.

pub mod text;
pub mod paths;
pub mod strmap;
pub mod config;
pub mod clock;
pub mod session;
pub mod rate_limiter;
pub mod rewrite;
pub mod handler;
pub mod proxy;
pub mod load_balancer;
pub mod manage;
pub mod server;
pub mod auth;
pub mod init;
pub mod logger;
pub mod cli;
pub mod cache;
pub mod files;
pub mod banner;
pub mod session_shm;
