//! A forwarding DNS server's decision logic: routing by client group, local
//! host overrides, a TTL-aware answer cache, AAAA filtering rules, upstream
//! selection, and the small wire formats around them (ICMP echo, HTTP/1.1,
//! length-prefixed DNS over TCP).
pub mod cache;
pub mod config;
pub mod dns;
pub mod handler;
pub mod http;
pub mod ip;
pub mod logs;
pub mod parse;
pub mod ping;
pub mod ptr;
pub mod rules;
pub mod seqs;
pub mod text;
pub mod upstream;
pub mod wire;
