//! Verified core of a "fact of the day" mailing bot: URL and form decoding,
//! configuration reading, webhook set-up, subscriber bookkeeping and the
//! pure decisions behind the web routes and the daily send loop.

pub mod text;
pub mod number;
pub mod url;
pub mod query;
pub mod mime;
pub mod config;
pub mod webhook;
pub mod email;
pub mod send_time;
pub mod schedule;
pub mod web;
pub mod routes;
pub mod dates;
