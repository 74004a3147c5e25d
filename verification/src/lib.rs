//! Hookline: a small HTTP notification gateway.
//!
//! The verified core decides how a webhook request is answered and what
//! is sent to which channel; the program around it does the networking.

pub mod notification;
pub mod text;
pub mod url;
pub mod query;
pub mod json;
pub mod config;
pub mod channels;
pub mod handler;
pub mod laws;
