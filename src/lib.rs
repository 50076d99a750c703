//! A length-prefixed, quote-escaped text frame protocol over a byte stream,
//! and the interpreter that turns decoded text into tasks.

pub mod escape;
pub mod frame;
pub mod text;
pub mod command;
pub mod config;
pub mod output;
pub mod dispatch;
