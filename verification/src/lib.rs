//! A minimal logging facade with a fixed-format textual timestamp.
//!
//! The heart of the crate is a from-scratch epoch-milliseconds to civil-date
//! converter for the proleptic Gregorian calendar, done entirely in integer
//! arithmetic with a fixed UTC+8 offset, together with a renderer for the
//! `YYYY-MM-DD HH:MM:SS.mmm` timestamp pattern and the pipe-delimited log
//! line built around it.

pub mod civil;
pub mod logger;
pub mod render;
