//! Resolver for Apple touch-icon request paths.
//!
//! A touch icon is a square PNG that mobile browsers request under a path of
//! the form `apple-touch-icon(-<W>x<H>)?(-precomposed)?.png`. This crate
//! turns such a path into a validated `(width, height)` pair (or a rejection
//! reason) and can render the dimensions back into the canonical path form.
//! It performs no I/O; the surrounding service hands it the request path and
//! takes plain values back.

pub mod canon;
pub mod grammar;
pub mod icon;
pub mod laws;
pub mod parser;
